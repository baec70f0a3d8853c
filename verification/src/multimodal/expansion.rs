//! Putting the embeddings of media into a prompt.
use super::injection::{
    expanded_count, expanded_len, expanded_len_from_plan, marker_tokens, media_plan,
    media_plans_are_ordered, minimum_len, ordered_media_plan, plan_valid, planned_embeddings,
    plans_ordered, plans_place_all_embeddings, replacement_len, span_end, token_sum, EncodedPrompt,
    InjectionError, MediaKind, MediaSpanPlan,
};
use crate::positions::{
    grid_rejection, grid_triples, largest, text_triples, triple, PositionError, RopePositionPlan,
};
use crate::values::{append_range, copy_values};
use std::collections::HashMap;
use vstd::prelude::*;

verus! {

broadcast use vstd::std_specs::hash::group_hash_axioms;

/// The embeddings of one medium, with the dimensions of its grid where it has one.
#[derive(Debug)]
pub struct MediaEmbeddingSequence<T> {
    pub tokens: Vec<Vec<T>>,
    /// The temporal, vertical and horizontal dimensions, in embedding token order.
    pub grid: Option<[usize; 3]>,
}

/// A prompt with its media: the tokens, the embedding of each slot, and the positions of all
/// tokens where a medium has a grid.
#[derive(Debug)]
pub struct ExpandedMediaPrompt<T> {
    pub token_ids: Vec<i32>,
    pub embeddings: HashMap<usize, Vec<T>>,
    pub position_plan: Option<RopePositionPlan>,
}

/// What an expanded prompt holds.
#[verifier::ext_equal]
pub struct Expansion<T> {
    pub tokens: Seq<i32>,
    pub embeddings: Map<usize, Seq<T>>,
    pub positions: Option<Positions>,
}

/// The positions of the tokens so far and that of the next text token.
#[verifier::ext_equal]
pub struct Positions {
    pub next: int,
    pub triples: Seq<(int, int, int)>,
}

impl<T> View for ExpandedMediaPrompt<T> {
    type V = Expansion<T>;

    open spec fn view(&self) -> Expansion<T> {
        Expansion {
            tokens: self.token_ids@,
            embeddings: stored(self.embeddings@),
            positions: match self.position_plan {
                Some(plan) => Some(plan_positions(plan)),
                None => None,
            },
        }
    }
}

/// The positions of a plan.
pub open spec fn plan_positions(plan: RopePositionPlan) -> Positions {
    Positions { next: plan.next_text_position as int, triples: plan.triples() }
}

/// The contents of stored embeddings.
pub open spec fn stored<T>(map: Map<usize, Vec<T>>) -> Map<usize, Seq<T>> {
    map.map_values(|v: Vec<T>| v@)
}

/// The embeddings of a medium.
pub open spec fn contents<T>(sequence: MediaEmbeddingSequence<T>) -> Seq<Seq<T>> {
    sequence.tokens@.map(|i: int, v: Vec<T>| v@)
}

/// The numbers of embeddings of media.
pub open spec fn counts<T>(sequences: Seq<MediaEmbeddingSequence<T>>) -> Seq<usize> {
    sequences.map(|i: int, s: MediaEmbeddingSequence<T>| s.tokens@.len() as usize)
}

/// The first of the first `j` embeddings of a medium that has another dimension.
pub open spec fn token_dim_rejection<T>(
    kind: MediaKind,
    media_index: usize,
    sequence: MediaEmbeddingSequence<T>,
    wanted: usize,
    j: nat,
) -> Option<InjectionError>
    decreases j,
{
    if j == 0 {
        None
    } else {
        match token_dim_rejection(kind, media_index, sequence, wanted, (j - 1) as nat) {
            Some(error) => Some(error),
            None => if sequence.tokens@[j - 1]@.len() != wanted {
                Some(
                    InjectionError::EmbeddingDim {
                        kind,
                        media_index,
                        token: (j - 1) as usize,
                        got: sequence.tokens@[j - 1]@.len() as usize,
                        wanted,
                    },
                )
            } else {
                None
            },
        }
    }
}

/// The first embedding of the first `k` media that has another dimension.
pub open spec fn dim_rejection<T>(
    kind: MediaKind,
    sequences: Seq<MediaEmbeddingSequence<T>>,
    wanted: usize,
    k: nat,
) -> Option<InjectionError>
    decreases k,
{
    if k == 0 {
        None
    } else {
        match dim_rejection(kind, sequences, wanted, (k - 1) as nat) {
            Some(error) => Some(error),
            None => token_dim_rejection(
                kind,
                (k - 1) as usize,
                sequences[k - 1],
                wanted,
                sequences[k - 1].tokens@.len(),
            ),
        }
    }
}

proof fn lemma_first_token_dim<T>(
    kind: MediaKind,
    media_index: usize,
    sequence: MediaEmbeddingSequence<T>,
    wanted: usize,
    j: nat,
    n: nat,
)
    requires
        j <= n,
        token_dim_rejection(kind, media_index, sequence, wanted, j) is Some,
    ensures
        token_dim_rejection(kind, media_index, sequence, wanted, n) == token_dim_rejection(
            kind,
            media_index,
            sequence,
            wanted,
            j,
        ),
    decreases n,
{
    if j < n {
        lemma_first_token_dim(kind, media_index, sequence, wanted, j, (n - 1) as nat);
    }
}

proof fn lemma_first_dim<T>(
    kind: MediaKind,
    sequences: Seq<MediaEmbeddingSequence<T>>,
    wanted: usize,
    k: nat,
    n: nat,
)
    requires
        k <= n,
        dim_rejection(kind, sequences, wanted, k) is Some,
    ensures
        dim_rejection(kind, sequences, wanted, n) == dim_rejection(kind, sequences, wanted, k),
    decreases n,
{
    if k < n {
        lemma_first_dim(kind, sequences, wanted, k, (n - 1) as nat);
    }
}

/// Checks that every embedding has the dimension of the model.
pub fn validate_embedding_dimensions<T>(
    kind: MediaKind,
    sequences: &[MediaEmbeddingSequence<T>],
    expected_embedding_dim: usize,
) -> (result: Result<(), InjectionError>)
    ensures
        match result {
            Ok(_) => dim_rejection(kind, sequences@, expected_embedding_dim, sequences@.len())
                is None,
            Err(error) => dim_rejection(
                kind,
                sequences@,
                expected_embedding_dim,
                sequences@.len(),
            ) == Some(error),
        },
{
    let mut k: usize = 0;
    while k < sequences.len()
        invariant
            k <= sequences@.len(),
            dim_rejection(kind, sequences@, expected_embedding_dim, k as nat) is None,
        decreases sequences.len() - k,
    {
        let sequence = &sequences[k];
        let mut j: usize = 0;
        while j < sequence.tokens.len()
            invariant
                k < sequences@.len(),
                *sequence == sequences@[k as int],
                j <= sequence.tokens@.len(),
                dim_rejection(kind, sequences@, expected_embedding_dim, k as nat) is None,
                token_dim_rejection(kind, k, *sequence, expected_embedding_dim, j as nat) is None,
            decreases sequence.tokens.len() - j,
        {
            if sequence.tokens[j].len() != expected_embedding_dim {
                proof {
                    lemma_first_token_dim(
                        kind,
                        k,
                        *sequence,
                        expected_embedding_dim,
                        (j + 1) as nat,
                        sequence.tokens@.len(),
                    );
                    lemma_first_dim(
                        kind,
                        sequences@,
                        expected_embedding_dim,
                        (k + 1) as nat,
                        sequences@.len(),
                    );
                }
                return Err(
                    InjectionError::EmbeddingDim {
                        kind,
                        media_index: k,
                        token: j,
                        got: sequence.tokens[j].len(),
                        wanted: expected_embedding_dim,
                    },
                );
            }
            j = j + 1;
        }
        k = k + 1;
    }
    Ok(())
}

fn token_counts<T>(sequences: &[MediaEmbeddingSequence<T>]) -> (out: Vec<usize>)
    ensures
        out@ == counts(sequences@),
{
    let mut out: Vec<usize> = Vec::new();
    while out.len() < sequences.len()
        invariant
            out@.len() <= sequences@.len(),
            out@ == counts(sequences@).take(out@.len() as int),
        decreases sequences.len() - out.len(),
    {
        let k: usize = out.len();
        out.push(sequences[k].tokens.len());
        assert(sequences@[k as int].tokens@.len() == sequences@[k as int].tokens.len());
        assert(out@ =~= counts(sequences@).take(k + 1));
    }
    assert(out@ =~= counts(sequences@));
    out
}

/// Whether a medium has a grid.
pub open spec fn any_grid<T>(sequences: Seq<MediaEmbeddingSequence<T>>) -> bool {
    exists|i: int| 0 <= i < sequences.len() && (#[trigger] sequences[i]).grid is Some
}

fn has_grid<T>(sequences: &[MediaEmbeddingSequence<T>]) -> (found: bool)
    ensures
        found == any_grid(sequences@),
{
    let mut k: usize = 0;
    while k < sequences.len()
        invariant
            k <= sequences@.len(),
            forall|i: int| 0 <= i < k ==> (#[trigger] sequences@[i]).grid is None,
        decreases sequences.len() - k,
    {
        if sequences[k].grid.is_some() {
            assert(sequences@[k as int].grid is Some);
            return true;
        }
        k = k + 1;
    }
    false
}

/// The medium of a plan.
pub open spec fn medium<T>(
    plan: MediaSpanPlan,
    images: Seq<MediaEmbeddingSequence<T>>,
    audios: Seq<MediaEmbeddingSequence<T>>,
) -> MediaEmbeddingSequence<T> {
    match plan.kind {
        MediaKind::Image => images[plan.span.media_index as int],
        MediaKind::Audio => audios[plan.span.media_index as int],
    }
}

/// Where the prompt goes on after the first `k` plans.
pub open spec fn cursor(plans: Seq<MediaSpanPlan>, k: int) -> int {
    if k <= 0 {
        0
    } else {
        span_end(plans[k - 1].span)
    }
}

/// A token repeated.
pub open spec fn copies(token: i32, count: nat) -> Seq<i32> {
    Seq::new(count, |i: int| token)
}

/// The token that stands for each embedding of a plan.
pub open spec fn placeholder(prompt: Seq<i32>, plan: MediaSpanPlan) -> i32 {
    if !plan.span.replace_marker && plan.span.token_len >= 3 {
        prompt[plan.span.token_start + 1]
    } else {
        prompt[plan.span.token_start as int]
    }
}

/// The tokens that take the place of a span: a placeholder for each embedding, between the first
/// and last token of the span where the markers stay.
pub open spec fn replacement(prompt: Seq<i32>, plan: MediaSpanPlan) -> Seq<i32> {
    let slots = copies(placeholder(prompt, plan), plan.embedding_tokens as nat);
    if plan.span.replace_marker {
        slots
    } else {
        seq![prompt[plan.span.token_start as int]] + slots + seq![prompt[span_end(plan.span) - 1]]
    }
}

/// The tokens of a prompt up to the end of the first `k` plans.
pub open spec fn expanded_tokens(prompt: Seq<i32>, plans: Seq<MediaSpanPlan>, k: nat) -> Seq<i32>
    decreases k,
{
    if k == 0 {
        Seq::empty()
    } else {
        expanded_tokens(prompt, plans, (k - 1) as nat) + prompt.subrange(
            cursor(plans, k - 1),
            plans[k - 1].span.token_start as int,
        ) + replacement(prompt, plans[k - 1])
    }
}

/// The place of the first embedding of plan `k` in the expanded prompt.
pub open spec fn first_slot(prompt: Seq<i32>, plans: Seq<MediaSpanPlan>, k: int) -> int {
    expanded_tokens(prompt, plans, k as nat).len() + (plans[k].span.token_start - cursor(plans, k))
        + if plans[k].span.replace_marker {
        0int
    } else {
        1int
    }
}

/// Embeddings stored one after the other from a place on.
pub open spec fn placed<T>(
    map: Map<usize, Seq<T>>,
    at: int,
    embeddings: Seq<Seq<T>>,
    j: nat,
) -> Map<usize, Seq<T>>
    decreases j,
{
    if j == 0 {
        map
    } else {
        placed(map, at, embeddings, (j - 1) as nat).insert(
            (at + j - 1) as usize,
            embeddings[j - 1],
        )
    }
}

/// The embeddings of the first `k` plans, each at its place in the expanded prompt.
pub open spec fn expanded_embeddings<T>(
    prompt: Seq<i32>,
    plans: Seq<MediaSpanPlan>,
    images: Seq<MediaEmbeddingSequence<T>>,
    audios: Seq<MediaEmbeddingSequence<T>>,
    k: nat,
) -> Map<usize, Seq<T>>
    decreases k,
{
    if k == 0 {
        Map::empty()
    } else {
        let embeddings = contents(medium(plans[k - 1], images, audios));
        placed(
            expanded_embeddings(prompt, plans, images, audios, (k - 1) as nat),
            first_slot(prompt, plans, k - 1),
            embeddings,
            embeddings.len(),
        )
    }
}

/// Positions with more text.
pub open spec fn with_text(positions: Result<Positions, PositionError>, count: int) -> Result<
    Positions,
    PositionError,
> {
    match positions {
        Err(error) => Err(error),
        Ok(p) => if p.next + count > usize::MAX {
            Err(PositionError::TextOverflow)
        } else {
            Ok(
                Positions {
                    next: p.next + count,
                    triples: p.triples + text_triples(p.next, count as nat),
                },
            )
        },
    }
}

/// Positions with one more grid.
pub open spec fn with_grid(
    positions: Result<Positions, PositionError>,
    grid: (int, int, int),
    count: int,
) -> Result<Positions, PositionError> {
    match positions {
        Err(error) => Err(error),
        Ok(p) => match grid_rejection(p.next as usize, grid, count as usize) {
            Some(error) => Err(error),
            None => Ok(
                Positions {
                    next: p.next + largest(grid.0, grid.1, grid.2),
                    triples: p.triples + grid_triples(
                        p.next,
                        grid.0 as nat,
                        grid.1 as nat,
                        grid.2 as nat,
                    ),
                },
            ),
        },
    }
}

/// Positions with the text up to a span and with what takes the span's place.
pub open spec fn with_medium<T>(
    positions: Result<Positions, PositionError>,
    gap: int,
    replace_marker: bool,
    sequence: MediaEmbeddingSequence<T>,
) -> Result<Positions, PositionError> {
    let before = with_text(positions, gap);
    let marked = if replace_marker {
        before
    } else {
        with_text(before, 1)
    };
    let count = sequence.tokens@.len() as int;
    let filled = match sequence.grid {
        Some(grid) => with_grid(marked, triple(grid), count),
        None => with_text(marked, count),
    };
    if replace_marker {
        filled
    } else {
        with_text(filled, 1)
    }
}

/// The positions of the tokens up to the end of the first `k` plans.
pub open spec fn expanded_positions<T>(
    plans: Seq<MediaSpanPlan>,
    images: Seq<MediaEmbeddingSequence<T>>,
    audios: Seq<MediaEmbeddingSequence<T>>,
    k: nat,
) -> Result<Positions, PositionError>
    decreases k,
{
    if k == 0 {
        Ok(Positions { next: 0, triples: Seq::empty() })
    } else {
        with_medium(
            expanded_positions(plans, images, audios, (k - 1) as nat),
            plans[k - 1].span.token_start - cursor(plans, k - 1),
            plans[k - 1].span.replace_marker,
            medium(plans[k - 1], images, audios),
        )
    }
}

/// The positions of all tokens of an expanded prompt.
pub open spec fn all_positions<T>(
    prompt_len: int,
    plans: Seq<MediaSpanPlan>,
    images: Seq<MediaEmbeddingSequence<T>>,
    audios: Seq<MediaEmbeddingSequence<T>>,
) -> Result<Positions, PositionError> {
    with_text(
        expanded_positions(plans, images, audios, plans.len()),
        prompt_len - cursor(plans, plans.len() as int),
    )
}

/// The expansion along given plans.
pub open spec fn planned_expansion<T>(
    prompt: Seq<i32>,
    plans: Seq<MediaSpanPlan>,
    images: Seq<MediaEmbeddingSequence<T>>,
    audios: Seq<MediaEmbeddingSequence<T>>,
) -> Result<Expansion<T>, InjectionError> {
    let n = plans.len();
    let tokens = expanded_tokens(prompt, plans, n) + prompt.skip(cursor(plans, n as int));
    let embeddings = expanded_embeddings(prompt, plans, images, audios, n);
    if any_grid(images) || any_grid(audios) {
        match all_positions(prompt.len() as int, plans, images, audios) {
            Err(error) => Err(InjectionError::Position(error)),
            Ok(p) => Ok(Expansion { tokens, embeddings, positions: Some(p) }),
        }
    } else {
        Ok(Expansion { tokens, embeddings, positions: None })
    }
}

/// What a prompt becomes with its media.
pub open spec fn expansion<T>(
    prompt: EncodedPrompt,
    images: Seq<MediaEmbeddingSequence<T>>,
    audios: Seq<MediaEmbeddingSequence<T>>,
    dim: usize,
) -> Result<Expansion<T>, InjectionError> {
    match dim_rejection(MediaKind::Image, images, dim, images.len()) {
        Some(error) => Err(error),
        None => match dim_rejection(MediaKind::Audio, audios, dim, audios.len()) {
            Some(error) => Err(error),
            None => match media_plan(prompt, counts(images), counts(audios)) {
                Err(error) => Err(error),
                Ok(plans) => match expanded_len(
                    prompt.token_ids@.len() as int,
                    plans,
                    plans.len(),
                ) {
                    Err(error) => Err(error),
                    Ok(_) => planned_expansion(prompt.token_ids@, plans, images, audios),
                },
            },
        },
    }
}

fn append_text(plan: &mut RopePositionPlan, count: usize) -> (result: Result<(), InjectionError>)
    ensures
        match result {
            Ok(_) => with_text(Ok(plan_positions(*old(plan))), count as int) == Ok::<
                Positions,
                PositionError,
            >(plan_positions(*final(plan))),
            Err(error) => error matches InjectionError::Position(e) && with_text(
                Ok(plan_positions(*old(plan))),
                count as int,
            ) == Err::<Positions, PositionError>(e),
        },
{
    match plan.append_text(count) {
        Ok(_) => Ok(()),
        Err(error) => Err(InjectionError::Position(error)),
    }
}

fn append_medium<T>(
    plan: &mut RopePositionPlan,
    gap: usize,
    replace_marker: bool,
    sequence: &MediaEmbeddingSequence<T>,
) -> (result: Result<(), InjectionError>)
    ensures
        match result {
            Ok(_) => with_medium(
                Ok(plan_positions(*old(plan))),
                gap as int,
                replace_marker,
                *sequence,
            ) == Ok::<Positions, PositionError>(plan_positions(*final(plan))),
            Err(error) => error matches InjectionError::Position(e) && with_medium(
                Ok(plan_positions(*old(plan))),
                gap as int,
                replace_marker,
                *sequence,
            ) == Err::<Positions, PositionError>(e),
        },
{
    match append_text(plan, gap) {
        Ok(_) => {},
        Err(error) => return Err(error),
    }
    if !replace_marker {
        match append_text(plan, 1) {
            Ok(_) => {},
            Err(error) => return Err(error),
        }
    }
    assert(sequence.tokens@.len() == sequence.tokens.len());
    match sequence.grid {
        Some(grid) => match plan.append_grid(grid, sequence.tokens.len()) {
            Ok(_) => {},
            Err(error) => return Err(InjectionError::Position(error)),
        },
        None => match append_text(plan, sequence.tokens.len()) {
            Ok(_) => {},
            Err(error) => return Err(error),
        },
    }
    if !replace_marker {
        match append_text(plan, 1) {
            Ok(_) => {},
            Err(error) => return Err(error),
        }
    }
    Ok(())
}

fn append_embeddings<T: Copy>(
    out: &mut Vec<i32>,
    map: &mut HashMap<usize, Vec<T>>,
    placeholder: i32,
    sequence: &MediaEmbeddingSequence<T>,
)
    ensures
        final(out)@ == old(out)@ + copies(placeholder, sequence.tokens@.len()),
        stored(final(map)@) == placed(
            stored(old(map)@),
            old(out)@.len() as int,
            contents(*sequence),
            sequence.tokens@.len(),
        ),
{
    let ghost at = out@.len() as int;
    let mut j: usize = 0;
    assert(out@ =~= old(out)@ + copies(placeholder, 0));
    while j < sequence.tokens.len()
        invariant
            j <= sequence.tokens@.len(),
            at == old(out)@.len(),
            out@ == old(out)@ + copies(placeholder, j as nat),
            stored(map@) == placed(stored(old(map)@), at, contents(*sequence), j as nat),
        decreases sequence.tokens.len() - j,
    {
        let destination: usize = out.len();
        out.push(placeholder);
        let ghost was = map@;
        let embedding = copy_values(&sequence.tokens[j]);
        map.insert(destination, embedding);
        proof {
            assert(destination == at + j);
            assert(contents(*sequence)[j as int] == embedding@);
            assert(stored(map@) =~= stored(was).insert(destination, embedding@));
            assert(out@ =~= old(out)@ + copies(placeholder, (j + 1) as nat));
        }
        j = j + 1;
    }
}

fn append_replacement<T: Copy>(
    encoded: &EncodedPrompt,
    plan: MediaSpanPlan,
    from: usize,
    sequence: &MediaEmbeddingSequence<T>,
    tokens: &mut Vec<i32>,
    embeddings: &mut HashMap<usize, Vec<T>>,
)
    requires
        from <= plan.span.token_start,
        minimum_len(plan.span) <= plan.span.token_len,
        span_end(plan.span) <= encoded.token_ids@.len(),
        plan.embedding_tokens == sequence.tokens@.len(),
    ensures
        final(tokens)@ == old(tokens)@ + encoded.token_ids@.subrange(
            from as int,
            plan.span.token_start as int,
        ) + replacement(encoded.token_ids@, plan),
        stored(final(embeddings)@) == placed(
            stored(old(embeddings)@),
            old(tokens)@.len() + (plan.span.token_start - from) + if plan.span.replace_marker {
                0int
            } else {
                1int
            },
            contents(*sequence),
            sequence.tokens@.len(),
        ),
{
    append_range(tokens, encoded.token_ids.as_slice(), from, plan.span.token_start);
    let ghost before = tokens@;
    if plan.span.replace_marker {
        let placeholder: i32 = encoded.token_ids[plan.span.token_start];
        append_embeddings(tokens, embeddings, placeholder, sequence);
    } else {
        let (begin, placeholder, end) = marker_tokens(encoded, plan.span);
        tokens.push(begin);
        append_embeddings(tokens, embeddings, placeholder, sequence);
        tokens.push(end);
        assert(tokens@ =~= before + replacement(encoded.token_ids@, plan));
    }
}

proof fn lemma_position_error_stays<T>(
    plans: Seq<MediaSpanPlan>,
    images: Seq<MediaEmbeddingSequence<T>>,
    audios: Seq<MediaEmbeddingSequence<T>>,
    k: nat,
    n: nat,
)
    requires
        k <= n,
        expanded_positions(plans, images, audios, k) is Err,
    ensures
        expanded_positions(plans, images, audios, n) == expanded_positions(
            plans,
            images,
            audios,
            k,
        ),
    decreases n,
{
    if k < n {
        lemma_position_error_stays(plans, images, audios, k, (n - 1) as nat);
    }
}

fn expand_along<T: Copy>(
    encoded: &EncodedPrompt,
    plans: &Vec<MediaSpanPlan>,
    image_embeddings: &[MediaEmbeddingSequence<T>],
    audio_embeddings: &[MediaEmbeddingSequence<T>],
) -> (result: Result<ExpandedMediaPrompt<T>, InjectionError>)
    requires
        plans_ordered(
            plans@,
            encoded.token_ids@.len() as int,
            counts(image_embeddings@),
            counts(audio_embeddings@),
        ),
    ensures
        match result {
            Ok(expanded) => planned_expansion(
                encoded.token_ids@,
                plans@,
                image_embeddings@,
                audio_embeddings@,
            ) == Ok::<Expansion<T>, InjectionError>(expanded@),
            Err(error) => planned_expansion(
                encoded.token_ids@,
                plans@,
                image_embeddings@,
                audio_embeddings@,
            ) == Err::<Expansion<T>, InjectionError>(error),
        },
{
    let ghost prompt = encoded.token_ids@;
    let ghost images = image_embeddings@;
    let ghost audios = audio_embeddings@;
    let with_positions: bool = has_grid(image_embeddings) || has_grid(audio_embeddings);
    let mut tokens: Vec<i32> = Vec::new();
    let mut embeddings: HashMap<usize, Vec<T>> = HashMap::new();
    let mut positions: RopePositionPlan = RopePositionPlan::default();
    let mut source_cursor: usize = 0;
    let mut k: usize = 0;
    assert(stored(embeddings@) =~= Map::empty());
    assert(encoded.token_ids@.len() == encoded.token_ids.len());
    while k < plans.len()
        invariant
            k <= plans@.len(),
            prompt == encoded.token_ids@,
            images == image_embeddings@,
            audios == audio_embeddings@,
            with_positions == (any_grid(images) || any_grid(audios)),
            plans_ordered(plans@, prompt.len() as int, counts(images), counts(audios)),
            source_cursor == cursor(plans@, k as int),
            source_cursor <= prompt.len(),
            tokens@ == expanded_tokens(prompt, plans@, k as nat),
            stored(embeddings@) == expanded_embeddings(prompt, plans@, images, audios, k as nat),
            with_positions ==> expanded_positions(plans@, images, audios, k as nat) == Ok::<
                Positions,
                PositionError,
            >(plan_positions(positions)),
        decreases plans.len() - k,
    {
        let plan = plans[k];
        proof {
            assert(plan_valid(
                plans@[k as int],
                prompt.len() as int,
                counts(images),
                counts(audios),
            ));
            assert(cursor(plans@, k as int) <= plan.span.token_start);
        }
        let sequence = match plan.kind {
            MediaKind::Image => &image_embeddings[plan.span.media_index],
            MediaKind::Audio => &audio_embeddings[plan.span.media_index],
        };
        assert(*sequence == medium(plan, images, audios));
        assert(sequence.tokens@.len() == sequence.tokens.len());
        assert(plan.embedding_tokens == sequence.tokens@.len());
        assert(contents(*sequence).len() == sequence.tokens@.len());
        if with_positions {
            match append_medium(
                &mut positions,
                plan.span.token_start - source_cursor,
                plan.span.replace_marker,
                sequence,
            ) {
                Ok(_) => {},
                Err(error) => {
                    proof {
                        lemma_position_error_stays(
                            plans@,
                            images,
                            audios,
                            (k + 1) as nat,
                            plans@.len(),
                        );
                    }
                    return Err(error);
                },
            }
        }
        append_replacement(
            encoded,
            plan,
            source_cursor,
            sequence,
            &mut tokens,
            &mut embeddings,
        );
        assert(encoded.token_ids@.len() == encoded.token_ids.len());
        source_cursor = plan.span.token_start + plan.span.token_len;
        k = k + 1;
    }
    append_range(
        &mut tokens,
        encoded.token_ids.as_slice(),
        source_cursor,
        encoded.token_ids.len(),
    );
    assert(prompt.subrange(source_cursor as int, prompt.len() as int) =~= prompt.skip(
        source_cursor as int,
    ));
    if with_positions {
        match append_text(&mut positions, encoded.token_ids.len() - source_cursor) {
            Ok(_) => {},
            Err(error) => return Err(error),
        }
        Ok(ExpandedMediaPrompt { token_ids: tokens, embeddings, position_plan: Some(positions) })
    } else {
        Ok(ExpandedMediaPrompt { token_ids: tokens, embeddings, position_plan: None })
    }
}

/// Puts the embeddings of media into a prompt, in prompt order.
pub fn expand_prompt_with_media_embeddings<T: Copy>(
    encoded: &EncodedPrompt,
    image_embeddings: &[MediaEmbeddingSequence<T>],
    audio_embeddings: &[MediaEmbeddingSequence<T>],
    expected_embedding_dim: usize,
) -> (result: Result<ExpandedMediaPrompt<T>, InjectionError>)
    ensures
        match result {
            Ok(expanded) => expansion(
                *encoded,
                image_embeddings@,
                audio_embeddings@,
                expected_embedding_dim,
            ) == Ok::<Expansion<T>, InjectionError>(expanded@),
            Err(error) => expansion(
                *encoded,
                image_embeddings@,
                audio_embeddings@,
                expected_embedding_dim,
            ) == Err::<Expansion<T>, InjectionError>(error),
        },
{
    match validate_embedding_dimensions(
        MediaKind::Image,
        image_embeddings,
        expected_embedding_dim,
    ) {
        Ok(_) => {},
        Err(error) => return Err(error),
    }
    match validate_embedding_dimensions(
        MediaKind::Audio,
        audio_embeddings,
        expected_embedding_dim,
    ) {
        Ok(_) => {},
        Err(error) => return Err(error),
    }
    let image_counts = token_counts(image_embeddings);
    let audio_counts = token_counts(audio_embeddings);
    let plans = match ordered_media_plan(
        encoded,
        image_counts.as_slice(),
        audio_counts.as_slice(),
    ) {
        Ok(plans) => plans,
        Err(error) => return Err(error),
    };
    match expanded_len_from_plan(encoded.token_ids.len(), &plans) {
        Ok(_) => {},
        Err(error) => return Err(error),
    }
    proof {
        media_plans_are_ordered(*encoded, counts(image_embeddings@), counts(audio_embeddings@));
    }
    expand_along(encoded, &plans, image_embeddings, audio_embeddings)
}

proof fn lemma_expanded_len(
    prompt: Seq<i32>,
    plans: Seq<MediaSpanPlan>,
    images: Seq<usize>,
    audios: Seq<usize>,
    k: nat,
    n: nat,
)
    requires
        k <= n <= plans.len(),
        plans_ordered(plans, prompt.len() as int, images, audios),
        expanded_len(prompt.len() as int, plans, n) is Ok,
    ensures
        expanded_len(prompt.len() as int, plans, k) == Ok::<int, InjectionError>(
            expanded_tokens(prompt, plans, k).len() + prompt.len() - cursor(plans, k as int),
        ),
        0 <= cursor(plans, k as int) <= prompt.len(),
        k > 0 ==> expanded_tokens(prompt, plans, k).len() <= usize::MAX,
        k < n ==> cursor(plans, k as int) <= plans[k as int].span.token_start,
    decreases n, k,
{
    if k < n {
        assert(expanded_len(prompt.len() as int, plans, (n - 1) as nat) is Ok);
        lemma_expanded_len(prompt, plans, images, audios, k, (n - 1) as nat);
        assert(plan_valid(plans[k as int], prompt.len() as int, images, audios));
        if k > 0 {
            assert(plan_valid(plans[k - 1], prompt.len() as int, images, audios));
        }
    } else if k > 0 {
        lemma_expanded_len(prompt, plans, images, audios, (k - 1) as nat, n);
        assert(plan_valid(plans[k - 1], prompt.len() as int, images, audios));
        assert(replacement(prompt, plans[k - 1]).len() == replacement_len(plans[k - 1]));
    }
}

/// An expanded prompt has the length that was planned for it.
pub proof fn expanded_prompts_have_the_planned_length<T>(
    prompt: EncodedPrompt,
    images: Seq<MediaEmbeddingSequence<T>>,
    audios: Seq<MediaEmbeddingSequence<T>>,
    dim: usize,
)
    ensures
        expansion(prompt, images, audios, dim) matches Ok(expanded) ==> expanded_count(
            prompt,
            counts(images),
            counts(audios),
        ) == Ok::<int, InjectionError>(expanded.tokens.len() as int),
{
    match expansion(prompt, images, audios, dim) {
        Err(_) => {},
        Ok(expanded) => {
            let plans = media_plan(prompt, counts(images), counts(audios))->Ok_0;
            media_plans_are_ordered(prompt, counts(images), counts(audios));
            lemma_expanded_len(
                prompt.token_ids@,
                plans,
                counts(images),
                counts(audios),
                plans.len(),
                plans.len(),
            );
        },
    }
}

proof fn lemma_positions_len<T>(
    prompt: Seq<i32>,
    plans: Seq<MediaSpanPlan>,
    images: Seq<MediaEmbeddingSequence<T>>,
    audios: Seq<MediaEmbeddingSequence<T>>,
    k: nat,
)
    requires
        k <= plans.len(),
        plans_ordered(plans, prompt.len() as int, counts(images), counts(audios)),
        expanded_positions(plans, images, audios, k) is Ok,
        forall|i: int|
            0 <= i < images.len() ==> (#[trigger] images[i]).tokens@.len() <= usize::MAX,
        forall|i: int|
            0 <= i < audios.len() ==> (#[trigger] audios[i]).tokens@.len() <= usize::MAX,
    ensures
        expanded_positions(plans, images, audios, k)->Ok_0.triples.len() == expanded_tokens(
            prompt,
            plans,
            k,
        ).len(),
        0 <= expanded_positions(plans, images, audios, k)->Ok_0.next,
    decreases k,
{
    if k > 0 {
        let plan = plans[k - 1];
        let sequence = medium(plan, images, audios);
        assert(expanded_positions(plans, images, audios, (k - 1) as nat) is Ok);
        lemma_positions_len(prompt, plans, images, audios, (k - 1) as nat);
        assert(plan_valid(plan, prompt.len() as int, counts(images), counts(audios)));
        assert(plan.embedding_tokens == sequence.tokens@.len());
        assert(cursor(plans, k - 1) <= plan.span.token_start) by {
            if k > 1 {
                assert(plans[k - 2].span.token_start >= 0);
            }
        }
        if k > 1 {
            assert(plan_valid(plans[k - 2], prompt.len() as int, counts(images), counts(audios)));
        }
        assert(replacement(prompt, plan).len() == replacement_len(plan));
        let p = expanded_positions(plans, images, audios, (k - 1) as nat);
        let gap = plan.span.token_start - cursor(plans, k - 1);
        lemma_medium_len(p->Ok_0, gap, plan.span.replace_marker, sequence);
    }
}

proof fn lemma_medium_len<T>(
    p: Positions,
    gap: int,
    replace_marker: bool,
    sequence: MediaEmbeddingSequence<T>,
)
    requires
        gap >= 0,
        p.next >= 0,
        sequence.tokens@.len() <= usize::MAX,
        with_medium(Ok(p), gap, replace_marker, sequence) is Ok,
    ensures
        ({
            let q = with_medium(Ok(p), gap, replace_marker, sequence)->Ok_0;
            &&& q.next >= 0
            &&& q.triples.len() == p.triples.len() + gap + sequence.tokens@.len() + (
            if replace_marker {
                0int
            } else {
                2int
            })
        }),
{
    let before = with_text(Ok(p), gap);
    let marked = if replace_marker {
        before
    } else {
        with_text(before, 1)
    };
    assert(marked is Ok);
    match sequence.grid {
        Some(grid) => {
            let (t, h, w) = triple(grid);
            assert(with_grid(marked, triple(grid), sequence.tokens@.len() as int) is Ok);
            assert((t as nat) * (h as nat) * (w as nat) == t * h * w);
        },
        None => {},
    }
}

/// The positions of an expanded prompt cover exactly its tokens.
pub proof fn positions_cover_expanded_prompts<T>(
    prompt: EncodedPrompt,
    images: Seq<MediaEmbeddingSequence<T>>,
    audios: Seq<MediaEmbeddingSequence<T>>,
    dim: usize,
)
    requires
        forall|i: int|
            0 <= i < images.len() ==> (#[trigger] images[i]).tokens@.len() <= usize::MAX,
        forall|i: int|
            0 <= i < audios.len() ==> (#[trigger] audios[i]).tokens@.len() <= usize::MAX,
    ensures
        expansion(prompt, images, audios, dim) matches Ok(expanded) ==> (
        expanded.positions matches Some(p) ==> p.triples.len() == expanded.tokens.len()),
{
    match expansion(prompt, images, audios, dim) {
        Err(_) => {},
        Ok(expanded) => {
            let plans = media_plan(prompt, counts(images), counts(audios))->Ok_0;
            media_plans_are_ordered(prompt, counts(images), counts(audios));
            lemma_expanded_len(
                prompt.token_ids@,
                plans,
                counts(images),
                counts(audios),
                plans.len(),
                plans.len(),
            );
            if any_grid(images) || any_grid(audios) {
                lemma_positions_len(prompt.token_ids@, plans, images, audios, plans.len());
            }
        },
    }
}

proof fn lemma_placed<T>(
    map: Map<usize, Seq<T>>,
    at: int,
    embeddings: Seq<Seq<T>>,
    n: nat,
    key: usize,
)
    requires
        0 <= at,
        at + n <= usize::MAX,
        n <= embeddings.len(),
    ensures
        at <= key < at + n ==> placed(map, at, embeddings, n).dom().contains(key) && placed(
            map,
            at,
            embeddings,
            n,
        )[key] == embeddings[key - at],
        key < at || key >= at + n ==> placed(map, at, embeddings, n).dom().contains(key)
            == map.dom().contains(key) && placed(map, at, embeddings, n)[key] == map[key],
    decreases n,
{
    if n > 0 {
        lemma_placed(map, at, embeddings, (n - 1) as nat, key);
    }
}

proof fn lemma_slot_holds<T>(
    prompt: Seq<i32>,
    plans: Seq<MediaSpanPlan>,
    images: Seq<MediaEmbeddingSequence<T>>,
    audios: Seq<MediaEmbeddingSequence<T>>,
    i: int,
    j: int,
    k: nat,
)
    requires
        k <= plans.len(),
        plans_ordered(plans, prompt.len() as int, counts(images), counts(audios)),
        expanded_len(prompt.len() as int, plans, plans.len()) is Ok,
        0 <= i < k,
        0 <= j < plans[i].embedding_tokens,
        forall|m: int|
            0 <= m < images.len() ==> (#[trigger] images[m]).tokens@.len() <= usize::MAX,
        forall|m: int|
            0 <= m < audios.len() ==> (#[trigger] audios[m]).tokens@.len() <= usize::MAX,
    ensures
        ({
            let key = first_slot(prompt, plans, i) + j;
            let held = expanded_embeddings(prompt, plans, images, audios, k);
            &&& 0 <= key < expanded_tokens(prompt, plans, k).len()
            &&& key <= usize::MAX
            &&& held.dom().contains(key as usize)
            &&& held[key as usize] == contents(medium(plans[i], images, audios))[j]
        }),
    decreases k,
{
    let ci = counts(images);
    let ca = counts(audios);
    let last = plans[k - 1];
    assert(plan_valid(last, prompt.len() as int, ci, ca));
    lemma_expanded_len(prompt, plans, ci, ca, (k - 1) as nat, plans.len());
    lemma_expanded_len(prompt, plans, ci, ca, k, plans.len());
    assert(replacement(prompt, last).len() == replacement_len(last));
    let embeddings = contents(medium(last, images, audios));
    assert(embeddings.len() == last.embedding_tokens);
    let at = first_slot(prompt, plans, k - 1);
    let key = first_slot(prompt, plans, i) + j;
    if i < k - 1 {
        lemma_slot_holds(prompt, plans, images, audios, i, j, (k - 1) as nat);
    }
    lemma_placed(
        expanded_embeddings(prompt, plans, images, audios, (k - 1) as nat),
        at,
        embeddings,
        embeddings.len(),
        key as usize,
    );
}

/// Every embedding of every medium stands at its own slot of the expanded prompt: none is lost
/// and none takes another's place.
pub proof fn every_embedding_is_at_its_slot<T>(
    prompt: EncodedPrompt,
    images: Seq<MediaEmbeddingSequence<T>>,
    audios: Seq<MediaEmbeddingSequence<T>>,
    dim: usize,
    i: int,
    j: int,
)
    requires
        forall|m: int|
            0 <= m < images.len() ==> (#[trigger] images[m]).tokens@.len() <= usize::MAX,
        forall|m: int|
            0 <= m < audios.len() ==> (#[trigger] audios[m]).tokens@.len() <= usize::MAX,
    ensures
        expansion(prompt, images, audios, dim) matches Ok(expanded) ==> ({
            let plans = media_plan(prompt, counts(images), counts(audios))->Ok_0;
            let key = first_slot(prompt.token_ids@, plans, i) + j;
            0 <= i < plans.len() && 0 <= j < plans[i].embedding_tokens ==> {
                &&& 0 <= key < expanded.tokens.len()
                &&& expanded.embeddings.dom().contains(key as usize)
                &&& expanded.embeddings[key as usize] == contents(
                    medium(plans[i], images, audios),
                )[j]
            }
        }),
{
    match expansion(prompt, images, audios, dim) {
        Err(_) => {},
        Ok(expanded) => {
            let plans = media_plan(prompt, counts(images), counts(audios))->Ok_0;
            media_plans_are_ordered(prompt, counts(images), counts(audios));
            if 0 <= i < plans.len() && 0 <= j < plans[i].embedding_tokens {
                lemma_slot_holds(prompt.token_ids@, plans, images, audios, i, j, plans.len());
            }
        },
    }
}

/// Whether every stored embedding stands before a place and has the given dimension.
spec fn held_before<T>(map: Map<usize, Seq<T>>, end: int, dim: usize) -> bool {
    forall|key: usize| #[trigger]
        map.dom().contains(key) ==> key < end && map[key].len() == dim
}

proof fn lemma_placed_count<T>(
    map: Map<usize, Seq<T>>,
    at: int,
    embeddings: Seq<Seq<T>>,
    n: nat,
    dim: usize,
)
    requires
        0 <= at,
        at + n <= usize::MAX,
        n <= embeddings.len(),
        map.dom().finite(),
        held_before(map, at, dim),
        forall|j: int| 0 <= j < n ==> (#[trigger] embeddings[j]).len() == dim,
    ensures
        placed(map, at, embeddings, n).dom().finite(),
        placed(map, at, embeddings, n).dom().len() == map.dom().len() + n,
        held_before(placed(map, at, embeddings, n), at + n, dim),
    decreases n,
{
    if n > 0 {
        lemma_placed_count(map, at, embeddings, (n - 1) as nat, dim);
        let before = placed(map, at, embeddings, (n - 1) as nat);
        let key = (at + n - 1) as usize;
        assert(!before.dom().contains(key));
        assert(embeddings[n - 1].len() == dim);
        assert(placed(map, at, embeddings, n).dom() =~= before.dom().insert(key));
    }
}

proof fn lemma_token_dims<T>(
    kind: MediaKind,
    media_index: usize,
    sequence: MediaEmbeddingSequence<T>,
    wanted: usize,
    n: nat,
)
    requires
        n <= sequence.tokens@.len(),
        token_dim_rejection(kind, media_index, sequence, wanted, n) is None,
    ensures
        forall|j: int| 0 <= j < n ==> (#[trigger] sequence.tokens@[j])@.len() == wanted,
    decreases n,
{
    if n > 0 {
        lemma_token_dims(kind, media_index, sequence, wanted, (n - 1) as nat);
    }
}

proof fn lemma_dims<T>(
    kind: MediaKind,
    sequences: Seq<MediaEmbeddingSequence<T>>,
    wanted: usize,
    n: nat,
    k: int,
)
    requires
        0 <= k < n <= sequences.len(),
        dim_rejection(kind, sequences, wanted, n) is None,
    ensures
        forall|j: int|
            0 <= j < contents(sequences[k]).len() ==> (#[trigger] contents(sequences[k])[j]).len()
                == wanted,
    decreases n,
{
    if k < n - 1 {
        lemma_dims(kind, sequences, wanted, (n - 1) as nat, k);
    } else {
        lemma_token_dims(kind, k as usize, sequences[k], wanted, sequences[k].tokens@.len());
        assert forall|j: int| 0 <= j < contents(sequences[k]).len() implies (
        #[trigger] contents(sequences[k])[j]).len() == wanted by {
            assert(sequences[k].tokens@[j]@.len() == wanted);
        }
    }
}

proof fn lemma_embeddings_count<T>(
    prompt: Seq<i32>,
    plans: Seq<MediaSpanPlan>,
    images: Seq<MediaEmbeddingSequence<T>>,
    audios: Seq<MediaEmbeddingSequence<T>>,
    dim: usize,
    k: nat,
)
    requires
        k <= plans.len(),
        plans_ordered(plans, prompt.len() as int, counts(images), counts(audios)),
        expanded_len(prompt.len() as int, plans, plans.len()) is Ok,
        dim_rejection(MediaKind::Image, images, dim, images.len()) is None,
        dim_rejection(MediaKind::Audio, audios, dim, audios.len()) is None,
        forall|m: int|
            0 <= m < images.len() ==> (#[trigger] images[m]).tokens@.len() <= usize::MAX,
        forall|m: int|
            0 <= m < audios.len() ==> (#[trigger] audios[m]).tokens@.len() <= usize::MAX,
    ensures
        ({
            let held = expanded_embeddings(prompt, plans, images, audios, k);
            &&& held.dom().finite()
            &&& held.dom().len() == planned_embeddings(plans.take(k as int))
            &&& held_before(held, expanded_tokens(prompt, plans, k).len() as int, dim)
        }),
    decreases k,
{
    if k == 0 {
        assert(plans.take(0).len() == 0);
    } else {
        let ci = counts(images);
        let ca = counts(audios);
        let last = plans[k - 1];
        lemma_embeddings_count(prompt, plans, images, audios, dim, (k - 1) as nat);
        assert(plan_valid(last, prompt.len() as int, ci, ca));
        lemma_expanded_len(prompt, plans, ci, ca, (k - 1) as nat, plans.len());
        lemma_expanded_len(prompt, plans, ci, ca, k, plans.len());
        assert(replacement(prompt, last).len() == replacement_len(last));
        let sequence = medium(last, images, audios);
        let embeddings = contents(sequence);
        assert(embeddings.len() == last.embedding_tokens);
        match last.kind {
            MediaKind::Image => lemma_dims(
                MediaKind::Image,
                images,
                dim,
                images.len(),
                last.span.media_index as int,
            ),
            MediaKind::Audio => lemma_dims(
                MediaKind::Audio,
                audios,
                dim,
                audios.len(),
                last.span.media_index as int,
            ),
        }
        lemma_placed_count(
            expanded_embeddings(prompt, plans, images, audios, (k - 1) as nat),
            first_slot(prompt, plans, k - 1),
            embeddings,
            embeddings.len(),
            dim,
        );
        assert(plans.take(k as int).drop_last() =~= plans.take(k - 1));
    }
}

/// An expanded prompt holds slots only: as many embeddings as the media have together, each at a
/// token of the prompt and of the dimension of the model. It has positions exactly where a medium
/// has a grid.
pub proof fn expanded_prompts_hold_all_embeddings<T>(
    prompt: EncodedPrompt,
    images: Seq<MediaEmbeddingSequence<T>>,
    audios: Seq<MediaEmbeddingSequence<T>>,
    dim: usize,
)
    requires
        forall|m: int|
            0 <= m < images.len() ==> (#[trigger] images[m]).tokens@.len() <= usize::MAX,
        forall|m: int|
            0 <= m < audios.len() ==> (#[trigger] audios[m]).tokens@.len() <= usize::MAX,
    ensures
        expansion(prompt, images, audios, dim) matches Ok(expanded) ==> {
            &&& expanded.embeddings.dom().finite()
            &&& expanded.embeddings.dom().len() == token_sum(counts(images)) + token_sum(
                counts(audios),
            )
            &&& forall|key: usize| #[trigger]
                expanded.embeddings.dom().contains(key) ==> key < expanded.tokens.len()
                    && expanded.embeddings[key].len() == dim
            &&& expanded.positions is Some <==> any_grid(images) || any_grid(audios)
        },
{
    match expansion(prompt, images, audios, dim) {
        Err(_) => {},
        Ok(expanded) => {
            let plans = media_plan(prompt, counts(images), counts(audios))->Ok_0;
            media_plans_are_ordered(prompt, counts(images), counts(audios));
            plans_place_all_embeddings(prompt, counts(images), counts(audios));
            lemma_embeddings_count(
                prompt.token_ids@,
                plans,
                images,
                audios,
                dim,
                plans.len(),
            );
            assert(plans.take(plans.len() as int) =~= plans);
            assert(expanded.tokens.len() >= expanded_tokens(
                prompt.token_ids@,
                plans,
                plans.len(),
            ).len());
        },
    }
}

/// How much longer a prompt is after the first `k` media took the places of their spans.
pub open spec fn growth(plans: Seq<MediaSpanPlan>, k: nat) -> int
    decreases k,
{
    if k == 0 {
        0
    } else {
        let plan = plans[k - 1];
        growth(plans, (k - 1) as nat) + plan.embedding_tokens + (if plan.span.replace_marker {
            0int
        } else {
            2int
        }) - plan.span.token_len
    }
}

proof fn lemma_growth(
    prompt: Seq<i32>,
    plans: Seq<MediaSpanPlan>,
    images: Seq<usize>,
    audios: Seq<usize>,
    k: nat,
)
    requires
        k <= plans.len(),
        plans_ordered(plans, prompt.len() as int, images, audios),
    ensures
        expanded_tokens(prompt, plans, k).len() == cursor(plans, k as int) + growth(plans, k),
        0 <= cursor(plans, k as int) <= prompt.len(),
        k < plans.len() ==> cursor(plans, k as int) <= plans[k as int].span.token_start,
    decreases k,
{
    if k > 0 {
        lemma_growth(prompt, plans, images, audios, (k - 1) as nat);
        assert(plan_valid(plans[k - 1], prompt.len() as int, images, audios));
        assert(replacement(prompt, plans[k - 1]).len() == replacement_len(plans[k - 1]));
        if k < plans.len() {
            assert(plans[k - 1].span.token_len >= 0);
            assert(plan_valid(plans[k as int], prompt.len() as int, images, audios));
        }
    }
}

proof fn lemma_tokens_stay(prompt: Seq<i32>, plans: Seq<MediaSpanPlan>, k: nat, n: nat, x: int)
    requires
        k <= n,
        0 <= x < expanded_tokens(prompt, plans, k).len(),
    ensures
        x < expanded_tokens(prompt, plans, n).len(),
        expanded_tokens(prompt, plans, n)[x] == expanded_tokens(prompt, plans, k)[x],
    decreases n,
{
    if k < n {
        lemma_tokens_stay(prompt, plans, k, (n - 1) as nat, x);
    }
}

proof fn lemma_text_stays(
    prompt: Seq<i32>,
    plans: Seq<MediaSpanPlan>,
    images: Seq<usize>,
    audios: Seq<usize>,
    k: nat,
    p: int,
)
    requires
        k <= plans.len(),
        plans_ordered(plans, prompt.len() as int, images, audios),
        cursor(plans, k as int) <= p < prompt.len(),
        k < plans.len() ==> p < plans[k as int].span.token_start,
    ensures
        ({
            let all = expanded_tokens(prompt, plans, plans.len()) + prompt.subrange(
                cursor(plans, plans.len() as int),
                prompt.len() as int,
            );
            let at = p + growth(plans, k);
            0 <= at < all.len() && all[at] == prompt[p]
        }),
{
    let n = plans.len();
    let at = p + growth(plans, k);
    let front = expanded_tokens(prompt, plans, k);
    lemma_growth(prompt, plans, images, audios, k);
    lemma_growth(prompt, plans, images, audios, n);
    assert(front.len() + (p - cursor(plans, k as int)) == at);
    if k < n {
        let gap = prompt.subrange(cursor(plans, k as int), plans[k as int].span.token_start as int);
        let after = expanded_tokens(prompt, plans, k + 1);
        assert(after == front + gap + replacement(prompt, plans[k as int]));
        assert(gap[p - cursor(plans, k as int)] == prompt[p]);
        assert(after[at] == prompt[p]);
        lemma_tokens_stay(prompt, plans, k + 1, n, at);
    }
}

/// The text of a prompt is kept: every token before, between and behind the spans of media stands
/// in the expanded prompt, moved by as much as the media before it have made the prompt longer.
pub proof fn expanded_prompts_keep_their_text<T>(
    prompt: EncodedPrompt,
    images: Seq<MediaEmbeddingSequence<T>>,
    audios: Seq<MediaEmbeddingSequence<T>>,
    dim: usize,
    k: nat,
    p: int,
)
    ensures
        expansion(prompt, images, audios, dim) matches Ok(expanded) ==> ({
            let plans = media_plan(prompt, counts(images), counts(audios))->Ok_0;
            &&& k <= plans.len()
            &&& 0 <= p < prompt.token_ids@.len()
            &&& k > 0 ==> plans[k - 1].span.token_start + plans[k - 1].span.token_len <= p
            &&& k < plans.len() ==> p < plans[k as int].span.token_start
        } ==> {
            let plans = media_plan(prompt, counts(images), counts(audios))->Ok_0;
            let at = p + growth(plans, k);
            0 <= at < expanded.tokens.len() && expanded.tokens[at] == prompt.token_ids@[p]
        }),
{
    match expansion(prompt, images, audios, dim) {
        Err(_) => {},
        Ok(expanded) => {
            let plans = media_plan(prompt, counts(images), counts(audios))->Ok_0;
            let tokens = prompt.token_ids@;
            let n = plans.len();
            media_plans_are_ordered(prompt, counts(images), counts(audios));
            if k <= n && 0 <= p < tokens.len() && (k > 0 ==> span_end(plans[k - 1].span) <= p) && (k
                < n ==> p < plans[k as int].span.token_start) {
                lemma_text_stays(tokens, plans, counts(images), counts(audios), k, p);
            }
        },
    }
}

/// A medium takes the place of its span: each of its embeddings has a slot there, one after the
/// other, marked by the placeholder of the span; where the markers stay, the first and the last
/// token of the span stand around the slots.
pub proof fn media_take_the_places_of_their_spans<T>(
    prompt: EncodedPrompt,
    images: Seq<MediaEmbeddingSequence<T>>,
    audios: Seq<MediaEmbeddingSequence<T>>,
    dim: usize,
    k: nat,
    j: int,
)
    requires
        forall|m: int|
            0 <= m < images.len() ==> (#[trigger] images[m]).tokens@.len() <= usize::MAX,
        forall|m: int|
            0 <= m < audios.len() ==> (#[trigger] audios[m]).tokens@.len() <= usize::MAX,
    ensures
        expansion(prompt, images, audios, dim) matches Ok(expanded) ==> ({
            let plans = media_plan(prompt, counts(images), counts(audios))->Ok_0;
            let span = plans[k as int].span;
            let start = span.token_start + growth(plans, k);
            let first = if span.replace_marker {
                start
            } else {
                start + 1
            };
            k < plans.len() && 0 <= j < plans[k as int].embedding_tokens ==> {
                &&& 0 <= start
                &&& first + j < expanded.tokens.len()
                &&& expanded.tokens[first + j] == prompt.token_ids@[span.token_start + (
                if !span.replace_marker && span.token_len >= 3 {
                    1int
                } else {
                    0int
                })]
                &&& expanded.embeddings.dom().contains((first + j) as usize)
                &&& expanded.embeddings[(first + j) as usize] == match plans[k as int].kind {
                    MediaKind::Image => images[span.media_index as int].tokens@[j]@,
                    MediaKind::Audio => audios[span.media_index as int].tokens@[j]@,
                }
                &&& !span.replace_marker ==> {
                    &&& first + plans[k as int].embedding_tokens < expanded.tokens.len()
                    &&& expanded.tokens[start] == prompt.token_ids@[span.token_start as int]
                    &&& expanded.tokens[first + plans[k as int].embedding_tokens]
                        == prompt.token_ids@[span.token_start + span.token_len - 1]
                }
            }
        }),
{
    match expansion(prompt, images, audios, dim) {
        Err(_) => {},
        Ok(expanded) => {
            let plans = media_plan(prompt, counts(images), counts(audios))->Ok_0;
            let tokens = prompt.token_ids@;
            let n = plans.len();
            media_plans_are_ordered(prompt, counts(images), counts(audios));
            if k < n && 0 <= j < plans[k as int].embedding_tokens {
                let plan = plans[k as int];
                assert(plan_valid(plan, tokens.len() as int, counts(images), counts(audios)));
                every_embedding_is_at_its_slot(prompt, images, audios, dim, k as int, j);
                lemma_growth(tokens, plans, counts(images), counts(audios), k);
                lemma_growth(tokens, plans, counts(images), counts(audios), k + 1);
                let start = plan.span.token_start + growth(plans, k);
                let first = first_slot(tokens, plans, k as int);
                let front = expanded_tokens(tokens, plans, k) + tokens.subrange(
                    cursor(plans, k as int),
                    plan.span.token_start as int,
                );
                let after = expanded_tokens(tokens, plans, k + 1);
                let new = replacement(tokens, plan);
                assert(after == front + new);
                assert(front.len() == start);
                assert(after[first + j] == new[first + j - start]);
                lemma_tokens_stay(tokens, plans, k + 1, n, first + j);
                if !plan.span.replace_marker {
                    assert(after[start] == new[0]);
                    assert(after[first + plan.embedding_tokens] == new[1 + plan.embedding_tokens]);
                    lemma_tokens_stay(tokens, plans, k + 1, n, start);
                    lemma_tokens_stay(
                        tokens,
                        plans,
                        k + 1,
                        n,
                        first + plan.embedding_tokens,
                    );
                }
            }
        },
    }
}

/// The position at which the text behind the first `k` media goes on: text moves it by its length,
/// a grid by the longest of its sides.
pub open spec fn next_position<T>(
    plans: Seq<MediaSpanPlan>,
    images: Seq<MediaEmbeddingSequence<T>>,
    audios: Seq<MediaEmbeddingSequence<T>>,
    k: nat,
) -> int
    decreases k,
{
    if k == 0 {
        0
    } else {
        let plan = plans[k - 1];
        let sequence = medium(plan, images, audios);
        let from = if k == 1 {
            0int
        } else {
            plans[k - 2].span.token_start + plans[k - 2].span.token_len
        };
        next_position(plans, images, audios, (k - 1) as nat) + (plan.span.token_start - from) + (
        if plan.span.replace_marker {
            0int
        } else {
            2int
        }) + match sequence.grid {
            Some(grid) => largest(grid@[0] as int, grid@[1] as int, grid@[2] as int),
            None => sequence.tokens@.len() as int,
        }
    }
}

/// The position of embedding `j` of a medium whose first position is `base`.
spec fn slot_triple<T>(sequence: MediaEmbeddingSequence<T>, base: int, j: int) -> (int, int, int) {
    match sequence.grid {
        Some(grid) => grid_triples(
            base,
            grid@[0] as nat,
            grid@[1] as nat,
            grid@[2] as nat,
        )[j],
        None => (base + j, base + j, base + j),
    }
}

proof fn lemma_medium_at<T>(
    p: Positions,
    gap: int,
    replace_marker: bool,
    sequence: MediaEmbeddingSequence<T>,
)
    requires
        gap >= 0,
        p.next >= 0,
        sequence.tokens@.len() <= usize::MAX,
        with_medium(Ok(p), gap, replace_marker, sequence) is Ok,
    ensures
        ({
            let q = with_medium(Ok(p), gap, replace_marker, sequence)->Ok_0;
            let old_len = p.triples.len() as int;
            let mark = if replace_marker {
                0int
            } else {
                1int
            };
            let base = p.next + gap + mark;
            let count = sequence.tokens@.len() as int;
            &&& q.triples.len() == old_len + gap + count + 2 * mark
            &&& forall|x: int| 0 <= x < old_len ==> #[trigger] q.triples[x] == p.triples[x]
            &&& forall|x: int|
                old_len <= x < old_len + gap ==> #[trigger] q.triples[x] == (
                    p.next + (x - old_len),
                    p.next + (x - old_len),
                    p.next + (x - old_len),
                )
            &&& forall|x: int|
                old_len + gap + mark <= x < old_len + gap + mark + count
                    ==> #[trigger] q.triples[x] == slot_triple(
                    sequence,
                    base,
                    x - (old_len + gap + mark),
                )
            &&& q.next == base + mark + match sequence.grid {
                Some(grid) => largest(grid@[0] as int, grid@[1] as int, grid@[2] as int),
                None => count,
            }
        }),
{
    let before = with_text(Ok(p), gap);
    let marked = if replace_marker {
        before
    } else {
        with_text(before, 1)
    };
    assert(marked is Ok);
    match sequence.grid {
        Some(grid) => {
            let (t, h, w) = triple(grid);
            assert(with_grid(marked, triple(grid), sequence.tokens@.len() as int) is Ok);
            assert((t as nat) * (h as nat) * (w as nat) == t * h * w);
        },
        None => {},
    }
}

proof fn lemma_positions_at<T>(
    prompt: Seq<i32>,
    plans: Seq<MediaSpanPlan>,
    images: Seq<MediaEmbeddingSequence<T>>,
    audios: Seq<MediaEmbeddingSequence<T>>,
    k: nat,
    n: nat,
)
    requires
        k <= n <= plans.len(),
        plans_ordered(plans, prompt.len() as int, counts(images), counts(audios)),
        expanded_positions(plans, images, audios, n) is Ok,
        forall|i: int|
            0 <= i < images.len() ==> (#[trigger] images[i]).tokens@.len() <= usize::MAX,
        forall|i: int|
            0 <= i < audios.len() ==> (#[trigger] audios[i]).tokens@.len() <= usize::MAX,
    ensures
        expanded_positions(plans, images, audios, k) is Ok,
        ({
            let p = expanded_positions(plans, images, audios, k)->Ok_0;
            let q = expanded_positions(plans, images, audios, n)->Ok_0;
            &&& p.next == next_position(plans, images, audios, k)
            &&& 0 <= p.next
            &&& p.triples.len() == cursor(plans, k as int) + growth(plans, k)
            &&& p.triples.len() <= q.triples.len()
            &&& forall|x: int|
                0 <= x < p.triples.len() ==> #[trigger] q.triples[x] == p.triples[x]
        }),
    decreases n, k,
{
    if k < n {
        assert(expanded_positions(plans, images, audios, (n - 1) as nat) is Ok);
        lemma_positions_at(prompt, plans, images, audios, k, (n - 1) as nat);
        lemma_positions_at(prompt, plans, images, audios, (n - 1) as nat, (n - 1) as nat);
        lemma_growth(prompt, plans, counts(images), counts(audios), (n - 1) as nat);
        let plan = plans[n - 1];
        assert(plan_valid(plan, prompt.len() as int, counts(images), counts(audios)));
        lemma_medium_at(
            expanded_positions(plans, images, audios, (n - 1) as nat)->Ok_0,
            plan.span.token_start - cursor(plans, n - 1),
            plan.span.replace_marker,
            medium(plan, images, audios),
        );
    } else if k > 0 {
        assert(expanded_positions(plans, images, audios, (k - 1) as nat) is Ok);
        lemma_positions_at(prompt, plans, images, audios, (k - 1) as nat, (k - 1) as nat);
        lemma_growth(prompt, plans, counts(images), counts(audios), (k - 1) as nat);
        let plan = plans[k - 1];
        assert(plan_valid(plan, prompt.len() as int, counts(images), counts(audios)));
        lemma_medium_at(
            expanded_positions(plans, images, audios, (k - 1) as nat)->Ok_0,
            plan.span.token_start - cursor(plans, k - 1),
            plan.span.replace_marker,
            medium(plan, images, audios),
        );
    }
}

proof fn lemma_text_position<T>(
    prompt: Seq<i32>,
    plans: Seq<MediaSpanPlan>,
    images: Seq<MediaEmbeddingSequence<T>>,
    audios: Seq<MediaEmbeddingSequence<T>>,
    k: nat,
    p: int,
)
    requires
        k < plans.len(),
        plans_ordered(plans, prompt.len() as int, counts(images), counts(audios)),
        expanded_positions(plans, images, audios, plans.len()) is Ok,
        forall|i: int|
            0 <= i < images.len() ==> (#[trigger] images[i]).tokens@.len() <= usize::MAX,
        forall|i: int|
            0 <= i < audios.len() ==> (#[trigger] audios[i]).tokens@.len() <= usize::MAX,
        cursor(plans, k as int) <= p < plans[k as int].span.token_start,
    ensures
        ({
            let q = next_position(plans, images, audios, k) + (p - cursor(plans, k as int));
            let at = p + growth(plans, k);
            let triples = expanded_positions(plans, images, audios, plans.len())->Ok_0.triples;
            0 <= at < triples.len() && triples[at] == (q, q, q)
        }),
{
    let plan = plans[k as int];
    assert(plan_valid(plan, prompt.len() as int, counts(images), counts(audios)));
    lemma_positions_at(prompt, plans, images, audios, k, plans.len());
    lemma_positions_at(prompt, plans, images, audios, k + 1, plans.len());
    lemma_growth(prompt, plans, counts(images), counts(audios), k);
    let here = expanded_positions(plans, images, audios, k)->Ok_0;
    let gap = plan.span.token_start - cursor(plans, k as int);
    lemma_medium_at(here, gap, plan.span.replace_marker, medium(plan, images, audios));
    let next = expanded_positions(plans, images, audios, k + 1)->Ok_0;
    let x = p + growth(plans, k);
    assert(here.triples.len() <= x < here.triples.len() + gap);
    let there = next.triples[x];
}

proof fn lemma_slot_position<T>(
    prompt: Seq<i32>,
    plans: Seq<MediaSpanPlan>,
    images: Seq<MediaEmbeddingSequence<T>>,
    audios: Seq<MediaEmbeddingSequence<T>>,
    k: nat,
    j: int,
)
    requires
        k < plans.len(),
        plans_ordered(plans, prompt.len() as int, counts(images), counts(audios)),
        expanded_positions(plans, images, audios, plans.len()) is Ok,
        forall|i: int|
            0 <= i < images.len() ==> (#[trigger] images[i]).tokens@.len() <= usize::MAX,
        forall|i: int|
            0 <= i < audios.len() ==> (#[trigger] audios[i]).tokens@.len() <= usize::MAX,
        0 <= j < plans[k as int].embedding_tokens,
    ensures
        ({
            let span = plans[k as int].span;
            let mark = if span.replace_marker {
                0int
            } else {
                1int
            };
            let base = next_position(plans, images, audios, k) + (span.token_start - cursor(
                plans,
                k as int,
            )) + mark;
            let at = span.token_start + growth(plans, k) + mark + j;
            let triples = expanded_positions(plans, images, audios, plans.len())->Ok_0.triples;
            &&& 0 <= at < triples.len()
            &&& triples[at] == slot_triple(medium(plans[k as int], images, audios), base, j)
        }),
{
    let plan = plans[k as int];
    let sequence = medium(plan, images, audios);
    assert(plan_valid(plan, prompt.len() as int, counts(images), counts(audios)));
    assert(sequence.tokens@.len() == plan.embedding_tokens);
    lemma_positions_at(prompt, plans, images, audios, k, plans.len());
    lemma_positions_at(prompt, plans, images, audios, k + 1, plans.len());
    lemma_growth(prompt, plans, counts(images), counts(audios), k);
    let here = expanded_positions(plans, images, audios, k)->Ok_0;
    let gap = plan.span.token_start - cursor(plans, k as int);
    let mark = if plan.span.replace_marker {
        0int
    } else {
        1int
    };
    lemma_medium_at(here, gap, plan.span.replace_marker, sequence);
    let next = expanded_positions(plans, images, audios, k + 1)->Ok_0;
    let x = here.triples.len() + gap + mark + j;
    assert(x == plan.span.token_start + growth(plans, k) + mark + j);
    let there = next.triples[x];
}

proof fn lemma_slot_triple<T>(
    p: Positions,
    gap: int,
    replace_marker: bool,
    sequence: MediaEmbeddingSequence<T>,
    base: int,
    j: int,
)
    requires
        with_medium(Ok(p), gap, replace_marker, sequence) is Ok,
        0 <= j < sequence.tokens@.len() <= usize::MAX,
    ensures
        slot_triple(sequence, base, j) == match sequence.grid {
            Some(grid) => (
                base + j / (grid@[2] as int * grid@[1] as int),
                base + (j / grid@[2] as int) % (grid@[1] as int),
                base + j % (grid@[2] as int),
            ),
            None => (base + j, base + j, base + j),
        },
{
    lemma_grid_count(p, gap, replace_marker, sequence);
}

proof fn lemma_grid_count<T>(
    p: Positions,
    gap: int,
    replace_marker: bool,
    sequence: MediaEmbeddingSequence<T>,
)
    requires
        with_medium(Ok(p), gap, replace_marker, sequence) is Ok,
        sequence.tokens@.len() <= usize::MAX,
    ensures
        sequence.grid matches Some(grid) ==> (grid@[0] as nat) * (grid@[1] as nat) * (
        grid@[2] as nat) == sequence.tokens@.len(),
{
    match sequence.grid {
        Some(grid) => {
            let before = with_text(Ok(p), gap);
            let marked = if replace_marker {
                before
            } else {
                with_text(before, 1)
            };
            assert(with_grid(marked, triple(grid), sequence.tokens@.len() as int) is Ok);
        },
        None => {},
    }
}

/// Where positions are planned, text goes on one by one: a token between two media, or behind the
/// last, is as far from where the medium before it left off as it is from its end.
pub proof fn text_positions_go_on<T>(
    prompt: EncodedPrompt,
    images: Seq<MediaEmbeddingSequence<T>>,
    audios: Seq<MediaEmbeddingSequence<T>>,
    dim: usize,
    k: nat,
    p: int,
)
    requires
        forall|i: int|
            0 <= i < images.len() ==> (#[trigger] images[i]).tokens@.len() <= usize::MAX,
        forall|i: int|
            0 <= i < audios.len() ==> (#[trigger] audios[i]).tokens@.len() <= usize::MAX,
    ensures
        expansion(prompt, images, audios, dim) matches Ok(expanded) ==> (
        expanded.positions matches Some(positions) ==> ({
            let plans = media_plan(prompt, counts(images), counts(audios))->Ok_0;
            let from = if k == 0 {
                0int
            } else {
                plans[k - 1].span.token_start + plans[k - 1].span.token_len
            };
            let q = next_position(plans, images, audios, k) + (p - from);
            k <= plans.len() && from <= p < prompt.token_ids@.len() && (k < plans.len() ==> p
                < plans[k as int].span.token_start) ==> positions.triples[p + growth(plans, k)]
                == (q, q, q)
        })),
{
    match expansion(prompt, images, audios, dim) {
        Err(_) => {},
        Ok(expanded) => {
            let plans = media_plan(prompt, counts(images), counts(audios))->Ok_0;
            let tokens = prompt.token_ids@;
            let n = plans.len();
            media_plans_are_ordered(prompt, counts(images), counts(audios));
            if expanded.positions is Some && k <= n {
                let positions = expanded.positions->0;
                assert(expanded_positions(plans, images, audios, n) is Ok);
                let at_end = expanded_positions(plans, images, audios, n)->Ok_0;
                lemma_positions_at(tokens, plans, images, audios, n, n);
                lemma_growth(tokens, plans, counts(images), counts(audios), n);
                if k < n && cursor(plans, k as int) <= p < plans[k as int].span.token_start {
                    lemma_text_position(tokens, plans, images, audios, k, p);
                    assert(positions.triples[p + growth(plans, k)] == at_end.triples[p + growth(
                        plans,
                        k,
                    )]);
                }
            }
        },
    }
}

/// Where positions are planned, the embeddings of a grid are at their frame, row and column from
/// the position that the text before them has reached; those of a medium without a grid go on
/// like text.
pub proof fn grids_are_placed_behind_their_text<T>(
    prompt: EncodedPrompt,
    images: Seq<MediaEmbeddingSequence<T>>,
    audios: Seq<MediaEmbeddingSequence<T>>,
    dim: usize,
    k: nat,
    j: int,
)
    requires
        forall|i: int|
            0 <= i < images.len() ==> (#[trigger] images[i]).tokens@.len() <= usize::MAX,
        forall|i: int|
            0 <= i < audios.len() ==> (#[trigger] audios[i]).tokens@.len() <= usize::MAX,
    ensures
        expansion(prompt, images, audios, dim) matches Ok(expanded) ==> (
        expanded.positions matches Some(positions) ==> ({
            let plans = media_plan(prompt, counts(images), counts(audios))->Ok_0;
            let from = if k == 0 {
                0int
            } else {
                plans[k - 1].span.token_start + plans[k - 1].span.token_len
            };
            let span = plans[k as int].span;
            let mark = if span.replace_marker {
                0int
            } else {
                1int
            };
            let base = next_position(plans, images, audios, k) + (span.token_start - from) + mark;
            let sequence = match plans[k as int].kind {
                MediaKind::Image => images[span.media_index as int],
                MediaKind::Audio => audios[span.media_index as int],
            };
            k < plans.len() && 0 <= j < plans[k as int].embedding_tokens
                ==> positions.triples[span.token_start + growth(plans, k) + mark + j]
                == match sequence.grid {
                Some(grid) => (
                    base + j / (grid@[2] as int * grid@[1] as int),
                    base + (j / grid@[2] as int) % (grid@[1] as int),
                    base + j % (grid@[2] as int),
                ),
                None => (base + j, base + j, base + j),
            }
        })),
{
    match expansion(prompt, images, audios, dim) {
        Err(_) => {},
        Ok(expanded) => {
            let plans = media_plan(prompt, counts(images), counts(audios))->Ok_0;
            let tokens = prompt.token_ids@;
            let n = plans.len();
            media_plans_are_ordered(prompt, counts(images), counts(audios));
            if expanded.positions is Some && k < n && 0 <= j < plans[k as int].embedding_tokens {
                let positions = expanded.positions->0;
                assert(expanded_positions(plans, images, audios, n) is Ok);
                let at_end = expanded_positions(plans, images, audios, n)->Ok_0;
                lemma_slot_position(tokens, plans, images, audios, k, j);
                lemma_positions_at(tokens, plans, images, audios, k + 1, n);
                let plan = plans[k as int];
                assert(plan_valid(plan, tokens.len() as int, counts(images), counts(audios)));
                let from = cursor(plans, k as int);
                lemma_slot_triple(
                    expanded_positions(plans, images, audios, k)->Ok_0,
                    plan.span.token_start - from,
                    plan.span.replace_marker,
                    medium(plan, images, audios),
                    next_position(plans, images, audios, k) + (plan.span.token_start - from)
                        + if plan.span.replace_marker {
                        0int
                    } else {
                        1int
                    },
                    j,
                );
                let mark = if plans[k as int].span.replace_marker {
                    0int
                } else {
                    1int
                };
                let at = plans[k as int].span.token_start + growth(plans, k) + mark + j;
                assert(positions.triples[at] == at_end.triples[at]);
            }
        },
    }
}

proof fn lemma_accepted_token_dims<T>(
    kind: MediaKind,
    media_index: usize,
    sequence: MediaEmbeddingSequence<T>,
    wanted: usize,
    j: nat,
)
    requires
        j <= sequence.tokens@.len(),
    ensures
        token_dim_rejection(kind, media_index, sequence, wanted, j) is None <==> forall|t: int|
            0 <= t < j ==> (#[trigger] sequence.tokens@[t])@.len() == wanted,
    decreases j,
{
    if j > 0 {
        lemma_accepted_token_dims(kind, media_index, sequence, wanted, (j - 1) as nat);
        assert(sequence.tokens@[j - 1]@.len() == sequence.tokens@[j - 1]@.len());
    }
}

/// Embeddings are accepted exactly where each of every medium has the dimension of the model.
pub proof fn embeddings_are_accepted_in_one_dimension<T>(
    kind: MediaKind,
    sequences: Seq<MediaEmbeddingSequence<T>>,
    wanted: usize,
    k: nat,
)
    requires
        k <= sequences.len(),
    ensures
        dim_rejection(kind, sequences, wanted, k) is None <==> forall|m: int, t: int|
            0 <= m < k && 0 <= t < sequences[m].tokens@.len()
                ==> (#[trigger] sequences[m].tokens@[t])@.len() == wanted,
    decreases k,
{
    if k > 0 {
        embeddings_are_accepted_in_one_dimension(kind, sequences, wanted, (k - 1) as nat);
        let last = sequences[k - 1];
        lemma_accepted_token_dims(kind, (k - 1) as usize, last, wanted, last.tokens@.len());
        if dim_rejection(kind, sequences, wanted, k) is None {
            assert forall|m: int, t: int| 0 <= m < k && 0 <= t
                < sequences[m].tokens@.len() implies (#[trigger] sequences[m].tokens@[t])@.len()
                == wanted by {
                if m == k - 1 {
                    assert(last.tokens@[t]@.len() == wanted);
                }
            }
        } else if dim_rejection(kind, sequences, wanted, (k - 1) as nat) is None {
            let t = choose|t: int|
                0 <= t < last.tokens@.len() && (#[trigger] last.tokens@[t])@.len() != wanted;
            assert(sequences[k - 1].tokens@[t]@.len() != wanted);
        } else {
            let (m, t) = choose|m: int, t: int|
                0 <= m < k - 1 && 0 <= t < sequences[m].tokens@.len()
                    && (#[trigger] sequences[m].tokens@[t])@.len() != wanted;
            assert(sequences[m].tokens@[t]@.len() != wanted);
        }
    }
}

} // verus!
