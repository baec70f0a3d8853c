//! Planning how the media placeholders of a prompt grow into embedding slots.
use crate::positions::PositionError;
use crate::text::{decimal, Text};
use vstd::prelude::*;
use vstd::set_lib::{lemma_int_range, lemma_subset_equality, set_int_range};

verus! {

/// A run of prompt tokens that stands for one medium.
#[derive(Clone, Copy, Debug, PartialEq, Eq, Structural)]
pub struct PlaceholderSpan {
    pub token_start: usize,
    pub token_len: usize,
    pub media_index: usize,
    /// Whether the embeddings take the place of the marker tokens too.
    pub replace_marker: bool,
}

/// A prompt with its placeholders.
#[derive(Debug)]
pub struct EncodedPrompt {
    pub token_ids: Vec<i32>,
    pub image_spans: Vec<PlaceholderSpan>,
    pub video_spans: Vec<PlaceholderSpan>,
    pub audio_spans: Vec<PlaceholderSpan>,
}

/// The kind of a medium.
#[derive(Clone, Copy, Debug, PartialEq, Eq, Structural)]
pub enum MediaKind {
    Image,
    Audio,
}

impl MediaKind {
    /// The name of the kind.
    pub open spec fn name(self) -> Seq<char> {
        match self {
            MediaKind::Image => "image"@,
            MediaKind::Audio => "audio"@,
        }
    }

    /// The name of the kind.
    pub fn label(self) -> (label: &'static str)
        ensures
            label@ == self.name(),
    {
        match self {
            MediaKind::Image => "image",
            MediaKind::Audio => "audio",
        }
    }
}

/// A placeholder with the number of embeddings that take its place.
#[derive(Clone, Copy, Debug, PartialEq, Eq, Structural)]
pub struct MediaSpanPlan {
    pub kind: MediaKind,
    pub span: PlaceholderSpan,
    pub embedding_tokens: usize,
}

/// Why media cannot be put into a prompt.
#[derive(Clone, Copy, Debug, PartialEq, Eq, Structural)]
pub enum InjectionError {
    GroupCount { kind: MediaKind, spans: usize, groups: usize },
    SpanTooShort { kind: MediaKind, media_index: usize, token_len: usize, minimum: usize },
    SpanOverflow(MediaKind),
    SpanOutOfPrompt { kind: MediaKind, media_index: usize },
    SpanOrder { kind: MediaKind, media_index: usize },
    MissingMedia { kind: MediaKind, media_index: usize },
    DuplicateSpan { kind: MediaKind, media_index: usize },
    EmptySequence { kind: MediaKind, media_index: usize },
    VideoUnsupported,
    PlaceholderCountOverflow,
    SpanOverlap { kind: MediaKind, media_index: usize },
    EmbeddingCountOverflow,
    ExpandedCountOverflow,
    ContextOverflow,
    ContextExceeded { expanded: usize, reserve: usize, limit: usize },
    EmbeddingDim { kind: MediaKind, media_index: usize, token: usize, got: usize, wanted: usize },
    Position(PositionError),
}

impl InjectionError {
    /// The message text of the error.
    pub open spec fn text(self) -> Seq<char> {
        match self {
            InjectionError::GroupCount { kind, spans, groups } => kind.name()
                + " embedding expansion mismatch: "@ + decimal(spans as nat) + " prompt "@
                + kind.name() + " span(s) but "@ + decimal(groups as nat)
                + " embedding group(s)"@,
            InjectionError::SpanTooShort { kind, media_index, token_len, minimum } => kind.name()
                + " placeholder span["@ + decimal(media_index as nat)
                + "] is too short: token_len="@ + decimal(token_len as nat)
                + " (expected at least "@ + decimal(minimum as nat) + ")"@,
            InjectionError::SpanOverflow(kind) => kind.name()
                + " placeholder span range overflow"@,
            InjectionError::SpanOutOfPrompt { kind, media_index } => kind.name()
                + " placeholder span["@ + decimal(media_index as nat)
                + "] exceeds prompt token range"@,
            InjectionError::SpanOrder { kind, media_index } => kind.name()
                + " placeholder spans overlap or are out of order around media index "@ + decimal(
                media_index as nat,
            ),
            InjectionError::MissingMedia { kind, media_index } => kind.name()
                + " placeholder span references missing media index "@ + decimal(
                media_index as nat,
            ),
            InjectionError::DuplicateSpan { kind, media_index } => "duplicate "@ + kind.name()
                + " placeholder span for media index "@ + decimal(media_index as nat),
            InjectionError::EmptySequence { kind, media_index } => kind.name()
                + " embedding sequence["@ + decimal(media_index as nat)
                + "] is empty; at least one embedding token is required"@,
            InjectionError::VideoUnsupported =>
                "ordered media embedding expansion does not support video spans yet"@,
            InjectionError::PlaceholderCountOverflow => "media placeholder count overflow"@,
            InjectionError::SpanOverlap { kind, media_index } => kind.name()
                + " placeholder span["@ + decimal(media_index as nat)
                + "] overlaps another media span"@,
            InjectionError::EmbeddingCountOverflow => "media embedding token count overflow"@,
            InjectionError::ExpandedCountOverflow =>
                "expanded media prompt token count overflow"@,
            InjectionError::ContextOverflow => "media prompt context requirement overflow"@,
            InjectionError::ContextExceeded { expanded, reserve, limit } =>
                "expanded media prompt requires "@ + decimal(expanded as nat)
                    + " prefill token(s) plus "@ + decimal(reserve as nat)
                    + " reserved decode token(s), exceeding context limit "@ + decimal(
                    limit as nat,
                ),
            InjectionError::EmbeddingDim { kind, media_index, token, got, wanted } => kind.name()
                + " embedding dim mismatch for "@ + kind.name() + " "@ + decimal(
                media_index as nat,
            ) + " token "@ + decimal(token as nat) + ": got "@ + decimal(got as nat)
                + ", expected "@ + decimal(wanted as nat),
            InjectionError::Position(error) => error.text(),
        }
    }

    /// The message text of the error.
    pub fn message(self) -> (message: String)
        ensures
            message@ == self.text(),
    {
        match self {
            InjectionError::GroupCount { kind, spans, groups } => Text::start(kind.label()).text(
                " embedding expansion mismatch: ",
            ).size(spans).text(" prompt ").text(kind.label()).text(" span(s) but ").size(
                groups,
            ).text(" embedding group(s)").finish(),
            InjectionError::SpanTooShort { kind, media_index, token_len, minimum } => Text::start(
                kind.label(),
            ).text(" placeholder span[").size(media_index).text("] is too short: token_len=").size(
                token_len,
            ).text(" (expected at least ").size(minimum).text(")").finish(),
            InjectionError::SpanOverflow(kind) => Text::start(kind.label()).text(
                " placeholder span range overflow",
            ).finish(),
            InjectionError::SpanOutOfPrompt { kind, media_index } => Text::start(
                kind.label(),
            ).text(" placeholder span[").size(media_index).text(
                "] exceeds prompt token range",
            ).finish(),
            InjectionError::SpanOrder { kind, media_index } => Text::start(kind.label()).text(
                " placeholder spans overlap or are out of order around media index ",
            ).size(media_index).finish(),
            InjectionError::MissingMedia { kind, media_index } => Text::start(kind.label()).text(
                " placeholder span references missing media index ",
            ).size(media_index).finish(),
            InjectionError::DuplicateSpan { kind, media_index } => Text::start(
                "duplicate ",
            ).text(kind.label()).text(" placeholder span for media index ").size(
                media_index,
            ).finish(),
            InjectionError::EmptySequence { kind, media_index } => Text::start(
                kind.label(),
            ).text(" embedding sequence[").size(media_index).text(
                "] is empty; at least one embedding token is required",
            ).finish(),
            InjectionError::VideoUnsupported => Text::start(
                "ordered media embedding expansion does not support video spans yet",
            ).finish(),
            InjectionError::PlaceholderCountOverflow => Text::start(
                "media placeholder count overflow",
            ).finish(),
            InjectionError::SpanOverlap { kind, media_index } => Text::start(kind.label()).text(
                " placeholder span[",
            ).size(media_index).text("] overlaps another media span").finish(),
            InjectionError::EmbeddingCountOverflow => Text::start(
                "media embedding token count overflow",
            ).finish(),
            InjectionError::ExpandedCountOverflow => Text::start(
                "expanded media prompt token count overflow",
            ).finish(),
            InjectionError::ContextOverflow => Text::start(
                "media prompt context requirement overflow",
            ).finish(),
            InjectionError::ContextExceeded { expanded, reserve, limit } => Text::start(
                "expanded media prompt requires ",
            ).size(expanded).text(" prefill token(s) plus ").size(reserve).text(
                " reserved decode token(s), exceeding context limit ",
            ).size(limit).finish(),
            InjectionError::EmbeddingDim { kind, media_index, token, got, wanted } => Text::start(
                kind.label(),
            ).text(" embedding dim mismatch for ").text(kind.label()).text(" ").size(
                media_index,
            ).text(" token ").size(token).text(": got ").size(got).text(", expected ").size(
                wanted,
            ).finish(),
            InjectionError::Position(error) => error.message(),
        }
    }
}

/// The end of a span.
pub open spec fn span_end(span: PlaceholderSpan) -> int {
    span.token_start + span.token_len
}

/// The end of the span before span `k`.
pub open spec fn span_end_before(spans: Seq<PlaceholderSpan>, k: int) -> int {
    if k <= 0 {
        0
    } else {
        span_end(spans[k - 1])
    }
}

/// The fewest tokens of a span.
pub open spec fn minimum_len(span: PlaceholderSpan) -> usize {
    if span.replace_marker {
        1
    } else {
        2
    }
}

/// What is wrong with the first of the first `k` spans where anything is.
pub open spec fn spans_rejection(
    kind: MediaKind,
    spans: Seq<PlaceholderSpan>,
    counts: Seq<usize>,
    prompt_len: int,
    k: nat,
) -> Option<InjectionError>
    decreases k,
{
    if k == 0 {
        None
    } else {
        match spans_rejection(kind, spans, counts, prompt_len, (k - 1) as nat) {
            Some(error) => Some(error),
            None => {
                let span = spans[k - 1];
                let media_index = span.media_index;
                if span.token_len < minimum_len(span) {
                    Some(
                        InjectionError::SpanTooShort {
                            kind,
                            media_index,
                            token_len: span.token_len,
                            minimum: minimum_len(span),
                        },
                    )
                } else if span_end(span) > usize::MAX {
                    Some(InjectionError::SpanOverflow(kind))
                } else if span_end(span) > prompt_len {
                    Some(InjectionError::SpanOutOfPrompt { kind, media_index })
                } else if span.token_start < span_end_before(spans, k - 1) {
                    Some(InjectionError::SpanOrder { kind, media_index })
                } else if media_index >= counts.len() {
                    Some(InjectionError::MissingMedia { kind, media_index })
                } else if exists|j: int|
                    0 <= j < k - 1 && (#[trigger] spans[j]).media_index == media_index {
                    Some(InjectionError::DuplicateSpan { kind, media_index })
                } else if counts[media_index as int] == 0 {
                    Some(InjectionError::EmptySequence { kind, media_index })
                } else {
                    None
                }
            },
        }
    }
}

/// What is wrong with the spans of one kind, if anything is.
pub open spec fn modality_rejection(
    kind: MediaKind,
    spans: Seq<PlaceholderSpan>,
    counts: Seq<usize>,
    prompt_len: int,
) -> Option<InjectionError> {
    if spans.len() != counts.len() {
        Some(
            InjectionError::GroupCount {
                kind,
                spans: spans.len() as usize,
                groups: counts.len() as usize,
            },
        )
    } else {
        spans_rejection(kind, spans, counts, prompt_len, spans.len())
    }
}

/// How many of the first `k` spans come before the first that is rejected.
pub open spec fn spans_before_rejection(
    kind: MediaKind,
    spans: Seq<PlaceholderSpan>,
    counts: Seq<usize>,
    prompt_len: int,
    k: nat,
) -> nat
    decreases k,
{
    if k == 0 || spans_rejection(kind, spans, counts, prompt_len, k) is None {
        k
    } else {
        spans_before_rejection(kind, spans, counts, prompt_len, (k - 1) as nat)
    }
}

/// How many of the spans of one kind are accepted: none where their number is wrong, else those
/// before the first that is rejected.
pub open spec fn accepted_spans(
    kind: MediaKind,
    spans: Seq<PlaceholderSpan>,
    counts: Seq<usize>,
    prompt_len: int,
) -> nat {
    if spans.len() != counts.len() {
        0
    } else {
        spans_before_rejection(kind, spans, counts, prompt_len, spans.len())
    }
}

proof fn lemma_spans_before_rejection(
    kind: MediaKind,
    spans: Seq<PlaceholderSpan>,
    counts: Seq<usize>,
    prompt_len: int,
    k: nat,
    n: nat,
)
    requires
        k < n,
        spans_rejection(kind, spans, counts, prompt_len, k) is None,
        spans_rejection(kind, spans, counts, prompt_len, k + 1) is Some,
    ensures
        spans_before_rejection(kind, spans, counts, prompt_len, n) == k,
    decreases n,
{
    lemma_first_span_rejection(kind, spans, counts, prompt_len, k + 1, n);
    if k + 1 < n {
        lemma_spans_before_rejection(kind, spans, counts, prompt_len, k, (n - 1) as nat);
    } else {
        assert(spans_before_rejection(kind, spans, counts, prompt_len, k) == k);
    }
}

/// The plans of the spans of one kind.
pub open spec fn modality_plans(
    kind: MediaKind,
    spans: Seq<PlaceholderSpan>,
    counts: Seq<usize>,
) -> Seq<MediaSpanPlan> {
    spans.map(
        |i: int, span: PlaceholderSpan|
            MediaSpanPlan { kind, span, embedding_tokens: counts[span.media_index as int] },
    )
}

proof fn lemma_first_span_rejection(
    kind: MediaKind,
    spans: Seq<PlaceholderSpan>,
    counts: Seq<usize>,
    prompt_len: int,
    k: nat,
    n: nat,
)
    requires
        k <= n,
        spans_rejection(kind, spans, counts, prompt_len, k) is Some,
    ensures
        spans_rejection(kind, spans, counts, prompt_len, n) == spans_rejection(
            kind,
            spans,
            counts,
            prompt_len,
            k,
        ),
    decreases n,
{
    if k < n {
        lemma_first_span_rejection(kind, spans, counts, prompt_len, k, (n - 1) as nat);
    }
}

/// What accepted spans satisfy.
pub open spec fn spans_accepted(
    spans: Seq<PlaceholderSpan>,
    counts: Seq<usize>,
    prompt_len: int,
    k: int,
) -> bool {
    &&& forall|i: int|
        0 <= i < k ==> {
            let span = #[trigger] spans[i];
            &&& minimum_len(span) <= span.token_len
            &&& span_end(span) <= prompt_len
            &&& span.media_index < counts.len()
            &&& counts[span.media_index as int] > 0
        }
    &&& forall|i: int, j: int|
        0 <= i < j < k ==> span_end(#[trigger] spans[i]) <= (#[trigger] spans[j]).token_start
            && spans[i].media_index != spans[j].media_index
}

proof fn lemma_spans_accepted(
    kind: MediaKind,
    spans: Seq<PlaceholderSpan>,
    counts: Seq<usize>,
    prompt_len: int,
    k: nat,
)
    requires
        k <= spans.len(),
        spans_rejection(kind, spans, counts, prompt_len, k) is None,
    ensures
        spans_accepted(spans, counts, prompt_len, k as int),
    decreases k,
{
    if k > 0 {
        lemma_spans_accepted(kind, spans, counts, prompt_len, (k - 1) as nat);
        let last = spans[k - 1];
        assert forall|i: int, j: int| 0 <= i < j < k implies span_end(#[trigger] spans[i]) <= (
        #[trigger] spans[j]).token_start && spans[i].media_index != spans[j].media_index by {
            if j == k - 1 && i < k - 2 {
                assert(span_end(spans[i]) <= spans[k - 2].token_start);
            }
        }
    }
}

/// Appends the plans of the spans of one kind.
pub fn append_modality_plans(
    prompt_len: usize,
    kind: MediaKind,
    spans: &Vec<PlaceholderSpan>,
    embedding_token_counts: &[usize],
    plans: &mut Vec<MediaSpanPlan>,
) -> (result: Result<(), InjectionError>)
    ensures
        match result {
            Ok(_) => modality_rejection(
                kind,
                spans@,
                embedding_token_counts@,
                prompt_len as int,
            ) is None && final(plans)@ == old(plans)@ + modality_plans(
                kind,
                spans@,
                embedding_token_counts@,
            ),
            Err(error) => modality_rejection(
                kind,
                spans@,
                embedding_token_counts@,
                prompt_len as int,
            ) == Some(error) && final(plans)@ == old(plans)@ + modality_plans(
                kind,
                spans@,
                embedding_token_counts@,
            ).take(
                accepted_spans(kind, spans@, embedding_token_counts@, prompt_len as int) as int,
            ),
        },
        final(plans)@.len() >= old(plans)@.len(),
        final(plans)@.take(old(plans)@.len() as int) == old(plans)@,
{
    let ghost counts = embedding_token_counts@;
    let ghost target = modality_plans(kind, spans@, counts);
    assert(plans@ =~= old(plans)@ + target.take(0));
    if spans.len() != embedding_token_counts.len() {
        return Err(
            InjectionError::GroupCount {
                kind,
                spans: spans.len(),
                groups: embedding_token_counts.len(),
            },
        );
    }
    let mut seen: Vec<bool> = Vec::new();
    while seen.len() < embedding_token_counts.len()
        invariant
            seen@.len() <= counts.len(),
            counts == embedding_token_counts@,
            forall|m: int| 0 <= m < seen@.len() ==> !#[trigger] seen@[m],
        decreases embedding_token_counts.len() - seen.len(),
    {
        seen.push(false);
    }
    let mut previous_end: usize = 0;
    let mut k: usize = 0;
    while k < spans.len()
        invariant
            k <= spans@.len(),
            spans@.len() == counts.len(),
            counts == embedding_token_counts@,
            seen@.len() == counts.len(),
            target == modality_plans(kind, spans@, counts),
            previous_end == span_end_before(spans@, k as int),
            spans_rejection(kind, spans@, counts, prompt_len as int, k as nat) is None,
            forall|m: int|
                0 <= m < counts.len() ==> (#[trigger] seen@[m] <==> exists|j: int|
                    0 <= j < k && (#[trigger] spans@[j]).media_index == m),
            plans@ == old(plans)@ + target.take(k as int),
        decreases spans.len() - k,
    {
        let span = spans[k];
        proof {
            if spans_rejection(kind, spans@, counts, prompt_len as int, (k + 1) as nat) is Some {
                lemma_first_span_rejection(
                    kind,
                    spans@,
                    counts,
                    prompt_len as int,
                    (k + 1) as nat,
                    spans@.len(),
                );
                lemma_spans_before_rejection(
                    kind,
                    spans@,
                    counts,
                    prompt_len as int,
                    k as nat,
                    spans@.len(),
                );
            }
        }
        let minimum: usize = if span.replace_marker { 1 } else { 2 };
        if span.token_len < minimum {
            return Err(
                InjectionError::SpanTooShort {
                    kind,
                    media_index: span.media_index,
                    token_len: span.token_len,
                    minimum,
                },
            );
        }
        let end: usize = match span.token_start.checked_add(span.token_len) {
            Some(end) => end,
            None => return Err(InjectionError::SpanOverflow(kind)),
        };
        if end > prompt_len {
            return Err(
                InjectionError::SpanOutOfPrompt { kind, media_index: span.media_index },
            );
        }
        if span.token_start < previous_end {
            return Err(InjectionError::SpanOrder { kind, media_index: span.media_index });
        }
        previous_end = end;
        if span.media_index >= embedding_token_counts.len() {
            return Err(InjectionError::MissingMedia { kind, media_index: span.media_index });
        }
        let embedding_tokens: usize = embedding_token_counts[span.media_index];
        assert(seen@[span.media_index as int] <==> exists|j: int|
            0 <= j < k && (#[trigger] spans@[j]).media_index == span.media_index);
        if seen[span.media_index] {
            return Err(InjectionError::DuplicateSpan { kind, media_index: span.media_index });
        }
        if embedding_tokens == 0 {
            return Err(InjectionError::EmptySequence { kind, media_index: span.media_index });
        }
        let ghost was = seen@;
        seen.set(span.media_index, true);
        plans.push(MediaSpanPlan { kind, span, embedding_tokens });
        proof {
            assert(plans@ =~= old(plans)@ + target.take(k + 1));
            assert forall|m: int| 0 <= m < counts.len() implies (#[trigger] seen@[m] <==> exists|
                j: int,
            |
                0 <= j < k + 1 && (#[trigger] spans@[j]).media_index == m) by {
                assert(was[m] <==> exists|j: int|
                    0 <= j < k && (#[trigger] spans@[j]).media_index == m);
                if m == span.media_index {
                    assert(spans@[k as int].media_index == m);
                }
                if was[m] {
                    let j = choose|j: int| 0 <= j < k && (#[trigger] spans@[j]).media_index == m;
                    assert(0 <= j < k + 1 && spans@[j].media_index == m);
                }
            }
        }
        k = k + 1;
    }
    assert(target.take(k as int) =~= target);
    Ok(())
}

/// Two lists of plans merged by their starts; of equal starts the first list comes first.
pub open spec fn merged(a: Seq<MediaSpanPlan>, b: Seq<MediaSpanPlan>) -> Seq<MediaSpanPlan>
    decreases a.len() + b.len(),
{
    if a.len() == 0 {
        b
    } else if b.len() == 0 {
        a
    } else if a.last().span.token_start <= b.last().span.token_start {
        merged(a, b.drop_last()).push(b.last())
    } else {
        merged(a.drop_last(), b).push(a.last())
    }
}

/// The first of the first `k` plans that overlaps the one before it.
pub open spec fn overlap_rejection(plans: Seq<MediaSpanPlan>, k: nat) -> Option<InjectionError>
    decreases k,
{
    if k == 0 {
        None
    } else {
        match overlap_rejection(plans, (k - 1) as nat) {
            Some(error) => Some(error),
            None => if k >= 2 && plans[k - 1].span.token_start < span_end(plans[k - 2].span) {
                Some(
                    InjectionError::SpanOverlap {
                        kind: plans[k - 1].kind,
                        media_index: plans[k - 1].span.media_index,
                    },
                )
            } else {
                None
            },
        }
    }
}

/// The plans of all media in prompt order.
pub open spec fn media_plan(
    prompt: EncodedPrompt,
    images: Seq<usize>,
    audios: Seq<usize>,
) -> Result<Seq<MediaSpanPlan>, InjectionError> {
    let len = prompt.token_ids@.len() as int;
    if prompt.video_spans@.len() > 0 {
        Err(InjectionError::VideoUnsupported)
    } else if prompt.image_spans@.len() + prompt.audio_spans@.len() > usize::MAX {
        Err(InjectionError::PlaceholderCountOverflow)
    } else {
        match modality_rejection(MediaKind::Image, prompt.image_spans@, images, len) {
            Some(error) => Err(error),
            None => match modality_rejection(MediaKind::Audio, prompt.audio_spans@, audios, len) {
                Some(error) => Err(error),
                None => {
                    let plans = merged(
                        modality_plans(MediaKind::Image, prompt.image_spans@, images),
                        modality_plans(MediaKind::Audio, prompt.audio_spans@, audios),
                    );
                    match overlap_rejection(plans, plans.len()) {
                        Some(error) => Err(error),
                        None => Ok(plans),
                    }
                },
            },
        }
    }
}

proof fn lemma_merged_len(a: Seq<MediaSpanPlan>, b: Seq<MediaSpanPlan>)
    ensures
        merged(a, b).len() == a.len() + b.len(),
    decreases a.len() + b.len(),
{
    if a.len() > 0 && b.len() > 0 {
        if a.last().span.token_start <= b.last().span.token_start {
            lemma_merged_len(a, b.drop_last());
        } else {
            lemma_merged_len(a.drop_last(), b);
        }
    }
}

fn reversed(plans: &Vec<MediaSpanPlan>) -> (out: Vec<MediaSpanPlan>)
    ensures
        out@ == plans@.reverse(),
{
    let mut out: Vec<MediaSpanPlan> = Vec::new();
    let mut k: usize = plans.len();
    while k > 0
        invariant
            k <= plans@.len(),
            out@ == plans@.skip(k as int).reverse(),
        decreases k,
    {
        k = k - 1;
        out.push(plans[k]);
        assert(out@ =~= plans@.skip(k as int).reverse());
    }
    assert(plans@.skip(0) =~= plans@);
    out
}

/// Merges two lists of plans by their starts.
fn merge(a: &Vec<MediaSpanPlan>, b: &Vec<MediaSpanPlan>) -> (out: Vec<MediaSpanPlan>)
    ensures
        out@ == merged(a@, b@),
{
    let mut i: usize = a.len();
    let mut j: usize = b.len();
    let mut back: Vec<MediaSpanPlan> = Vec::new();
    assert(a@.take(i as int) =~= a@);
    assert(b@.take(j as int) =~= b@);
    assert(merged(a@, b@) =~= merged(a@.take(i as int), b@.take(j as int)) + back@.reverse());
    while i > 0 || j > 0
        invariant
            i <= a@.len(),
            j <= b@.len(),
            merged(a@, b@) == merged(a@.take(i as int), b@.take(j as int)) + back@.reverse(),
        decreases i + j,
    {
        let ghost left = a@.take(i as int);
        let ghost right = b@.take(j as int);
        let ghost was = back@;
        if i == 0 || (j > 0 && a[i - 1].span.token_start <= b[j - 1].span.token_start) {
            back.push(b[j - 1]);
            proof {
                assert(right.drop_last() =~= b@.take(j - 1));
                if i == 0 {
                    assert(merged(left, right) =~= merged(left, right.drop_last()).push(
                        right.last(),
                    ));
                }
                assert(merged(left, right) == merged(left, right.drop_last()).push(right.last()));
                assert(merged(left, right) + was.reverse() =~= merged(left, b@.take(j - 1))
                    + back@.reverse());
            }
            j = j - 1;
        } else {
            back.push(a[i - 1]);
            proof {
                assert(left.drop_last() =~= a@.take(i - 1));
                if j == 0 {
                    assert(merged(left, right) =~= merged(left.drop_last(), right).push(
                        left.last(),
                    )) by {
                        if left.drop_last().len() == 0 {
                            assert(left =~= seq![left.last()]);
                            assert(right =~= Seq::empty());
                        }
                    }
                }
                assert(merged(left, right) == merged(left.drop_last(), right).push(left.last()));
                assert(merged(left, right) + was.reverse() =~= merged(a@.take(i - 1), right)
                    + back@.reverse());
            }
            i = i - 1;
        }
    }
    let out = reversed(&back);
    assert(merged(a@.take(0), b@.take(0)) =~= Seq::empty());
    assert(out@ =~= merged(a@, b@));
    out
}

proof fn lemma_first_overlap(plans: Seq<MediaSpanPlan>, k: nat, n: nat)
    requires
        k <= n,
        overlap_rejection(plans, k) is Some,
    ensures
        overlap_rejection(plans, n) == overlap_rejection(plans, k),
    decreases n,
{
    if k < n {
        lemma_first_overlap(plans, k, (n - 1) as nat);
    }
}

/// What holds of the plans of all media: each is within the prompt, long enough and not empty,
/// and they are in order without overlap.
pub open spec fn plans_ordered(
    plans: Seq<MediaSpanPlan>,
    prompt_len: int,
    images: Seq<usize>,
    audios: Seq<usize>,
) -> bool {
    &&& forall|i: int|
        0 <= i < plans.len() ==> plan_valid(#[trigger] plans[i], prompt_len, images, audios)
    &&& forall|i: int, j: int|
        0 <= i < j < plans.len() ==> span_end((#[trigger] plans[i]).span) <= (
        #[trigger] plans[j]).span.token_start
}

/// Whether a plan is within the prompt and names the embeddings of its medium.
pub open spec fn plan_valid(
    plan: MediaSpanPlan,
    prompt_len: int,
    images: Seq<usize>,
    audios: Seq<usize>,
) -> bool {
    let counts = match plan.kind {
        MediaKind::Image => images,
        MediaKind::Audio => audios,
    };
    &&& minimum_len(plan.span) <= plan.span.token_len
    &&& span_end(plan.span) <= prompt_len
    &&& plan.span.media_index < counts.len()
    &&& plan.embedding_tokens == counts[plan.span.media_index as int]
    &&& plan.embedding_tokens > 0
}

proof fn lemma_merged_valid(
    a: Seq<MediaSpanPlan>,
    b: Seq<MediaSpanPlan>,
    prompt_len: int,
    images: Seq<usize>,
    audios: Seq<usize>,
)
    requires
        forall|i: int| 0 <= i < a.len() ==> plan_valid(#[trigger] a[i], prompt_len, images, audios),
        forall|i: int| 0 <= i < b.len() ==> plan_valid(#[trigger] b[i], prompt_len, images, audios),
    ensures
        forall|i: int|
            0 <= i < merged(a, b).len() ==> plan_valid(
                #[trigger] merged(a, b)[i],
                prompt_len,
                images,
                audios,
            ),
    decreases a.len() + b.len(),
{
    if a.len() > 0 && b.len() > 0 {
        assert(plan_valid(a[a.len() - 1], prompt_len, images, audios));
        assert(plan_valid(b[b.len() - 1], prompt_len, images, audios));
        if a.last().span.token_start <= b.last().span.token_start {
            let front = b.drop_last();
            assert forall|i: int| 0 <= i < front.len() implies plan_valid(
                #[trigger] front[i],
                prompt_len,
                images,
                audios,
            ) by {
                assert(front[i] == b[i]);
            }
            lemma_merged_valid(a, front, prompt_len, images, audios);
            let m = merged(a, front);
            assert forall|i: int| 0 <= i < merged(a, b).len() implies plan_valid(
                #[trigger] merged(a, b)[i],
                prompt_len,
                images,
                audios,
            ) by {
                if i < m.len() {
                    assert(plan_valid(m[i], prompt_len, images, audios));
                }
            }
        } else {
            let front = a.drop_last();
            assert forall|i: int| 0 <= i < front.len() implies plan_valid(
                #[trigger] front[i],
                prompt_len,
                images,
                audios,
            ) by {
                assert(front[i] == a[i]);
            }
            lemma_merged_valid(front, b, prompt_len, images, audios);
            let m = merged(front, b);
            assert forall|i: int| 0 <= i < merged(a, b).len() implies plan_valid(
                #[trigger] merged(a, b)[i],
                prompt_len,
                images,
                audios,
            ) by {
                if i < m.len() {
                    assert(plan_valid(m[i], prompt_len, images, audios));
                }
            }
        }
    }
}

proof fn lemma_no_overlap(plans: Seq<MediaSpanPlan>, k: nat, i: int, j: int)
    requires
        overlap_rejection(plans, k) is None,
        0 <= i < j < k <= plans.len(),
    ensures
        span_end(plans[i].span) <= plans[j].span.token_start,
    decreases k,
{
    if j < k - 1 {
        lemma_no_overlap(plans, (k - 1) as nat, i, j);
    } else if i < j - 1 {
        lemma_no_overlap(plans, (k - 1) as nat, i, j - 1);
    }
}

/// Accepted media are in prompt order without overlap, each within the prompt and with at least
/// one embedding.
pub proof fn media_plans_are_ordered(
    prompt: EncodedPrompt,
    images: Seq<usize>,
    audios: Seq<usize>,
)
    ensures
        media_plan(prompt, images, audios) matches Ok(plans) ==> plans_ordered(
            plans,
            prompt.token_ids@.len() as int,
            images,
            audios,
        ) && plans.len() == prompt.image_spans@.len() + prompt.audio_spans@.len(),
{
    match media_plan(prompt, images, audios) {
        Err(_) => {},
        Ok(plans) => {
            let len = prompt.token_ids@.len() as int;
            let a = modality_plans(MediaKind::Image, prompt.image_spans@, images);
            let b = modality_plans(MediaKind::Audio, prompt.audio_spans@, audios);
            lemma_spans_accepted(
                MediaKind::Image,
                prompt.image_spans@,
                images,
                len,
                prompt.image_spans@.len(),
            );
            lemma_spans_accepted(
                MediaKind::Audio,
                prompt.audio_spans@,
                audios,
                len,
                prompt.audio_spans@.len(),
            );
            assert forall|i: int| 0 <= i < a.len() implies plan_valid(
                #[trigger] a[i],
                len,
                images,
                audios,
            ) by {
                let span = prompt.image_spans@[i];
            }
            assert forall|i: int| 0 <= i < b.len() implies plan_valid(
                #[trigger] b[i],
                len,
                images,
                audios,
            ) by {
                let span = prompt.audio_spans@[i];
            }
            lemma_merged_valid(a, b, len, images, audios);
            lemma_merged_len(a, b);
            assert forall|i: int, j: int| 0 <= i < j < plans.len() implies span_end(
                (#[trigger] plans[i]).span,
            ) <= (#[trigger] plans[j]).span.token_start by {
                lemma_no_overlap(plans, plans.len(), i, j);
            }
        },
    }
}

/// The sum of numbers of embeddings.
pub open spec fn token_sum(counts: Seq<usize>) -> int
    decreases counts.len(),
{
    if counts.len() == 0 {
        0
    } else {
        token_sum(counts.drop_last()) + counts.last()
    }
}

/// The number of embeddings that plans place.
pub open spec fn planned_embeddings(plans: Seq<MediaSpanPlan>) -> int
    decreases plans.len(),
{
    if plans.len() == 0 {
        0
    } else {
        planned_embeddings(plans.drop_last()) + plans.last().embedding_tokens
    }
}

proof fn lemma_merged_embeddings(a: Seq<MediaSpanPlan>, b: Seq<MediaSpanPlan>)
    ensures
        planned_embeddings(merged(a, b)) == planned_embeddings(a) + planned_embeddings(b),
    decreases a.len() + b.len(),
{
    if a.len() > 0 && b.len() > 0 {
        if a.last().span.token_start <= b.last().span.token_start {
            lemma_merged_embeddings(a, b.drop_last());
            assert(merged(a, b).drop_last() =~= merged(a, b.drop_last()));
        } else {
            lemma_merged_embeddings(a.drop_last(), b);
            assert(merged(a, b).drop_last() =~= merged(a.drop_last(), b));
        }
    }
}

/// The sum of those numbers whose places are in a set.
spec fn chosen_sum(counts: Seq<usize>, chosen: Set<int>) -> int
    decreases counts.len(),
{
    if counts.len() == 0 {
        0
    } else {
        chosen_sum(counts.drop_last(), chosen) + if chosen.contains(counts.len() - 1) {
            counts.last() as int
        } else {
            0
        }
    }
}

proof fn lemma_chosen_one_more(counts: Seq<usize>, chosen: Set<int>, m: int)
    requires
        !chosen.contains(m),
    ensures
        chosen_sum(counts, chosen.insert(m)) == chosen_sum(counts, chosen) + if 0 <= m
            < counts.len() {
            counts[m] as int
        } else {
            0
        },
    decreases counts.len(),
{
    if counts.len() > 0 {
        lemma_chosen_one_more(counts.drop_last(), chosen, m);
    }
}

proof fn lemma_chosen_all(counts: Seq<usize>, chosen: Set<int>)
    requires
        forall|m: int| 0 <= m < counts.len() ==> chosen.contains(m),
    ensures
        chosen_sum(counts, chosen) == token_sum(counts),
    decreases counts.len(),
{
    if counts.len() > 0 {
        lemma_chosen_all(counts.drop_last(), chosen);
    }
}

proof fn lemma_chosen_none(counts: Seq<usize>)
    ensures
        chosen_sum(counts, Set::empty()) == 0,
    decreases counts.len(),
{
    if counts.len() > 0 {
        lemma_chosen_none(counts.drop_last());
    }
}

/// The media that spans name.
spec fn named_media(spans: Seq<PlaceholderSpan>) -> Set<int>
    decreases spans.len(),
{
    if spans.len() == 0 {
        Set::empty()
    } else {
        named_media(spans.drop_last()).insert(spans.last().media_index as int)
    }
}

proof fn lemma_named_media(
    kind: MediaKind,
    spans: Seq<PlaceholderSpan>,
    counts: Seq<usize>,
    prompt_len: int,
)
    requires
        spans_accepted(spans, counts, prompt_len, spans.len() as int),
    ensures
        named_media(spans).finite(),
        named_media(spans).len() == spans.len(),
        forall|m: int| named_media(spans).contains(m) ==> 0 <= m < counts.len(),
        forall|m: int| #[trigger]
            named_media(spans).contains(m) ==> exists|j: int|
                0 <= j < spans.len() && (#[trigger] spans[j]).media_index == m,
        planned_embeddings(modality_plans(kind, spans, counts)) == chosen_sum(
            counts,
            named_media(spans),
        ),
    decreases spans.len(),
{
    if spans.len() == 0 {
        lemma_chosen_none(counts);
    } else {
        let front = spans.drop_last();
        let last = spans.last();
        let m = last.media_index as int;
        assert(spans[spans.len() - 1] == last);
        assert forall|i: int| 0 <= i < front.len() implies front[i] == #[trigger] spans[i] by {}
        assert(spans_accepted(front, counts, prompt_len, front.len() as int)) by {
            assert forall|i: int| 0 <= i < front.len() implies {
                let span = #[trigger] front[i];
                &&& minimum_len(span) <= span.token_len
                &&& span_end(span) <= prompt_len
                &&& span.media_index < counts.len()
                &&& counts[span.media_index as int] > 0
            } by {
                let span = spans[i];
            }
        }
        lemma_named_media(kind, front, counts, prompt_len);
        assert(!named_media(front).contains(m)) by {
            if named_media(front).contains(m) {
                let j = choose|j: int|
                    0 <= j < front.len() && (#[trigger] front[j]).media_index == m;
                assert(spans[j].media_index != spans[spans.len() - 1].media_index);
            }
        }
        lemma_chosen_one_more(counts, named_media(front), m);
        assert(modality_plans(kind, spans, counts).drop_last() =~= modality_plans(
            kind,
            front,
            counts,
        ));
        assert forall|x: int| #[trigger] named_media(spans).contains(x) implies exists|j: int|
            0 <= j < spans.len() && (#[trigger] spans[j]).media_index == x by {
            if x == m {
                assert(spans[spans.len() - 1].media_index == x);
            } else {
                let j = choose|j: int|
                    0 <= j < front.len() && (#[trigger] front[j]).media_index == x;
                assert(spans[j].media_index == x);
            }
        }
    }
}

proof fn lemma_modality_embeddings(
    kind: MediaKind,
    spans: Seq<PlaceholderSpan>,
    counts: Seq<usize>,
    prompt_len: int,
)
    requires
        modality_rejection(kind, spans, counts, prompt_len) is None,
    ensures
        planned_embeddings(modality_plans(kind, spans, counts)) == token_sum(counts),
{
    lemma_spans_accepted(kind, spans, counts, prompt_len, spans.len());
    lemma_named_media(kind, spans, counts, prompt_len);
    let named = named_media(spans);
    let all = set_int_range(0, counts.len() as int);
    lemma_int_range(0, counts.len() as int);
    assert(named.subset_of(all));
    lemma_subset_equality(named, all);
    lemma_chosen_all(counts, named);
}

/// Every embedding of every medium is planned once: the plans of all media place as many
/// embeddings as there are.
pub proof fn plans_place_all_embeddings(
    prompt: EncodedPrompt,
    images: Seq<usize>,
    audios: Seq<usize>,
)
    ensures
        media_plan(prompt, images, audios) matches Ok(plans) ==> planned_embeddings(plans)
            == token_sum(images) + token_sum(audios),
{
    if media_plan(prompt, images, audios) is Ok {
        let len = prompt.token_ids@.len() as int;
        lemma_modality_embeddings(MediaKind::Image, prompt.image_spans@, images, len);
        lemma_modality_embeddings(MediaKind::Audio, prompt.audio_spans@, audios, len);
        lemma_merged_embeddings(
            modality_plans(MediaKind::Image, prompt.image_spans@, images),
            modality_plans(MediaKind::Audio, prompt.audio_spans@, audios),
        );
    }
}

proof fn lemma_merged_contains(a: Seq<MediaSpanPlan>, b: Seq<MediaSpanPlan>, x: MediaSpanPlan)
    ensures
        merged(a, b).contains(x) <==> a.contains(x) || b.contains(x),
    decreases a.len() + b.len(),
{
    if a.len() > 0 && b.len() > 0 {
        if a.last().span.token_start <= b.last().span.token_start {
            let front = b.drop_last();
            lemma_merged_contains(a, front, x);
            assert(b =~= front.push(b.last()));
            lemma_push_contains(front, b.last(), x);
            lemma_push_contains(merged(a, front), b.last(), x);
        } else {
            let front = a.drop_last();
            lemma_merged_contains(front, b, x);
            assert(a =~= front.push(a.last()));
            lemma_push_contains(front, a.last(), x);
            lemma_push_contains(merged(front, b), a.last(), x);
        }
    }
}

proof fn lemma_push_contains(s: Seq<MediaSpanPlan>, last: MediaSpanPlan, x: MediaSpanPlan)
    ensures
        s.push(last).contains(x) <==> s.contains(x) || x == last,
{
    let all = s.push(last);
    if s.contains(x) {
        let i = choose|i: int| 0 <= i < s.len() && s[i] == x;
        assert(all[i] == x);
    }
    if x == last {
        assert(all[s.len() as int] == x);
    }
    if all.contains(x) {
        let i = choose|i: int| 0 <= i < all.len() && all[i] == x;
        if i < s.len() {
            assert(s[i] == x);
        }
    }
}

/// Every span of a prompt is planned with the number of embeddings of the medium that it names,
/// and nothing else is.
pub proof fn every_span_is_planned(
    prompt: EncodedPrompt,
    images: Seq<usize>,
    audios: Seq<usize>,
    plan: MediaSpanPlan,
)
    ensures
        media_plan(prompt, images, audios) matches Ok(plans) ==> (plans.contains(plan)
            <==> match plan.kind {
            MediaKind::Image => prompt.image_spans@.contains(plan.span) && plan.embedding_tokens
                == images[plan.span.media_index as int],
            MediaKind::Audio => prompt.audio_spans@.contains(plan.span) && plan.embedding_tokens
                == audios[plan.span.media_index as int],
        }),
{
    let a = modality_plans(MediaKind::Image, prompt.image_spans@, images);
    let b = modality_plans(MediaKind::Audio, prompt.audio_spans@, audios);
    lemma_merged_contains(a, b, plan);
    lemma_modality_contains(MediaKind::Image, prompt.image_spans@, images, plan);
    lemma_modality_contains(MediaKind::Audio, prompt.audio_spans@, audios, plan);
}

proof fn lemma_modality_contains(
    kind: MediaKind,
    spans: Seq<PlaceholderSpan>,
    counts: Seq<usize>,
    plan: MediaSpanPlan,
)
    ensures
        modality_plans(kind, spans, counts).contains(plan) <==> plan.kind == kind
            && spans.contains(plan.span) && plan.embedding_tokens
            == counts[plan.span.media_index as int],
{
    let plans = modality_plans(kind, spans, counts);
    if plans.contains(plan) {
        let i = choose|i: int| 0 <= i < plans.len() && plans[i] == plan;
        assert(spans[i] == plan.span);
    }
    if plan.kind == kind && spans.contains(plan.span) && plan.embedding_tokens
        == counts[plan.span.media_index as int] {
        let i = choose|i: int| 0 <= i < spans.len() && spans[i] == plan.span;
        assert(plans[i] == plan);
    }
}

/// Plans all media of a prompt in prompt order.
pub fn ordered_media_plan(
    encoded: &EncodedPrompt,
    image_embedding_token_counts: &[usize],
    audio_embedding_token_counts: &[usize],
) -> (result: Result<Vec<MediaSpanPlan>, InjectionError>)
    ensures
        match result {
            Ok(plans) => media_plan(
                *encoded,
                image_embedding_token_counts@,
                audio_embedding_token_counts@,
            ) == Ok::<Seq<MediaSpanPlan>, InjectionError>(plans@),
            Err(error) => media_plan(
                *encoded,
                image_embedding_token_counts@,
                audio_embedding_token_counts@,
            ) == Err::<Seq<MediaSpanPlan>, InjectionError>(error),
        },
{
    if encoded.video_spans.len() > 0 {
        return Err(InjectionError::VideoUnsupported);
    }
    match encoded.image_spans.len().checked_add(encoded.audio_spans.len()) {
        Some(_) => {},
        None => return Err(InjectionError::PlaceholderCountOverflow),
    }
    let prompt_len: usize = encoded.token_ids.len();
    let mut image_plans: Vec<MediaSpanPlan> = Vec::new();
    match append_modality_plans(
        prompt_len,
        MediaKind::Image,
        &encoded.image_spans,
        image_embedding_token_counts,
        &mut image_plans,
    ) {
        Ok(_) => {},
        Err(error) => return Err(error),
    }
    let mut audio_plans: Vec<MediaSpanPlan> = Vec::new();
    match append_modality_plans(
        prompt_len,
        MediaKind::Audio,
        &encoded.audio_spans,
        audio_embedding_token_counts,
        &mut audio_plans,
    ) {
        Ok(_) => {},
        Err(error) => return Err(error),
    }
    let ghost a = modality_plans(
        MediaKind::Image,
        encoded.image_spans@,
        image_embedding_token_counts@,
    );
    let ghost b = modality_plans(
        MediaKind::Audio,
        encoded.audio_spans@,
        audio_embedding_token_counts@,
    );
    assert(image_plans@ =~= a);
    assert(audio_plans@ =~= b);
    let plans = merge(&image_plans, &audio_plans);
    let mut previous_end: usize = 0;
    let mut k: usize = 0;
    proof {
        let len = prompt_len as int;
        lemma_spans_accepted(
            MediaKind::Image,
            encoded.image_spans@,
            image_embedding_token_counts@,
            len,
            encoded.image_spans@.len(),
        );
        lemma_spans_accepted(
            MediaKind::Audio,
            encoded.audio_spans@,
            audio_embedding_token_counts@,
            len,
            encoded.audio_spans@.len(),
        );
        assert forall|i: int| 0 <= i < a.len() implies plan_valid(
            #[trigger] a[i],
            len,
            image_embedding_token_counts@,
            audio_embedding_token_counts@,
        ) by {
            let span = encoded.image_spans@[i];
        }
        assert forall|i: int| 0 <= i < b.len() implies plan_valid(
            #[trigger] b[i],
            len,
            image_embedding_token_counts@,
            audio_embedding_token_counts@,
        ) by {
            let span = encoded.audio_spans@[i];
        }
        lemma_merged_valid(
            a,
            b,
            len,
            image_embedding_token_counts@,
            audio_embedding_token_counts@,
        );
    }
    while k < plans.len()
        invariant
            k <= plans@.len(),
            previous_end == if k == 0 {
                0
            } else {
                span_end(plans@[k - 1].span)
            },
            overlap_rejection(plans@, k as nat) is None,
            forall|i: int|
                0 <= i < plans@.len() ==> plan_valid(
                    #[trigger] plans@[i],
                    prompt_len as int,
                    image_embedding_token_counts@,
                    audio_embedding_token_counts@,
                ),
            plans@ == merged(a, b),
            media_plan(*encoded, image_embedding_token_counts@, audio_embedding_token_counts@) == (
            match overlap_rejection(plans@, plans@.len()) {
                Some(error) => Err::<Seq<MediaSpanPlan>, InjectionError>(error),
                None => Ok(plans@),
            }),
        decreases plans.len() - k,
    {
        let plan = plans[k];
        proof {
            assert(plan_valid(
                plans@[k as int],
                prompt_len as int,
                image_embedding_token_counts@,
                audio_embedding_token_counts@,
            ));
            if overlap_rejection(plans@, (k + 1) as nat) is Some {
                lemma_first_overlap(plans@, (k + 1) as nat, plans@.len());
            }
        }
        if plan.span.token_start < previous_end {
            return Err(
                InjectionError::SpanOverlap {
                    kind: plan.kind,
                    media_index: plan.span.media_index,
                },
            );
        }
        previous_end = plan.span.token_start + plan.span.token_len;
        k = k + 1;
    }
    Ok(plans)
}

/// The number of tokens that take the place of a span.
pub open spec fn replacement_len(plan: MediaSpanPlan) -> int {
    if plan.span.replace_marker {
        plan.embedding_tokens as int
    } else {
        plan.embedding_tokens + 2
    }
}

/// The length of a prompt after the first `k` plans were applied.
pub open spec fn expanded_len(count: int, plans: Seq<MediaSpanPlan>, k: nat) -> Result<
    int,
    InjectionError,
>
    decreases k,
{
    if k == 0 {
        Ok(count)
    } else {
        match expanded_len(count, plans, (k - 1) as nat) {
            Err(error) => Err(error),
            Ok(len) => {
                let plan = plans[k - 1];
                if replacement_len(plan) > usize::MAX {
                    Err(InjectionError::EmbeddingCountOverflow)
                } else if len < plan.span.token_len || len - plan.span.token_len
                    + replacement_len(plan) > usize::MAX {
                    Err(InjectionError::ExpandedCountOverflow)
                } else {
                    Ok(len - plan.span.token_len + replacement_len(plan))
                }
            },
        }
    }
}

proof fn lemma_first_len_rejection(count: int, plans: Seq<MediaSpanPlan>, k: nat, n: nat)
    requires
        k <= n,
        expanded_len(count, plans, k) is Err,
    ensures
        expanded_len(count, plans, n) == expanded_len(count, plans, k),
    decreases n,
{
    if k < n {
        lemma_first_len_rejection(count, plans, k, (n - 1) as nat);
    }
}

/// The length of a prompt after the plans were applied.
pub fn expanded_len_from_plan(original_token_count: usize, plans: &Vec<MediaSpanPlan>) -> (result:
    Result<usize, InjectionError>)
    ensures
        match result {
            Ok(len) => expanded_len(original_token_count as int, plans@, plans@.len()) == Ok::<
                int,
                InjectionError,
            >(len as int),
            Err(error) => expanded_len(original_token_count as int, plans@, plans@.len()) == Err::<
                int,
                InjectionError,
            >(error),
        },
{
    let mut expanded: usize = original_token_count;
    let mut k: usize = 0;
    while k < plans.len()
        invariant
            k <= plans@.len(),
            expanded_len(original_token_count as int, plans@, k as nat) == Ok::<
                int,
                InjectionError,
            >(expanded as int),
        decreases plans.len() - k,
    {
        let plan = plans[k];
        proof {
            if expanded_len(original_token_count as int, plans@, (k + 1) as nat) is Err {
                lemma_first_len_rejection(
                    original_token_count as int,
                    plans@,
                    (k + 1) as nat,
                    plans@.len(),
                );
            }
        }
        let replacement: usize = if plan.span.replace_marker {
            plan.embedding_tokens
        } else {
            match plan.embedding_tokens.checked_add(2) {
                Some(count) => count,
                None => return Err(InjectionError::EmbeddingCountOverflow),
            }
        };
        let kept: usize = match expanded.checked_sub(plan.span.token_len) {
            Some(kept) => kept,
            None => return Err(InjectionError::ExpandedCountOverflow),
        };
        expanded =
        match kept.checked_add(replacement) {
            Some(len) => len,
            None => return Err(InjectionError::ExpandedCountOverflow),
        };
        k = k + 1;
    }
    Ok(expanded)
}

/// What the length of a prompt with its media is.
pub open spec fn expanded_count(
    prompt: EncodedPrompt,
    images: Seq<usize>,
    audios: Seq<usize>,
) -> Result<int, InjectionError> {
    match media_plan(prompt, images, audios) {
        Err(error) => Err(error),
        Ok(plans) => expanded_len(prompt.token_ids@.len() as int, plans, plans.len()),
    }
}

/// The length of a prompt with its media.
pub fn expanded_media_prompt_token_count(
    encoded: &EncodedPrompt,
    image_embedding_token_counts: &[usize],
    audio_embedding_token_counts: &[usize],
) -> (result: Result<usize, InjectionError>)
    ensures
        match result {
            Ok(len) => expanded_count(
                *encoded,
                image_embedding_token_counts@,
                audio_embedding_token_counts@,
            ) == Ok::<int, InjectionError>(len as int),
            Err(error) => expanded_count(
                *encoded,
                image_embedding_token_counts@,
                audio_embedding_token_counts@,
            ) == Err::<int, InjectionError>(error),
        },
{
    match ordered_media_plan(
        encoded,
        image_embedding_token_counts,
        audio_embedding_token_counts,
    ) {
        Ok(plans) => expanded_len_from_plan(encoded.token_ids.len(), &plans),
        Err(error) => Err(error),
    }
}

/// The length of a prompt with its media, where it fits the context together with the tokens
/// reserved for decoding.
pub fn preflight_media_context(
    encoded: &EncodedPrompt,
    image_embedding_token_counts: &[usize],
    audio_embedding_token_counts: &[usize],
    context_limit: usize,
    decode_reserve: usize,
) -> (result: Result<usize, InjectionError>)
    ensures
        match expanded_count(
            *encoded,
            image_embedding_token_counts@,
            audio_embedding_token_counts@,
        ) {
            Err(error) => result == Err::<usize, InjectionError>(error),
            Ok(len) => if len + decode_reserve > usize::MAX {
                result == Err::<usize, InjectionError>(InjectionError::ContextOverflow)
            } else if len + decode_reserve > context_limit {
                result == Err::<usize, InjectionError>(
                    InjectionError::ContextExceeded {
                        expanded: len as usize,
                        reserve: decode_reserve,
                        limit: context_limit,
                    },
                )
            } else {
                result == Ok::<usize, InjectionError>(len as usize)
            },
        },
{
    let expanded: usize = match expanded_media_prompt_token_count(
        encoded,
        image_embedding_token_counts,
        audio_embedding_token_counts,
    ) {
        Ok(len) => len,
        Err(error) => return Err(error),
    };
    let required: usize = match expanded.checked_add(decode_reserve) {
        Some(required) => required,
        None => return Err(InjectionError::ContextOverflow),
    };
    if required > context_limit {
        return Err(
            InjectionError::ContextExceeded {
                expanded,
                reserve: decode_reserve,
                limit: context_limit,
            },
        );
    }
    Ok(expanded)
}

/// The first, placeholder and last token of a span.
pub fn marker_tokens(encoded: &EncodedPrompt, span: PlaceholderSpan) -> (markers: (i32, i32, i32))
    requires
        span.token_len > 0,
        span_end(span) <= encoded.token_ids@.len(),
    ensures
        markers.0 == encoded.token_ids@[span.token_start as int],
        markers.1 == if span.token_len >= 3 {
            encoded.token_ids@[span.token_start + 1]
        } else {
            encoded.token_ids@[span.token_start as int]
        },
        markers.2 == encoded.token_ids@[span_end(span) - 1],
{
    assert(encoded.token_ids@.len() == encoded.token_ids.len());
    let begin: i32 = encoded.token_ids[span.token_start];
    let end: i32 = encoded.token_ids[span.token_start + (span.token_len - 1)];
    let placeholder: i32 = if span.token_len >= 3 {
        encoded.token_ids[span.token_start + 1]
    } else {
        begin
    };
    (begin, placeholder, end)
}

proof fn lemma_well_placed_spans(
    kind: MediaKind,
    spans: Seq<PlaceholderSpan>,
    counts: Seq<usize>,
    prompt_len: int,
    k: nat,
)
    requires
        k <= spans.len(),
        prompt_len <= usize::MAX,
        spans_accepted(spans, counts, prompt_len, spans.len() as int),
    ensures
        spans_rejection(kind, spans, counts, prompt_len, k) is None,
    decreases k,
{
    if k > 0 {
        lemma_well_placed_spans(kind, spans, counts, prompt_len, (k - 1) as nat);
        let last = spans[k - 1];
        if k > 1 {
            assert(span_end(spans[k - 2]) <= last.token_start);
        }
    }
}

/// The spans of one kind are accepted exactly where there is one for each medium and they are well
/// placed: long enough for their markers, inside the prompt, one behind the other, each for another
/// medium that has embeddings.
pub proof fn spans_are_accepted_where_well_placed(
    kind: MediaKind,
    spans: Seq<PlaceholderSpan>,
    counts: Seq<usize>,
    prompt_len: int,
)
    requires
        0 <= prompt_len <= usize::MAX,
    ensures
        modality_rejection(kind, spans, counts, prompt_len) is None <==> {
            &&& spans.len() == counts.len()
            &&& forall|i: int|
                0 <= i < spans.len() ==> {
                    let span = #[trigger] spans[i];
                    &&& span.token_len >= 1
                    &&& !span.replace_marker ==> span.token_len >= 2
                    &&& span.token_start + span.token_len <= prompt_len
                    &&& span.media_index < counts.len()
                    &&& counts[span.media_index as int] > 0
                }
            &&& forall|i: int, j: int|
                0 <= i < j < spans.len() ==> (#[trigger] spans[i]).token_start + spans[i].token_len
                    <= (#[trigger] spans[j]).token_start && spans[i].media_index
                    != spans[j].media_index
        },
{
    if spans.len() == counts.len() {
        if modality_rejection(kind, spans, counts, prompt_len) is None {
            lemma_spans_accepted(kind, spans, counts, prompt_len, spans.len());
            assert(forall|i: int|
                0 <= i < spans.len() ==> minimum_len(#[trigger] spans[i]) <= spans[i].token_len
                    && span_end(spans[i]) <= prompt_len);
            assert(forall|i: int, j: int|
                0 <= i < j < spans.len() ==> span_end(#[trigger] spans[i]) <= (
                #[trigger] spans[j]).token_start);
        } else if spans_accepted(spans, counts, prompt_len, spans.len() as int) {
            lemma_well_placed_spans(kind, spans, counts, prompt_len, spans.len());
        }
    }
}

proof fn lemma_len_adds_up(count: int, plans: Seq<MediaSpanPlan>, k: nat)
    requires
        k <= plans.len(),
    ensures
        expanded_len(count, plans, k) matches Ok(len) ==> len + plans.take(k as int).fold_left(
            0int,
            |sum: int, plan: MediaSpanPlan| sum + plan.span.token_len,
        ) == count + plans.take(k as int).fold_left(
            0int,
            |sum: int, plan: MediaSpanPlan|
                sum + plan.embedding_tokens + (if plan.span.replace_marker {
                    0int
                } else {
                    2int
                }),
        ),
    decreases k,
{
    if k > 0 {
        lemma_len_adds_up(count, plans, (k - 1) as nat);
        let front = plans.take(k as int);
        assert(front.drop_last() =~= plans.take(k - 1));
        assert(front.last() == plans[k - 1]);
    }
}

/// An expanded prompt loses the tokens of the spans and gains the embeddings of the media, with the
/// two markers of each span that keeps them.
pub proof fn expanded_lengths_add_up(count: int, plans: Seq<MediaSpanPlan>)
    ensures
        expanded_len(count, plans, plans.len()) matches Ok(len) ==> len + plans.fold_left(
            0int,
            |sum: int, plan: MediaSpanPlan| sum + plan.span.token_len,
        ) == count + plans.fold_left(
            0int,
            |sum: int, plan: MediaSpanPlan|
                sum + plan.embedding_tokens + (if plan.span.replace_marker {
                    0int
                } else {
                    2int
                }),
        ),
{
    lemma_len_adds_up(count, plans, plans.len());
    assert(plans.take(plans.len() as int) =~= plans);
}

} // verus!
