//! Image blocks of a prompt and the keys that each query sees.
use crate::text::Text;
use std::ops::Range;
use vstd::prelude::*;

verus! {

/// A run of prompt tokens that stand for one image.
#[derive(Clone, Copy, Debug, PartialEq, Eq, Structural)]
pub struct MediaAttentionBlock {
    pub token_start: usize,
    pub token_len: usize,
    pub media_index: usize,
}

/// The image blocks of a prompt.
#[derive(Debug)]
pub struct MediaAttentionPlan {
    prompt_tokens: usize,
    blocks: Vec<MediaAttentionBlock>,
}

/// Why blocks or chunks are not accepted.
#[derive(Clone, Copy, Debug, PartialEq, Eq, Structural)]
pub enum AttentionError {
    BlockOverflow,
    InvalidBlocks,
    InvalidChunk,
    InsideBlock,
    LimitSplitsBlock,
}

impl AttentionError {
    /// The message text of the error.
    pub open spec fn text(self) -> Seq<char> {
        match self {
            AttentionError::BlockOverflow => "image attention block range overflow"@,
            AttentionError::InvalidBlocks =>
                "image attention blocks must be nonempty, ordered, disjoint, and within the prompt"@,
            AttentionError::InvalidChunk => "invalid media prefill chunk range or size"@,
            AttentionError::InsideBlock => "media prefill cannot resume inside an image block"@,
            AttentionError::LimitSplitsBlock => "media prefill limit splits an image block"@,
        }
    }

    /// The message text of the error.
    pub fn message(self) -> (message: String)
        ensures
            message@ == self.text(),
    {
        match self {
            AttentionError::BlockOverflow => Text::start(
                "image attention block range overflow",
            ).finish(),
            AttentionError::InvalidBlocks => Text::start(
                "image attention blocks must be nonempty, ordered, disjoint, and within the prompt",
            ).finish(),
            AttentionError::InvalidChunk => Text::start(
                "invalid media prefill chunk range or size",
            ).finish(),
            AttentionError::InsideBlock => Text::start(
                "media prefill cannot resume inside an image block",
            ).finish(),
            AttentionError::LimitSplitsBlock => Text::start(
                "media prefill limit splits an image block",
            ).finish(),
        }
    }
}

/// The end of a block.
pub open spec fn block_end(block: MediaAttentionBlock) -> int {
    block.token_start + block.token_len
}

/// The end of the block before block `k`.
pub open spec fn end_before(blocks: Seq<MediaAttentionBlock>, k: int) -> int {
    if k <= 0 {
        0
    } else {
        block_end(blocks[k - 1])
    }
}

/// What is wrong with one of the first `k` blocks, the first one where anything is.
pub open spec fn blocks_rejection(
    prompt_tokens: usize,
    blocks: Seq<MediaAttentionBlock>,
    k: nat,
) -> Option<AttentionError>
    decreases k,
{
    if k == 0 {
        None
    } else {
        match blocks_rejection(prompt_tokens, blocks, (k - 1) as nat) {
            Some(error) => Some(error),
            None => {
                let block = blocks[k - 1];
                if block_end(block) > usize::MAX {
                    Some(AttentionError::BlockOverflow)
                } else if block.token_len == 0 || block.token_start < end_before(blocks, k - 1)
                    || block_end(block) > prompt_tokens {
                    Some(AttentionError::InvalidBlocks)
                } else {
                    None
                }
            },
        }
    }
}

/// Whether blocks are not empty, in order, disjoint and within the prompt.
pub open spec fn well_placed(prompt_tokens: int, blocks: Seq<MediaAttentionBlock>) -> bool {
    &&& forall|i: int|
        0 <= i < blocks.len() ==> (#[trigger] blocks[i]).token_len > 0 && block_end(blocks[i])
            <= prompt_tokens
    &&& forall|i: int, j: int|
        0 <= i < j < blocks.len() ==> block_end(#[trigger] blocks[i]) <= (
        #[trigger] blocks[j]).token_start
}

proof fn lemma_blocks_accepted(prompt_tokens: usize, blocks: Seq<MediaAttentionBlock>, k: nat)
    requires
        k <= blocks.len(),
        blocks_rejection(prompt_tokens, blocks, k) is None,
    ensures
        well_placed(prompt_tokens as int, blocks.take(k as int)),
    decreases k,
{
    let now = blocks.take(k as int);
    if k > 0 {
        let m = (k - 1) as nat;
        lemma_blocks_accepted(prompt_tokens, blocks, m);
        let front = blocks.take(m as int);
        assert forall|i: int| 0 <= i < now.len() implies (#[trigger] now[i]).token_len > 0
            && block_end(now[i]) <= prompt_tokens by {
            if i < m {
                assert(front[i] == now[i]);
            }
        }
        assert forall|i: int, j: int| 0 <= i < j < now.len() implies block_end(#[trigger] now[i])
            <= (#[trigger] now[j]).token_start by {
            assert(front[i] == now[i]);
            if j < m {
                assert(front[j] == now[j]);
            } else if i < m - 1 {
                assert(block_end(front[i]) <= front[m - 1].token_start);
                assert(front[m - 1].token_len > 0);
            }
        }
    }
}

proof fn lemma_first_block_rejection(
    prompt_tokens: usize,
    blocks: Seq<MediaAttentionBlock>,
    k: nat,
    n: nat,
)
    requires
        k <= n,
        blocks_rejection(prompt_tokens, blocks, k) is Some,
    ensures
        blocks_rejection(prompt_tokens, blocks, n) == blocks_rejection(prompt_tokens, blocks, k),
    decreases n,
{
    if k < n {
        lemma_first_block_rejection(prompt_tokens, blocks, k, (n - 1) as nat);
    }
}

impl MediaAttentionPlan {
    /// The number of tokens of the prompt.
    pub closed spec fn tokens(&self) -> usize {
        self.prompt_tokens
    }

    /// The blocks in order.
    pub closed spec fn block_list(&self) -> Seq<MediaAttentionBlock> {
        self.blocks@
    }

    /// The blocks are not empty, in order, disjoint and within the prompt.
    pub open spec fn wf(&self) -> bool {
        well_placed(self.tokens() as int, self.block_list())
    }

    /// Whether block `i` holds a position.
    pub open spec fn holds(&self, i: int, position: int) -> bool {
        0 <= i < self.block_list().len() && self.block_list()[i].token_start <= position
            < block_end(self.block_list()[i])
    }

    /// A position is in one block at most.
    pub proof fn lemma_one_holder(&self, i: int, j: int, position: int)
        requires
            self.wf(),
            self.holds(i, position),
            self.holds(j, position),
        ensures
            i == j,
    {
        if i < j {
            assert(block_end(self.block_list()[i]) <= self.block_list()[j].token_start);
        } else if j < i {
            assert(block_end(self.block_list()[j]) <= self.block_list()[i].token_start);
        }
    }

    /// Whether a position lies in no block.
    pub open spec fn outside(&self, position: int) -> bool {
        forall|i: int| !#[trigger] self.holds(i, position)
    }

    /// A plan of the given blocks.
    pub fn new(prompt_tokens: usize, blocks: Vec<MediaAttentionBlock>) -> (result: Result<
        MediaAttentionPlan,
        AttentionError,
    >)
        ensures
            match result {
                Ok(plan) => blocks_rejection(prompt_tokens, blocks@, blocks@.len()) is None
                    && plan.wf() && plan.tokens() == prompt_tokens && plan.block_list() == blocks@,
                Err(error) => blocks_rejection(prompt_tokens, blocks@, blocks@.len()) == Some(
                    error,
                ),
            },
    {
        let mut previous_end: usize = 0;
        let mut k: usize = 0;
        while k < blocks.len()
            invariant
                k <= blocks@.len(),
                previous_end == end_before(blocks@, k as int),
                blocks_rejection(prompt_tokens, blocks@, k as nat) is None,
            decreases blocks.len() - k,
        {
            let block = blocks[k];
            proof {
                if blocks_rejection(prompt_tokens, blocks@, (k + 1) as nat) is Some {
                    lemma_first_block_rejection(
                        prompt_tokens,
                        blocks@,
                        (k + 1) as nat,
                        blocks@.len(),
                    );
                }
            }
            let end: usize = match block.token_start.checked_add(block.token_len) {
                Some(end) => end,
                None => return Err(AttentionError::BlockOverflow),
            };
            if block.token_len == 0 || block.token_start < previous_end || end > prompt_tokens {
                return Err(AttentionError::InvalidBlocks);
            }
            previous_end = end;
            k = k + 1;
        }
        proof {
            lemma_blocks_accepted(prompt_tokens, blocks@, blocks@.len());
            assert(blocks@.take(blocks@.len() as int) =~= blocks@);
        }
        Ok(MediaAttentionPlan { prompt_tokens, blocks })
    }

    /// The number of blocks that start at or before a position.
    fn started(&self, position: usize) -> (index: usize)
        requires
            self.wf(),
        ensures
            index <= self.block_list().len(),
            forall|i: int|
                0 <= i < index ==> (#[trigger] self.block_list()[i]).token_start <= position,
            forall|i: int|
                index <= i < self.block_list().len() ==> (
                #[trigger] self.block_list()[i]).token_start > position,
    {
        let mut low: usize = 0;
        let mut high: usize = self.blocks.len();
        while low < high
            invariant
                self.wf(),
                self.block_list() == self.blocks@,
                low <= high <= self.blocks@.len(),
                forall|i: int|
                    0 <= i < low ==> (#[trigger] self.block_list()[i]).token_start <= position,
                forall|i: int|
                    high <= i < self.blocks@.len() ==> (#[trigger] self.block_list()[i]).token_start
                        > position,
            decreases high - low,
        {
            let mid: usize = low + (high - low) / 2;
            if self.blocks[mid].token_start <= position {
                proof {
                    assert forall|i: int| 0 <= i < mid + 1 implies (
                    #[trigger] self.block_list()[i]).token_start <= position by {
                        if i < mid {
                            assert(block_end(self.block_list()[i])
                                <= self.block_list()[mid as int].token_start);
                        }
                    }
                }
                low = mid + 1;
            } else {
                proof {
                    assert forall|i: int| mid <= i < self.blocks@.len() implies (
                    #[trigger] self.block_list()[i]).token_start > position by {
                        if i > mid {
                            assert(block_end(self.block_list()[mid as int])
                                <= self.block_list()[i].token_start);
                        }
                    }
                }
                high = mid;
            }
        }
        low
    }

    /// The block that holds a position.
    pub fn block_at(&self, position: usize) -> (block: Option<MediaAttentionBlock>)
        requires
            self.wf(),
        ensures
            match block {
                Some(b) => exists|i: int| #[trigger]
                    self.holds(i, position as int) && self.block_list()[i] == b,
                None => self.outside(position as int),
            },
            block matches Some(b) ==> b.token_start <= position < block_end(b) <= self.tokens(),
    {
        let index: usize = self.started(position);
        if index == 0 {
            return None;
        }
        let block = self.blocks[index - 1];
        assert(self.block_list()[index - 1] == block);
        if position - block.token_start < block.token_len {
            assert(self.holds(index - 1, position as int));
            Some(block)
        } else {
            proof {
                assert forall|i: int| !#[trigger] self.holds(i, position as int) by {
                    if 0 <= i < index - 1 {
                        assert(block_end(self.block_list()[i])
                            <= self.block_list()[index - 1].token_start);
                    }
                }
            }
            None
        }
    }

    /// The start of the first block that starts in `from..to`.
    fn next_start(&self, from: usize, to: usize) -> (start: Option<usize>)
        requires
            self.wf(),
        ensures
            match start {
                Some(s) => from <= s < to && (exists|i: int|
                    0 <= i < self.block_list().len() && (#[trigger] self.block_list()[i]).token_start
                        == s) && forall|i: int|
                    0 <= i < self.block_list().len() && from <= (
                    #[trigger] self.block_list()[i]).token_start
                        ==> self.block_list()[i].token_start >= s,
                None => forall|i: int|
                    0 <= i < self.block_list().len() ==> !(from <= (
                    #[trigger] self.block_list()[i]).token_start < to),
            },
    {
        let mut i: usize = 0;
        while i < self.blocks.len()
            invariant
                self.wf(),
                self.block_list() == self.blocks@,
                i <= self.blocks@.len(),
                forall|k: int|
                    0 <= k < i ==> !(from <= (#[trigger] self.block_list()[k]).token_start < to),
            decreases self.blocks.len() - i,
        {
            let block = self.blocks[i];
            if block.token_start >= from && block.token_start < to {
                proof {
                    assert(self.block_list()[i as int] == block);
                    assert forall|k: int|
                        0 <= k < self.block_list().len() && from <= (
                        #[trigger] self.block_list()[k]).token_start implies self.block_list()[k].token_start
                        >= block.token_start by {
                        if k > i {
                            assert(block_end(self.block_list()[i as int])
                                <= self.block_list()[k].token_start);
                        } else if k < i {
                            assert(block_end(self.block_list()[k])
                                <= self.block_list()[i as int].token_start);
                        }
                    }
                }
                return Some(block.token_start);
            }
            i = i + 1;
        }
        None
    }

    /// The end of the chunk that starts at `start`: a block is a chunk of its own, and text stops
    /// before the next block.
    pub fn chunk_end(&self, start: usize, limit: usize, chunk: usize) -> (result: Result<
        usize,
        AttentionError,
    >)
        requires
            self.wf(),
        ensures
            self.ends_chunk(start, limit, chunk, result),
    {
        if chunk == 0 || start >= limit || limit > self.prompt_tokens {
            return Err(AttentionError::InvalidChunk);
        }
        match self.block_at(start) {
            Some(block) => {
                let ghost i = choose|i: int| #[trigger]
                    self.holds(i, start as int) && self.block_list()[i] == block;
                if start != block.token_start {
                    return Err(AttentionError::InsideBlock);
                }
                let end: usize = block.token_start + block.token_len;
                if end > limit {
                    return Err(AttentionError::LimitSplitsBlock);
                }
                Ok(end)
            },
            None => {
                let wide: usize = start.saturating_add(chunk);
                let end: usize = if wide < limit { wide } else { limit };
                match self.next_start(start, end) {
                    Some(s) => {
                        proof {
                            let i = choose|i: int|
                                0 <= i < self.block_list().len() && (
                                #[trigger] self.block_list()[i]).token_start == s;
                            assert(self.block_list()[i].token_len > 0);
                            assert(!self.holds(i, start as int));
                        }
                        Ok(s)
                    },
                    None => Ok(end),
                }
            },
        }
    }

    /// Whether `result` is the end of the chunk that starts at `start`.
    pub open spec fn ends_chunk(
        &self,
        start: usize,
        limit: usize,
        chunk: usize,
        result: Result<usize, AttentionError>,
    ) -> bool {
        if chunk == 0 || start >= limit || limit > self.tokens() {
            result == Err::<usize, AttentionError>(AttentionError::InvalidChunk)
        } else if !self.outside(start as int) {
            exists|i: int| #[trigger]
                self.holds(i, start as int) && {
                    let block = self.block_list()[i];
                    if start != block.token_start {
                        result == Err::<usize, AttentionError>(AttentionError::InsideBlock)
                    } else if block_end(block) > limit {
                        result == Err::<usize, AttentionError>(AttentionError::LimitSplitsBlock)
                    } else {
                        result == Ok::<usize, AttentionError>(block_end(block) as usize)
                    }
                }
        } else {
            let end = if start + chunk < limit {
                start + chunk
            } else {
                limit as int
            };
            &&& result is Ok
            &&& start < result->Ok_0 <= end
            &&& forall|i: int|
                0 <= i < self.block_list().len() && start <= (
                #[trigger] self.block_list()[i]).token_start ==> self.block_list()[i].token_start
                    >= result->Ok_0 || self.block_list()[i].token_start >= end
            &&& result->Ok_0 == end || exists|i: int|
                0 <= i < self.block_list().len() && (#[trigger] self.block_list()[i]).token_start
                    == result->Ok_0
        }
    }
}

/// A chunk is either one whole block or holds no position of any block, and the place behind it
/// is again the start of a block or outside all blocks: going on from there never splits a block.
pub proof fn chunks_never_split_blocks(
    plan: MediaAttentionPlan,
    start: usize,
    limit: usize,
    chunk: usize,
    end: usize,
)
    requires
        plan.wf(),
        plan.ends_chunk(start, limit, chunk, Ok(end)),
    ensures
        start < end <= limit,
        (exists|i: int| #[trigger]
            plan.holds(i, start as int) && plan.block_list()[i].token_start == start && block_end(
                plan.block_list()[i],
            ) == end) || (forall|p: int| start <= p < end ==> #[trigger] plan.outside(p)),
        forall|i: int| #[trigger]
            plan.holds(i, end as int) ==> plan.block_list()[i].token_start == end,
{
    let blocks = plan.block_list();
    if !plan.outside(start as int) {
        let i = choose|i: int| #[trigger]
            plan.holds(i, start as int) && {
                let block = plan.block_list()[i];
                if start != block.token_start {
                    Ok::<usize, AttentionError>(end) == Err::<usize, AttentionError>(
                        AttentionError::InsideBlock,
                    )
                } else if block_end(block) > limit {
                    Ok::<usize, AttentionError>(end) == Err::<usize, AttentionError>(
                        AttentionError::LimitSplitsBlock,
                    )
                } else {
                    Ok::<usize, AttentionError>(end) == Ok::<usize, AttentionError>(
                        block_end(block) as usize,
                    )
                }
            };
        assert(plan.holds(i, start as int));
        assert(blocks[i].token_len > 0);
        assert(block_end(blocks[i]) == end);
        assert forall|j: int| #[trigger] plan.holds(j, end as int) implies blocks[j].token_start
            == end by {
            if j > i {
                assert(block_end(blocks[i]) <= blocks[j].token_start);
            } else if j < i {
                assert(block_end(blocks[j]) <= blocks[i].token_start);
            }
        }
    } else {
        assert forall|p: int| start <= p < end implies #[trigger] plan.outside(p) by {
            assert forall|j: int| !#[trigger] plan.holds(j, p) by {
                if plan.holds(j, p) {
                    assert(!plan.holds(j, start as int));
                }
            }
        }
        assert forall|j: int| #[trigger] plan.holds(j, end as int) implies blocks[j].token_start
            == end by {
            assert(!plan.holds(j, start as int));
            if blocks[j].token_start != end {
                assert(start < blocks[j].token_start < end);
            }
        }
    }
}

/// How the tokens of an image see each other.
#[derive(Clone, Copy, Debug, PartialEq, Eq, Structural)]
pub enum ImageAttentionMode {
    Causal,
    Bidirectional,
}

/// Which keys the queries of each layer see.
#[derive(Debug)]
pub struct LanguageAttentionPolicy {
    pub layer_windows: Vec<Option<usize>>,
    pub image_mode: ImageAttentionMode,
}

impl Default for LanguageAttentionPolicy {
    fn default() -> (policy: LanguageAttentionPolicy)
        ensures
            policy.layer_windows@.len() == 0,
            policy.image_mode == ImageAttentionMode::Causal,
    {
        LanguageAttentionPolicy {
            layer_windows: Vec::new(),
            image_mode: ImageAttentionMode::Causal,
        }
    }
}

impl LanguageAttentionPolicy {
    /// The first key within the window of a layer, for keys that end at `end`.
    pub open spec fn window_start(&self, layer: usize, end: int) -> int {
        if layer < self.layer_windows@.len() {
            match self.layer_windows@[layer as int] {
                Some(window) => if window < end {
                    end - window
                } else {
                    0
                },
                None => 0,
            }
        } else {
            0
        }
    }

    /// The keys that a query sees: those of the window up to itself, and, where images are seen
    /// in both directions, all keys of its own image.
    pub fn visible_keys(&self, plan: &MediaAttentionPlan, layer: usize, query: usize) -> (keys:
        Range<usize>)
        requires
            plan.wf(),
            query < usize::MAX,
        ensures
            if self.image_mode == ImageAttentionMode::Bidirectional && !plan.outside(
                query as int,
            ) {
                exists|i: int| #[trigger]
                    plan.holds(i, query as int) && keys.end == block_end(plan.block_list()[i])
                        && keys.start == if self.window_start(layer, query + 1)
                        < plan.block_list()[i].token_start {
                        self.window_start(layer, query + 1)
                    } else {
                        plan.block_list()[i].token_start as int
                    }
            } else {
                keys.start == self.window_start(layer, query + 1) && keys.end == query + 1
            },
    {
        let end: usize = query + 1;
        let start: usize = if layer < self.layer_windows.len() {
            match self.layer_windows[layer] {
                Some(window) => end.saturating_sub(window),
                None => 0,
            }
        } else {
            0
        };
        if self.image_mode == ImageAttentionMode::Bidirectional {
            match plan.block_at(query) {
                Some(block) => {
                    let first: usize = if start < block.token_start {
                        start
                    } else {
                        block.token_start
                    };
                    return first..block.token_start + block.token_len;
                },
                None => {},
            }
        }
        start..end
    }
}

/// Blocks are accepted exactly where each of them holds a token, ends within the prompt and begins
/// behind the ones before it.
pub proof fn blocks_are_accepted_where_well_placed(
    prompt_tokens: usize,
    blocks: Seq<MediaAttentionBlock>,
)
    ensures
        blocks_rejection(prompt_tokens, blocks, blocks.len()) is None <==> {
            &&& forall|i: int|
                0 <= i < blocks.len() ==> (#[trigger] blocks[i]).token_len > 0
                    && blocks[i].token_start + blocks[i].token_len <= prompt_tokens
            &&& forall|i: int, j: int|
                0 <= i < j < blocks.len() ==> (#[trigger] blocks[i]).token_start
                    + blocks[i].token_len <= (#[trigger] blocks[j]).token_start
        },
{
    if blocks_rejection(prompt_tokens, blocks, blocks.len()) is None {
        lemma_blocks_accepted(prompt_tokens, blocks, blocks.len());
        assert(blocks.take(blocks.len() as int) =~= blocks);
    }
    if well_placed(prompt_tokens as int, blocks) {
        lemma_placed_accepted(prompt_tokens, blocks, blocks.len());
    }
}

proof fn lemma_placed_accepted(prompt_tokens: usize, blocks: Seq<MediaAttentionBlock>, k: nat)
    requires
        k <= blocks.len(),
        well_placed(prompt_tokens as int, blocks),
    ensures
        blocks_rejection(prompt_tokens, blocks, k) is None,
    decreases k,
{
    if k > 0 {
        lemma_placed_accepted(prompt_tokens, blocks, (k - 1) as nat);
        assert(blocks[k - 1].token_len > 0);
        if k > 1 {
            assert(block_end(blocks[k - 2]) <= blocks[k - 1].token_start);
        }
    }
}

/// From outside the blocks, text goes on as far as asked for: only the limit or the start of a
/// block ends its chunk earlier.
pub proof fn text_goes_on_to_the_next_block(
    plan: MediaAttentionPlan,
    start: usize,
    limit: usize,
    chunk: usize,
    result: Result<usize, AttentionError>,
)
    requires
        plan.wf(),
        plan.ends_chunk(start, limit, chunk, result),
        forall|i: int|
            0 <= i < plan.block_list().len() ==> start < (
            #[trigger] plan.block_list()[i]).token_start || plan.block_list()[i].token_start
                + plan.block_list()[i].token_len <= start,
    ensures
        chunk > 0 && start < limit <= plan.tokens() <==> result is Ok,
        result matches Ok(end) ==> start < end <= limit && end <= start + chunk && (end == limit
            || end == start + chunk || exists|i: int|
            0 <= i < plan.block_list().len() && (#[trigger] plan.block_list()[i]).token_start
                == end),
        result matches Ok(end) ==> forall|i: int|
            0 <= i < plan.block_list().len() ==> !(start <= (
            #[trigger] plan.block_list()[i]).token_start < end),
{
    assert forall|i: int| !#[trigger] plan.holds(i, start as int) by {
        if 0 <= i < plan.block_list().len() {
            assert(plan.block_list()[i].token_len >= 0);
        }
    }
    assert(plan.outside(start as int));
}

/// From the start of a block the chunk is the block; within a block, or where the limit lies within
/// the block, there is none.
pub proof fn a_block_is_its_own_chunk(
    plan: MediaAttentionPlan,
    k: int,
    start: usize,
    limit: usize,
    chunk: usize,
    result: Result<usize, AttentionError>,
)
    requires
        plan.wf(),
        plan.ends_chunk(start, limit, chunk, result),
        0 <= k < plan.block_list().len(),
        plan.block_list()[k].token_start <= start < plan.block_list()[k].token_start
            + plan.block_list()[k].token_len,
        chunk > 0,
        start < limit <= plan.tokens(),
    ensures
        start > plan.block_list()[k].token_start ==> result == Err::<usize, AttentionError>(
            AttentionError::InsideBlock,
        ),
        start == plan.block_list()[k].token_start ==> if start + plan.block_list()[k].token_len
            <= limit {
            result is Ok && result->Ok_0 == start + plan.block_list()[k].token_len
        } else {
            result == Err::<usize, AttentionError>(AttentionError::LimitSplitsBlock)
        },
{
    assert(plan.holds(k, start as int));
    assert(!plan.outside(start as int));
    let i = choose|i: int| #[trigger]
        plan.holds(i, start as int) && {
            let block = plan.block_list()[i];
            if start != block.token_start {
                result == Err::<usize, AttentionError>(AttentionError::InsideBlock)
            } else if block_end(block) > limit {
                result == Err::<usize, AttentionError>(AttentionError::LimitSplitsBlock)
            } else {
                result == Ok::<usize, AttentionError>(block_end(block) as usize)
            }
        };
    plan.lemma_one_holder(i, k, start as int);
}

/// A query sees no more keys than the window of its layer, and all of them where there are no more
/// or the layer has no window.
pub proof fn windows_hold_the_last_keys(policy: LanguageAttentionPolicy, layer: usize, end: int)
    requires
        end >= 0,
    ensures
        ({
            let seen = end - policy.window_start(layer, end);
            if layer < policy.layer_windows@.len() && policy.layer_windows@[layer as int] is Some {
                let window = policy.layer_windows@[layer as int]->Some_0;
                seen <= window && seen <= end && (seen == window || seen == end)
            } else {
                seen == end
            }
        }),
{
}

} // verus!
