//! Attention in blocks of queries, for matrix routines that take 32-bit extents.
use super::encoders::AttentionExtents;
use crate::tables::{lemma_place_row, lemma_row_place};
use crate::text::Text;
use vstd::prelude::*;

verus! {

/// The most queries of a block.
pub const ATTENTION_QUERY_BLOCK: usize = 128;

/// The largest extent that the matrix routines take.
pub const MOST_EXTENT: usize = 0x7fff_ffff;

/// Why an attention cannot be run in blocks.
#[derive(Clone, Copy, Debug, PartialEq, Eq, Structural)]
pub enum AttentionBlockError {
    Tokens,
    HeadDimension,
    Stride,
    ScoreScratch,
    OutputScratch,
    ScoreBlock,
}

impl AttentionBlockError {
    /// The message text of the error.
    pub open spec fn text(self) -> Seq<char> {
        match self {
            AttentionBlockError::Tokens => "encoder attention token count exceeds c_int"@,
            AttentionBlockError::HeadDimension =>
                "encoder attention head dimension exceeds c_int"@,
            AttentionBlockError::Stride => "encoder attention stride exceeds c_int"@,
            AttentionBlockError::ScoreScratch => "encoder attention score scratch overflow"@,
            AttentionBlockError::OutputScratch => "encoder attention output scratch overflow"@,
            AttentionBlockError::ScoreBlock => "encoder attention score block exceeds c_int"@,
        }
    }

    /// The message text of the error.
    pub fn message(self) -> (message: String)
        ensures
            message@ == self.text(),
    {
        match self {
            AttentionBlockError::Tokens => Text::start(
                "encoder attention token count exceeds c_int",
            ).finish(),
            AttentionBlockError::HeadDimension => Text::start(
                "encoder attention head dimension exceeds c_int",
            ).finish(),
            AttentionBlockError::Stride => Text::start(
                "encoder attention stride exceeds c_int",
            ).finish(),
            AttentionBlockError::ScoreScratch => Text::start(
                "encoder attention score scratch overflow",
            ).finish(),
            AttentionBlockError::OutputScratch => Text::start(
                "encoder attention output scratch overflow",
            ).finish(),
            AttentionBlockError::ScoreBlock => Text::start(
                "encoder attention score block exceeds c_int",
            ).finish(),
        }
    }
}

/// The queries of one head that are computed together.
#[derive(Clone, Copy, Debug, PartialEq, Eq, Structural)]
pub struct QueryBlock {
    pub sequence_start: usize,
    pub head_offset: usize,
    pub query_start: usize,
    pub rows: usize,
}

/// The number of blocks that the queries of one head take.
pub open spec fn blocks_per_head(tokens: int) -> int {
    (tokens + ATTENTION_QUERY_BLOCK - 1) / ATTENTION_QUERY_BLOCK as int
}

/// The number of rows of the largest block.
pub open spec fn block_capacity(tokens: int) -> int {
    if tokens < ATTENTION_QUERY_BLOCK {
        tokens
    } else {
        ATTENTION_QUERY_BLOCK as int
    }
}

/// The block of a head that begins at a query.
pub open spec fn block_from(
    e: AttentionExtents,
    sequence: int,
    head: int,
    start: int,
) -> QueryBlock {
    QueryBlock {
        sequence_start: (sequence * e.tokens_per_sequence) as usize,
        head_offset: (head * e.head_dim) as usize,
        query_start: start as usize,
        rows: block_capacity(e.tokens_per_sequence - start) as usize,
    }
}

/// Block `b`: sequence by sequence, head by head, and from the first query on.
pub open spec fn block_at(e: AttentionExtents, b: int) -> QueryBlock {
    let per_head = blocks_per_head(e.tokens_per_sequence as int);
    block_from(
        e,
        b / per_head / e.head_count as int,
        b / per_head % e.head_count as int,
        (b % per_head) * ATTENTION_QUERY_BLOCK,
    )
}

/// The number of blocks.
pub open spec fn block_count(e: AttentionExtents) -> int {
    e.sequence_count * e.head_count * blocks_per_head(e.tokens_per_sequence as int)
}

/// Why an attention cannot be run in blocks, if it cannot.
pub open spec fn blocks_problem(e: AttentionExtents) -> Option<AttentionBlockError> {
    let tokens = e.tokens_per_sequence as int;
    let capacity = block_capacity(tokens);
    if tokens > MOST_EXTENT {
        Some(AttentionBlockError::Tokens)
    } else if e.head_dim > MOST_EXTENT {
        Some(AttentionBlockError::HeadDimension)
    } else if e.head_count * e.head_dim > MOST_EXTENT {
        Some(AttentionBlockError::Stride)
    } else if capacity * tokens > usize::MAX {
        Some(AttentionBlockError::ScoreScratch)
    } else if capacity * e.head_dim > usize::MAX {
        Some(AttentionBlockError::OutputScratch)
    } else if block_count(e) > 0 && capacity * tokens > MOST_EXTENT {
        Some(AttentionBlockError::ScoreBlock)
    } else {
        None
    }
}

proof fn lemma_block_place(e: AttentionExtents, sequence: int, head: int, block: int)
    requires
        0 <= sequence < e.sequence_count,
        0 <= head < e.head_count,
        0 <= block < blocks_per_head(e.tokens_per_sequence as int),
    ensures
        ({
            let per_head = blocks_per_head(e.tokens_per_sequence as int);
            let b = (sequence * e.head_count + head) * per_head + block;
            &&& 0 <= b < block_count(e)
            &&& block_at(e, b) == block_from(e, sequence, head, block * ATTENTION_QUERY_BLOCK)
        }),
{
    let per_head = blocks_per_head(e.tokens_per_sequence as int);
    lemma_row_place(e.sequence_count as int, e.head_count as int, sequence, head);
    lemma_row_place(
        e.sequence_count * e.head_count,
        per_head,
        sequence * e.head_count + head,
        block,
    );
}

proof fn lemma_block_starts(tokens: int, block: int)
    requires
        0 <= block,
        tokens >= 0,
    ensures
        block < blocks_per_head(tokens) <==> block * ATTENTION_QUERY_BLOCK < tokens,
{
    let n = tokens + 127;
    assert(blocks_per_head(tokens) == n / 128);
    assert(n == 128 * (n / 128) + n % 128);
}

/// The blocks of one head.
fn push_head_blocks(
    e: AttentionExtents,
    sequence: usize,
    head: usize,
    blocks: &mut Vec<QueryBlock>,
)
    requires
        sequence < e.sequence_count,
        head < e.head_count,
        e.head_count * e.head_dim <= usize::MAX,
        e.sequence_count * e.tokens_per_sequence <= usize::MAX,
        e.tokens_per_sequence <= MOST_EXTENT,
        ({
            let per_head = blocks_per_head(e.tokens_per_sequence as int);
            old(blocks)@ == Seq::new(
                ((sequence * e.head_count + head) * per_head) as nat,
                |b: int| block_at(e, b),
            )
        }),
    ensures
        ({
            let per_head = blocks_per_head(e.tokens_per_sequence as int);
            final(blocks)@ == Seq::new(
                ((sequence * e.head_count + head + 1) * per_head) as nat,
                |b: int| block_at(e, b),
            )
        }),
{
    let ghost per_head = blocks_per_head(e.tokens_per_sequence as int);
    let ghost row = sequence * e.head_count + head;
    proof {
        lemma_row_place(e.sequence_count as int, e.head_count as int, sequence as int, head as int);
        lemma_product_below(sequence as int, e.sequence_count as int, e.tokens_per_sequence as int);
        lemma_product_below(head as int, e.head_count as int, e.head_dim as int);
        assert((row + 1) * per_head == row * per_head + per_head) by (nonlinear_arith);
        assert(row * per_head >= 0) by (nonlinear_arith)
            requires
                row >= 0,
                per_head >= 0,
        ;
    }
    let sequence_start: usize = sequence * e.tokens_per_sequence;
    let head_offset: usize = head * e.head_dim;
    let mut query_start: usize = 0;
    let ghost mut block: int = 0;
    assert(blocks@ =~= Seq::new((row * per_head + block) as nat, |b: int| block_at(e, b)));
    while query_start < e.tokens_per_sequence
        invariant
            sequence < e.sequence_count,
            head < e.head_count,
            e.tokens_per_sequence <= MOST_EXTENT,
            per_head == blocks_per_head(e.tokens_per_sequence as int),
            row == sequence * e.head_count + head,
            row * per_head >= 0,
            sequence_start == sequence * e.tokens_per_sequence,
            head_offset == head * e.head_dim,
            0 <= block <= per_head,
            query_start == block * ATTENTION_QUERY_BLOCK,
            query_start < e.tokens_per_sequence + ATTENTION_QUERY_BLOCK,
            blocks@ == Seq::new((row * per_head + block) as nat, |b: int| block_at(e, b)),
        decreases e.tokens_per_sequence + ATTENTION_QUERY_BLOCK - query_start,
    {
        let left: usize = e.tokens_per_sequence - query_start;
        let rows: usize = if left < ATTENTION_QUERY_BLOCK {
            left
        } else {
            ATTENTION_QUERY_BLOCK
        };
        proof {
            lemma_block_starts(e.tokens_per_sequence as int, block);
            lemma_block_place(e, sequence as int, head as int, block);
        }
        blocks.push(QueryBlock { sequence_start, head_offset, query_start, rows });
        assert(blocks@ =~= Seq::new((row * per_head + block + 1) as nat, |b: int| block_at(e, b)));
        proof {
            block = block + 1;
        }
        query_start = query_start + ATTENTION_QUERY_BLOCK;
    }
    proof {
        lemma_block_starts(e.tokens_per_sequence as int, block);
        assert(block == per_head);
    }
}

proof fn lemma_product_below(i: int, n: int, d: int)
    requires
        0 <= i <= n,
        0 <= d,
    ensures
        0 <= i * d <= n * d,
{
    assert(0 <= i * d <= n * d) by (nonlinear_arith)
        requires
            0 <= i <= n,
            0 <= d,
    ;
}

/// Plans an attention in blocks.
pub fn plan_attention_blocks(e: AttentionExtents) -> (result: Result<
    Vec<QueryBlock>,
    AttentionBlockError,
>)
    requires
        e.head_count * e.head_dim <= usize::MAX,
        e.sequence_count * e.tokens_per_sequence <= usize::MAX,
    ensures
        match result {
            Ok(blocks) => blocks_problem(e) is None && blocks@ == Seq::new(
                block_count(e) as nat,
                |b: int| block_at(e, b),
            ),
            Err(error) => blocks_problem(e) == Some(error),
        },
{
    let tokens: usize = e.tokens_per_sequence;
    if tokens > MOST_EXTENT {
        return Err(AttentionBlockError::Tokens);
    }
    if e.head_dim > MOST_EXTENT {
        return Err(AttentionBlockError::HeadDimension);
    }
    assert(e.head_count * e.head_dim >= 0) by (nonlinear_arith);
    if e.head_count * e.head_dim > MOST_EXTENT {
        return Err(AttentionBlockError::Stride);
    }
    let capacity: usize = if tokens < ATTENTION_QUERY_BLOCK {
        tokens
    } else {
        ATTENTION_QUERY_BLOCK
    };
    let scores: usize = match capacity.checked_mul(tokens) {
        Some(scores) => scores,
        None => return Err(AttentionBlockError::ScoreScratch),
    };
    match capacity.checked_mul(e.head_dim) {
        Some(_) => {},
        None => return Err(AttentionBlockError::OutputScratch),
    }
    let ghost per_head = blocks_per_head(tokens as int);
    proof {
        lemma_block_starts(tokens as int, 0);
        let s = e.sequence_count as int;
        let h = e.head_count as int;
        assert(s * h * per_head > 0 <==> s > 0 && h > 0 && per_head > 0) by (nonlinear_arith)
            requires
                s >= 0,
                h >= 0,
                per_head >= 0,
        ;
        assert(scores > 0 ==> tokens > 0) by (nonlinear_arith)
            requires
                scores == capacity * tokens,
                tokens >= 0,
        ;
    }
    if scores > MOST_EXTENT && e.sequence_count > 0 && e.head_count > 0 {
        return Err(AttentionBlockError::ScoreBlock);
    }
    let mut blocks: Vec<QueryBlock> = Vec::new();
    let mut sequence: usize = 0;
    assert(0 * e.head_count * per_head == 0) by (nonlinear_arith);
    assert(blocks@ =~= Seq::new(
        (sequence * e.head_count * per_head) as nat,
        |b: int| block_at(e, b),
    ));
    while sequence < e.sequence_count
        invariant
            sequence <= e.sequence_count,
            e.head_count * e.head_dim <= usize::MAX,
            e.sequence_count * e.tokens_per_sequence <= usize::MAX,
            e.tokens_per_sequence <= MOST_EXTENT,
            per_head == blocks_per_head(e.tokens_per_sequence as int),
            blocks@ == Seq::new(
                (sequence * e.head_count * per_head) as nat,
                |b: int| block_at(e, b),
            ),
        decreases e.sequence_count - sequence,
    {
        let mut head: usize = 0;
        assert((sequence * e.head_count + 0) * per_head == sequence * e.head_count * per_head);
        while head < e.head_count
            invariant
                sequence < e.sequence_count,
                head <= e.head_count,
                e.head_count * e.head_dim <= usize::MAX,
                e.sequence_count * e.tokens_per_sequence <= usize::MAX,
                e.tokens_per_sequence <= MOST_EXTENT,
                per_head == blocks_per_head(e.tokens_per_sequence as int),
                blocks@ == Seq::new(
                    ((sequence * e.head_count + head) * per_head) as nat,
                    |b: int| block_at(e, b),
                ),
            decreases e.head_count - head,
        {
            push_head_blocks(e, sequence, head, &mut blocks);
            head = head + 1;
        }
        assert(sequence * e.head_count + e.head_count == (sequence + 1) * e.head_count)
            by (nonlinear_arith);
        sequence = sequence + 1;
    }
    Ok(blocks)
}

/// Whether a block holds a query of a head.
pub open spec fn holds_query(
    e: AttentionExtents,
    block: QueryBlock,
    sequence: int,
    head: int,
    token: int,
) -> bool {
    &&& block.sequence_start == sequence * e.tokens_per_sequence
    &&& block.head_offset == head * e.head_dim
    &&& block.query_start <= token < block.query_start + block.rows
}

/// Every query of every head of every sequence is in exactly one block.
pub proof fn every_query_is_in_one_block(
    e: AttentionExtents,
    sequence: int,
    head: int,
    token: int,
    b: int,
)
    requires
        e.head_count * e.head_dim <= usize::MAX,
        e.head_dim > 0,
        e.sequence_count * e.tokens_per_sequence <= usize::MAX,
        e.tokens_per_sequence <= MOST_EXTENT,
        0 <= sequence < e.sequence_count,
        0 <= head < e.head_count,
        0 <= token < e.tokens_per_sequence,
        0 <= b < block_count(e),
    ensures
        ({
            let per_head = blocks_per_head(e.tokens_per_sequence as int);
            let own = (sequence * e.head_count + head) * per_head + token
                / ATTENTION_QUERY_BLOCK as int;
            &&& 0 <= own < block_count(e)
            &&& holds_query(e, block_at(e, b), sequence, head, token) <==> b == own
        }),
{
    let per_head = blocks_per_head(e.tokens_per_sequence as int);
    let n = e.tokens_per_sequence as int;
    let place = token / 128;
    let own = (sequence * e.head_count + head) * per_head + place;
    assert(token == 128 * place + token % 128);
    lemma_block_starts(n, place);
    lemma_block_place(e, sequence, head, place);
    lemma_product_below(sequence, e.sequence_count as int, n);
    lemma_product_below(head, e.head_count as int, e.head_dim as int);
    lemma_place_row(e.sequence_count * e.head_count, per_head, b);
    let row = b / per_head;
    let other = b % per_head;
    lemma_place_row(e.sequence_count as int, e.head_count as int, row);
    let s = row / e.head_count as int;
    let h = row % e.head_count as int;
    lemma_block_starts(n, other);
    lemma_product_below(s, e.sequence_count as int, n);
    lemma_product_below(h, e.head_count as int, e.head_dim as int);
    let block = block_at(e, b);
    assert(block == block_from(e, s, h, other * 128));
    if holds_query(e, block, sequence, head, token) {
        assert(s == sequence) by (nonlinear_arith)
            requires
                s * n == sequence * n,
                n > 0,
        ;
        let d = e.head_dim as int;
        assert(h == head) by (nonlinear_arith)
            requires
                h * d == head * d,
                d > 0,
        ;
        assert(other == place);
    }
}

/// A block holds at least one query and at most as many as a block takes, and no query beyond its
/// sequence.
pub proof fn blocks_stay_within_their_sequence(e: AttentionExtents, b: int)
    requires
        e.head_count * e.head_dim <= usize::MAX,
        e.sequence_count * e.tokens_per_sequence <= usize::MAX,
        0 <= b < block_count(e),
    ensures
        1 <= block_at(e, b).rows <= 128,
        block_at(e, b).query_start + block_at(e, b).rows <= e.tokens_per_sequence,
        block_at(e, b).query_start as int % 128 == 0,
{
    let per_head = blocks_per_head(e.tokens_per_sequence as int);
    assert(e.sequence_count * e.head_count >= 0) by (nonlinear_arith);
    lemma_place_row(e.sequence_count * e.head_count, per_head, b);
    lemma_block_starts(e.tokens_per_sequence as int, b % per_head);
}

} // verus!
