//! Rotary positions of text and image grids.
use crate::text::{decimal, Text};
use vstd::arithmetic::div_mod::{lemma_div_denominator, lemma_fundamental_div_mod_converse};
use vstd::prelude::*;

verus! {

/// The temporal, vertical and horizontal position of every token, and the position of the next
/// text token.
#[derive(Debug, PartialEq, Eq)]
pub struct RopePositionPlan {
    pub positions: Vec<[usize; 3]>,
    pub next_text_position: usize,
}

impl Default for RopePositionPlan {
    fn default() -> (plan: RopePositionPlan)
        ensures
            plan.triples() == Seq::<(int, int, int)>::empty(),
            plan.next_text_position == 0,
    {
        let plan = RopePositionPlan { positions: Vec::new(), next_text_position: 0 };
        assert(plan.triples() =~= Seq::empty());
        plan
    }
}

/// The three positions of a token.
pub open spec fn triple(p: [usize; 3]) -> (int, int, int) {
    (p@[0] as int, p@[1] as int, p@[2] as int)
}

/// The positions of `count` text tokens from `start` on: equal on all axes.
pub open spec fn text_triples(start: int, count: nat) -> Seq<(int, int, int)> {
    Seq::new(count, |i: int| (start + i, start + i, start + i))
}

/// The positions of a grid from `base` on, in temporal, then vertical, then horizontal order.
pub open spec fn grid_triples(base: int, t: nat, h: nat, w: nat) -> Seq<(int, int, int)> {
    Seq::new(
        t * h * w,
        |i: int|
            (
                base + i / (w as int * h as int),
                base + (i / w as int) % (h as int),
                base + i % (w as int),
            ),
    )
}

/// The largest of three.
pub open spec fn largest(a: int, b: int, c: int) -> int {
    if a >= b && a >= c {
        a
    } else if b >= c {
        b
    } else {
        c
    }
}

/// Why positions cannot be appended.
#[derive(Clone, Copy, Debug, PartialEq, Eq, Structural)]
pub enum PositionError {
    TextOverflow,
    GridSizeOverflow,
    GridMismatch { t: usize, h: usize, w: usize, count: usize, token_count: usize },
    GridPositionOverflow,
}

impl PositionError {
    /// The message text of the error.
    pub open spec fn text(self) -> Seq<char> {
        match self {
            PositionError::TextOverflow => "text rotary position overflow"@,
            PositionError::GridSizeOverflow => "image rotary grid size overflow"@,
            PositionError::GridMismatch { t, h, w, count, token_count } => "image rotary grid ["@
                + decimal(t as nat) + ", "@ + decimal(h as nat) + ", "@ + decimal(w as nat)
                + "] contains "@ + decimal(count as nat) + " positions for "@ + decimal(
                token_count as nat,
            ) + " embeddings"@,
            PositionError::GridPositionOverflow => "image rotary position overflow"@,
        }
    }

    /// The message text of the error.
    pub fn message(self) -> (message: String)
        ensures
            message@ == self.text(),
    {
        match self {
            PositionError::TextOverflow => Text::start("text rotary position overflow").finish(),
            PositionError::GridSizeOverflow => Text::start(
                "image rotary grid size overflow",
            ).finish(),
            PositionError::GridMismatch { t, h, w, count, token_count } => Text::start(
                "image rotary grid [",
            ).size(t).text(", ").size(h).text(", ").size(w).text("] contains ").size(count).text(
                " positions for ",
            ).size(token_count).text(" embeddings").finish(),
            PositionError::GridPositionOverflow => Text::start(
                "image rotary position overflow",
            ).finish(),
        }
    }
}

/// Why a grid cannot be appended after `base`, if it cannot.
pub open spec fn grid_rejection(base: usize, grid: (int, int, int), token_count: usize) -> Option<
    PositionError,
> {
    let (t, h, w) = grid;
    let count = t * h * w;
    if t * h > usize::MAX || count > usize::MAX {
        Some(PositionError::GridSizeOverflow)
    } else if count == 0 || count != token_count {
        Some(
            PositionError::GridMismatch {
                t: t as usize,
                h: h as usize,
                w: w as usize,
                count: count as usize,
                token_count,
            },
        )
    } else if base + largest(t, h, w) > usize::MAX {
        Some(PositionError::GridPositionOverflow)
    } else {
        None
    }
}

proof fn lemma_grid_index(t: int, h: int, w: int, hh: int, ww: int, i: int)
    requires
        0 <= t,
        0 <= h < hh,
        0 <= w < ww,
        i == (t * hh + h) * ww + w,
    ensures
        i / (ww * hh) == t,
        (i / ww) % hh == h,
        i % ww == w,
{
    lemma_fundamental_div_mod_converse(i, ww, t * hh + h, w);
    lemma_fundamental_div_mod_converse(t * hh + h, hh, t, h);
    assert(0 <= i) by (nonlinear_arith)
        requires
            i == (t * hh + h) * ww + w,
            t >= 0,
            hh > 0,
            h >= 0,
            ww > 0,
            w >= 0,
    ;
    lemma_div_denominator(i, ww, hh);
}

impl RopePositionPlan {
    /// The positions of every token.
    pub open spec fn triples(&self) -> Seq<(int, int, int)> {
        self.positions@.map(|i: int, p: [usize; 3]| triple(p))
    }

    fn push_triple(&mut self, t: usize, h: usize, w: usize)
        ensures
            final(self).triples() == old(self).triples().push((t as int, h as int, w as int)),
            final(self).next_text_position == old(self).next_text_position,
    {
        let ghost earlier = self.positions@;
        let entry: [usize; 3] = [t, h, w];
        self.positions.push(entry);
        assert(triple(entry) == (t as int, h as int, w as int));
        assert(self.triples() =~= old(self).triples().push((t as int, h as int, w as int)));
    }

    /// Appends `count` text tokens. A failure leaves the plan unchanged.
    pub fn append_text(&mut self, count: usize) -> (result: Result<(), PositionError>)
        ensures
            match result {
                Ok(_) => {
                    &&& old(self).next_text_position + count <= usize::MAX
                    &&& final(self).next_text_position == old(self).next_text_position + count
                    &&& final(self).triples() == old(self).triples() + text_triples(
                        old(self).next_text_position as int,
                        count as nat,
                    )
                },
                Err(error) => {
                    &&& old(self).next_text_position + count > usize::MAX
                    &&& error == PositionError::TextOverflow
                    &&& *final(self) == *old(self)
                },
            },
    {
        let start: usize = self.next_text_position;
        let end: usize = match start.checked_add(count) {
            Some(end) => end,
            None => return Err(PositionError::TextOverflow),
        };
        let ghost before = self.triples();
        let mut position: usize = start;
        assert(self.triples() =~= before + text_triples(start as int, 0));
        while position < end
            invariant
                start <= position <= end,
                self.next_text_position == start,
                self.triples() == before + text_triples(start as int, (position - start) as nat),
            decreases end - position,
        {
            self.push_triple(position, position, position);
            assert(self.triples() =~= before + text_triples(
                start as int,
                (position + 1 - start) as nat,
            ));
            position = position + 1;
        }
        self.next_text_position = end;
        Ok(())
    }

    /// Appends the tokens of a grid whose dimensions are temporal, vertical and horizontal. A
    /// failure leaves the plan unchanged.
    pub fn append_grid(&mut self, grid: [usize; 3], token_count: usize) -> (result: Result<
        (),
        PositionError,
    >)
        ensures
            match result {
                Ok(_) => {
                    let (t, h, w) = triple(grid);
                    &&& grid_rejection(old(self).next_text_position, triple(grid), token_count)
                        is None
                    &&& final(self).next_text_position == old(self).next_text_position + largest(
                        t,
                        h,
                        w,
                    )
                    &&& final(self).triples() == old(self).triples() + grid_triples(
                        old(self).next_text_position as int,
                        t as nat,
                        h as nat,
                        w as nat,
                    )
                },
                Err(error) => {
                    &&& grid_rejection(old(self).next_text_position, triple(grid), token_count)
                        == Some(error)
                    &&& *final(self) == *old(self)
                },
            },
    {
        let temporal: usize = grid[0];
        let height: usize = grid[1];
        let width: usize = grid[2];
        let plane: usize = match temporal.checked_mul(height) {
            Some(plane) => plane,
            None => return Err(PositionError::GridSizeOverflow),
        };
        let count: usize = match plane.checked_mul(width) {
            Some(count) => count,
            None => return Err(PositionError::GridSizeOverflow),
        };
        proof {
            assert(temporal * height >= 0) by (nonlinear_arith);
            assert(plane * width >= 0) by (nonlinear_arith);
        }
        if count == 0 || count != token_count {
            return Err(
                PositionError::GridMismatch {
                    t: temporal,
                    h: height,
                    w: width,
                    count,
                    token_count,
                },
            );
        }
        let base: usize = self.next_text_position;
        let longest: usize = if temporal >= height && temporal >= width {
            temporal
        } else if height >= width {
            height
        } else {
            width
        };
        let next: usize = match base.checked_add(longest) {
            Some(next) => next,
            None => return Err(PositionError::GridPositionOverflow),
        };
        let ghost before = self.triples();
        let ghost target = grid_triples(
            base as int,
            temporal as nat,
            height as nat,
            width as nat,
        );
        assert(temporal * height * width == count);
        assert(height > 0 && width > 0) by (nonlinear_arith)
            requires
                temporal * height * width > 0,
        ;
        let mut t: usize = 0;
        assert(self.triples() =~= before + target.take(0));
        assert((0 * height + 0) * width == 0) by (nonlinear_arith);
        while t < temporal
            invariant
                t <= temporal,
                base + temporal <= usize::MAX,
                base + height <= usize::MAX,
                base + width <= usize::MAX,
                height > 0 || temporal == 0,
                width > 0 || temporal == 0,
                target == grid_triples(
                    base as int,
                    temporal as nat,
                    height as nat,
                    width as nat,
                ),
                target.len() == temporal * height * width,
                self.next_text_position == base,
                0 <= (t * height) * width <= target.len(),
                self.triples() == before + target.take((t * height) * width),
            decreases temporal - t,
        {
            let mut h: usize = 0;
            assert((t * height + 0) * width == (t * height) * width);
            while h < height
                invariant
                    t < temporal,
                    h <= height,
                    base + temporal <= usize::MAX,
                    base + height <= usize::MAX,
                    base + width <= usize::MAX,
                    width > 0,
                    target == grid_triples(
                        base as int,
                        temporal as nat,
                        height as nat,
                        width as nat,
                    ),
                    target.len() == temporal * height * width,
                    self.next_text_position == base,
                    0 <= (t * height + h) * width <= target.len(),
                    self.triples() == before + target.take((t * height + h) * width),
                decreases height - h,
            {
                let mut w: usize = 0;
                proof {
                    assert((t * height + h) * width + width == (t * height + h + 1) * width)
                        by (nonlinear_arith);
                    assert((t * height + h + 1) * width <= (temporal * height) * width)
                        by (nonlinear_arith)
                        requires
                            t < temporal,
                            h < height,
                            width >= 0,
                            height >= 0,
                    ;
                }
                while w < width
                    invariant
                        t < temporal,
                        h < height,
                        w <= width,
                        base + temporal <= usize::MAX,
                        base + height <= usize::MAX,
                        base + width <= usize::MAX,
                        target == grid_triples(
                            base as int,
                            temporal as nat,
                            height as nat,
                            width as nat,
                        ),
                        target.len() == temporal * height * width,
                        self.next_text_position == base,
                        0 <= (t * height + h) * width,
                        (t * height + h) * width + width <= target.len(),
                        self.triples() == before + target.take((t * height + h) * width + w),
                    decreases width - w,
                {
                    let ghost i = (t * height + h) * width + w;
                    self.push_triple(base + t, base + h, base + w);
                    proof {
                        lemma_grid_index(
                            t as int,
                            h as int,
                            w as int,
                            height as int,
                            width as int,
                            i,
                        );
                        assert(target[i] == (base + t, base + h, base + w));
                        assert(self.triples() =~= before + target.take(i + 1));
                    }
                    w = w + 1;
                }
                h = h + 1;
            }
            proof {
                assert((t * height + height) * width == ((t + 1) * height) * width)
                    by (nonlinear_arith);
            }
            t = t + 1;
        }
        assert(target.take(target.len() as int) =~= target);
        self.next_text_position = next;
        Ok(())
    }

    /// The positions of the token at a place: those of the plan, or text that goes on behind it.
    pub fn at(&self, physical_position: usize) -> (p: [usize; 3])
        requires
            physical_position >= self.positions@.len() ==> self.next_text_position + (
            physical_position - self.positions@.len()) <= usize::MAX,
        ensures
            triple(p) == if physical_position < self.positions@.len() {
                self.triples()[physical_position as int]
            } else {
                let q = self.next_text_position + (physical_position - self.positions@.len());
                (q, q, q)
            },
    {
        if physical_position < self.positions.len() {
            self.positions[physical_position]
        } else {
            let q: usize = self.next_text_position + (physical_position - self.positions.len());
            [q, q, q]
        }
    }
}

/// Text that is appended behind a plan is where the plan had it before: appending does not move
/// the position of any token.
pub proof fn appended_text_was_already_there(
    triples: Seq<(int, int, int)>,
    next: int,
    count: nat,
    place: int,
)
    requires
        0 <= place < triples.len() + count,
    ensures
        (triples + text_triples(next, count))[place] == if place < triples.len() {
            triples[place]
        } else {
            let q = next + (place - triples.len());
            (q, q, q)
        },
{
}

/// Every position of a grid lies between the base and the position of the text that follows.
pub proof fn grid_positions_stay_below_following_text(
    base: int,
    t: nat,
    h: nat,
    w: nat,
    i: int,
)
    requires
        0 <= i < t * h * w,
        0 <= base,
    ensures
        ({
            let next = base + largest(t as int, h as int, w as int);
            let (a, b, c) = grid_triples(base, t, h, w)[i];
            base <= a < next && base <= b < next && base <= c < next
        }),
{
    assert(h > 0 && w > 0 && t > 0) by (nonlinear_arith)
        requires
            0 <= i < t * h * w,
    ;
    let plane = w as int * h as int;
    assert(plane > 0) by (nonlinear_arith)
        requires
            plane == w as int * h as int,
            h > 0,
            w > 0,
    ;
    assert(t * h * w == t * plane) by (nonlinear_arith)
        requires
            plane == w as int * h as int,
    ;
    let a = i / plane;
    assert(0 <= a && a < t) by (nonlinear_arith)
        requires
            0 <= i < t * plane,
            plane > 0,
            a == i / plane,
    ;
}

/// How frequencies are assigned to axes.
#[derive(Clone, Copy, Debug, PartialEq, Eq, Structural)]
pub enum RopePositionLayout {
    Sequential,
    Interleaved,
}

impl RopePositionLayout {
    /// The axis of a frequency: in the interleaved layout the vertical and horizontal axes hold
    /// every third frequency up to the lengths of their sections, the temporal axis the rest.
    pub fn axis(self, frequency: usize, sections: [usize; 4]) -> (axis: usize)
        ensures
            axis == match self {
                RopePositionLayout::Sequential => 0,
                RopePositionLayout::Interleaved => if frequency % 3 != 0 && frequency / 3
                    < sections@[(frequency % 3) as int] {
                    (frequency % 3) as int
                } else {
                    0
                },
            },
            axis < 3,
    {
        match self {
            RopePositionLayout::Sequential => 0,
            RopePositionLayout::Interleaved => {
                let axis: usize = frequency % 3;
                if axis != 0 && frequency / 3 < sections[axis] {
                    axis
                } else {
                    0
                }
            },
        }
    }
}

/// Each token of a grid is placed by its frame, row and column, counted from the base: frame after
/// frame, row after row, column after column.
pub proof fn grids_are_placed_by_frame_row_and_column(
    base: int,
    t: nat,
    h: nat,
    w: nat,
    frame: int,
    row: int,
    column: int,
)
    requires
        0 <= frame < t,
        0 <= row < h,
        0 <= column < w,
    ensures
        ({
            let place = (frame * h + row) * w + column;
            &&& 0 <= place < grid_triples(base, t, h, w).len() == t * h * w
            &&& grid_triples(base, t, h, w)[place] == (base + frame, base + row, base + column)
        }),
{
    let place = (frame * h + row) * w + column;
    lemma_grid_index(frame, row, column, h as int, w as int, place);
    crate::tables::lemma_row_place(t as int, h as int, frame, row);
    crate::tables::lemma_row_place(t as int * h as int, w as int, frame * h + row, column);
}

} // verus!
