//! Rows of a matrix filled in parallel.
use crate::bits::{is_finite_bits, non_finite_bits};
use rayon::iter::{IndexedParallelIterator, IntoParallelRefIterator, ParallelIterator};
use rayon::slice::ParallelSliceMut;
use vstd::prelude::*;

verus! {

/// Where the rows of a matrix come from.
pub trait RowSource<T>: Sync {
    /// Whether row `index` can be filled and has `width` entries.
    spec fn ready(&self, index: int, width: int) -> bool;

    /// The contents of row `index`.
    spec fn row(&self, index: int) -> Seq<T>;

    /// Fills row `index`.
    fn fill(&self, index: usize, row: &mut [T])
        requires
            self.ready(index as int, old(row)@.len() as int),
        ensures
            final(row)@ == self.row(index as int),
    ;
}

/// Fills the rows of `out`, each `width` entries wide, in parallel: `par_chunks_mut` of rayon's
/// `ParallelSliceMut` cuts `out` into chunks of `width` entries that follow each other without
/// overlap, `enumerate` numbers them in order, and `for_each` hands each to `fill` once.
///
/// So entry `c` of chunk `i` is entry `c` of what `fill` gives for `i`, and the length of `out`
/// stays. `par_chunks_mut` panics on a width of zero, which the precondition leaves out.
#[verifier::external_body]
pub(crate) fn par_fill_rows<T: Send, R: RowSource<T>>(out: &mut Vec<T>, width: usize, rows: &R)
    requires
        width > 0,
        old(out)@.len() as int % width as int == 0,
        forall|i: int|
            0 <= i < old(out)@.len() as int / width as int ==> #[trigger] rows.ready(
                i,
                width as int,
            ),
    ensures
        final(out)@.len() == old(out)@.len(),
        forall|i: int, c: int|
            0 <= i < old(out)@.len() as int / width as int && 0 <= c < width ==> final(out)@[i
                * width + c] == #[trigger] rows.row(i)[c],
{
    out.par_chunks_mut(width).enumerate().for_each(|(index, row)| rows.fill(index, row));
}

/// Whether one of the values is not finite.
pub open spec fn holds_non_finite(values: Seq<u32>) -> bool {
    exists|i: int| 0 <= i < values.len() && !is_finite_bits(#[trigger] values[i])
}

/// Whether any value is not finite, searched in parallel: `par_iter` of rayon's
/// `IntoParallelRefIterator` walks all values of the slice, and `any` of its `ParallelIterator`
/// tells whether the predicate holds of some value that it was handed; it stops early only once
/// one was found.
#[verifier::external_body]
pub(crate) fn par_any_non_finite(values: &[u32]) -> (found: bool)
    ensures
        found == holds_non_finite(values@),
{
    values.par_iter().any(|value| non_finite_bits(*value))
}

} // verus!
