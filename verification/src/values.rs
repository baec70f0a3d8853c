//! Copies of lists of plain values.
use vstd::prelude::*;

verus! {

/// Copies a vector.
pub fn copy_values<T: Copy>(values: &Vec<T>) -> (out: Vec<T>)
    ensures
        out@ == values@,
{
    let mut out: Vec<T> = Vec::new();
    let mut i: usize = 0;
    while i < values.len()
        invariant
            i <= values@.len(),
            out@ == values@.take(i as int),
        decreases values.len() - i,
    {
        out.push(values[i]);
        i = i + 1;
        assert(out@ =~= values@.take(i as int));
    }
    assert(out@ =~= values@);
    out
}

/// Appends the values of a range of a list.
pub fn append_range<T: Copy>(out: &mut Vec<T>, values: &[T], from: usize, to: usize)
    requires
        from <= to <= values@.len(),
    ensures
        final(out)@ == old(out)@ + values@.subrange(from as int, to as int),
{
    let mut i: usize = from;
    assert(out@ =~= old(out)@ + values@.subrange(from as int, from as int));
    while i < to
        invariant
            from <= i <= to <= values@.len(),
            out@ == old(out)@ + values@.subrange(from as int, i as int),
        decreases to - i,
    {
        out.push(values[i]);
        i = i + 1;
        assert(out@ =~= old(out)@ + values@.subrange(from as int, i as int));
    }
}

/// A list of equal values.
pub fn filled<T: Copy>(len: usize, value: T) -> (out: Vec<T>)
    ensures
        out@ == Seq::new(len as nat, |i: int| value),
{
    let mut out: Vec<T> = Vec::new();
    while out.len() < len
        invariant
            out@.len() <= len,
            out@ =~= Seq::new(out@.len(), |i: int| value),
        decreases len - out.len(),
    {
        out.push(value);
    }
    assert(out@ =~= Seq::new(len as nat, |i: int| value));
    out
}

} // verus!
