//! Field-element streams: the flattened sequences that the sponge absorbs.
use crate::field::Fe;
use vstd::prelude::*;

verus! {

/// The rows of a rectangle of field elements, one after the other.
pub open spec fn flatten_rows(rows: Seq<Vec<Fe>>) -> Seq<Fe>
    decreases rows.len(),
{
    if rows.len() == 0 {
        Seq::empty()
    } else {
        flatten_rows(rows.drop_last()) + rows.last()@
    }
}

/// The coordinates of a list of affine points, x then y for each point.
pub open spec fn flatten_pairs(ps: Seq<(Fe, Fe)>) -> Seq<Fe>
    decreases ps.len(),
{
    if ps.len() == 0 {
        Seq::empty()
    } else {
        flatten_pairs(ps.drop_last()) + seq![ps.last().0, ps.last().1]
    }
}

/// Appends every element of `xs`, in order.
pub fn append_all(xs: &Vec<Fe>, ro: &mut Vec<Fe>)
    ensures
        final(ro)@ == old(ro)@ + xs@,
{
    let mut i: usize = 0;
    while i < xs.len()
        invariant
            i <= xs.len(),
            ro@ == old(ro)@ + xs@.subrange(0, i as int),
        decreases xs.len() - i,
    {
        ro.push(xs[i]);
        proof {
            assert(xs@.subrange(0, i + 1) == xs@.subrange(0, i as int).push(xs@[i as int]));
        }
        i += 1;
    }
    proof {
        assert(xs@.subrange(0, xs.len() as int) == xs@);
    }
}

/// Appends every row of `rows`, one row fully before the next.
pub fn append_rows(rows: &Vec<Vec<Fe>>, ro: &mut Vec<Fe>)
    ensures
        final(ro)@ == old(ro)@ + flatten_rows(rows@),
{
    let mut i: usize = 0;
    while i < rows.len()
        invariant
            i <= rows.len(),
            ro@ == old(ro)@ + flatten_rows(rows@.subrange(0, i as int)),
        decreases rows.len() - i,
    {
        append_all(&rows[i], ro);
        proof {
            assert(rows@.subrange(0, i + 1).drop_last() == rows@.subrange(0, i as int));
        }
        i += 1;
    }
    proof {
        assert(rows@.subrange(0, rows.len() as int) == rows@);
    }
}

/// Appends the coordinates of every point, x before y.
pub fn append_pairs(ps: &Vec<(Fe, Fe)>, ro: &mut Vec<Fe>)
    ensures
        final(ro)@ == old(ro)@ + flatten_pairs(ps@),
{
    let mut i: usize = 0;
    while i < ps.len()
        invariant
            i <= ps.len(),
            ro@ == old(ro)@ + flatten_pairs(ps@.subrange(0, i as int)),
        decreases ps.len() - i,
    {
        let (x, y) = ps[i];
        ro.push(x);
        ro.push(y);
        proof {
            assert(ps@.subrange(0, i + 1).drop_last() == ps@.subrange(0, i as int));
        }
        i += 1;
    }
    proof {
        assert(ps@.subrange(0, ps.len() as int) == ps@);
    }
}

} // verus!
