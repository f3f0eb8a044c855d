//! Activation functions ready for use in a layer.
use crate::grid::lemma_offset;
use crate::matrix::Matrix;
use vstd::prelude::*;

verus! {

/// The rectifier: a value that is not negative stays, a negative one
/// becomes zero.
pub open spec fn rectified(v: i64) -> i64 {
    if 0 <= v {
        v
    } else {
        0
    }
}

/// The slope of the rectifier: one where the value is not negative, zero
/// where it is.
pub open spec fn rectified_slope(v: i64) -> i64 {
    if 0 <= v {
        1
    } else {
        0
    }
}

/// The rectifier at one element; the coordinate plays no part.
fn rectify(at: (usize, usize), e: i64) -> (r: i64)
    ensures
        r == rectified(e),
{
    if 0 <= e {
        e
    } else {
        0
    }
}

/// The slope of the rectifier at one element; the coordinate plays no part.
fn slope(at: (usize, usize), e: i64) -> (r: i64)
    ensures
        r == rectified_slope(e),
{
    if 0 <= e {
        1
    } else {
        0
    }
}

/// Applies the rectifier to every element.
pub fn relu(u: Matrix<i64>) -> (v: Matrix<i64>)
    ensures
        v@ == u@.map_values(|e: i64| rectified(e)),
{
    let mut v = u;
    let ghost before = v@;
    proof {
        use_type_invariant(&v);
        v.lemma_view_wf();
    }
    v.map(rectify);
    proof {
        let wanted = before.map_values(|e: i64| rectified(e));
        assert forall|x: int, y: int| v@.has(x, y) implies #[trigger] v@.at(x, y) == wanted.at(
            x,
            y,
        ) by {
            lemma_offset(before.width, before.height, x, y);
            assert(before.has(x, y));
        }
        v@.lemma_equal_by_cells(wanted);
    }
    v
}

/// Replaces every element by the slope of the rectifier at it.
pub fn relu_diff(u: Matrix<i64>) -> (v: Matrix<i64>)
    ensures
        v@ == u@.map_values(|e: i64| rectified_slope(e)),
{
    let mut v = u;
    let ghost before = v@;
    proof {
        use_type_invariant(&v);
        v.lemma_view_wf();
    }
    v.map(slope);
    proof {
        let wanted = before.map_values(|e: i64| rectified_slope(e));
        assert forall|x: int, y: int| v@.has(x, y) implies #[trigger] v@.at(x, y) == wanted.at(
            x,
            y,
        ) by {
            lemma_offset(before.width, before.height, x, y);
            assert(before.has(x, y));
        }
        v@.lemma_equal_by_cells(wanted);
    }
    v
}

} // verus!
