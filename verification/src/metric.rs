//! Measures of how good predictions are.

use vstd::prelude::*;
use crate::matrix::reduce::total;
use crate::matrix::{lemma_view_wf, Grid, Matrix};
use crate::scalar::{deterministic, equals, of_usize, one, quotient, ranks_at_least, zero, Scalar};
use crate::scalar::{count_value, is_equal, is_ranked_at_least, one_value, over, plus, zero_value};

verus! {

broadcast use lemma_view_wf;

/// The index of the greatest cell of `s` in the total order of the numbers;
/// of several greatest cells, the last.
pub open spec fn argmax<T: Scalar>(s: Seq<T>) -> int
    decreases s.len(),
{
    if s.len() <= 1 {
        0
    } else {
        let best = argmax(s.drop_last());
        if ranks_at_least(s.last(), s[best]) {
            s.len() - 1
        } else {
            best
        }
    }
}

/// One for every row of `y` whose greatest cell is where `target` has a one,
/// zero for every other row.
pub open spec fn hits<T: Scalar>(y: Grid<T>, target: Grid<T>) -> Seq<T> {
    Seq::new(
        y.rows,
        |i: int|
            if equals(target.at(i, argmax(y.row(i))), one::<T>()) {
                one::<T>()
            } else {
                zero::<T>()
            },
    )
}

/// The share of the rows of `y` whose greatest cell is where the row of
/// `target` has its one.
pub fn accuracy<T: Scalar>(y: &Matrix<T>, target: &Matrix<T>) -> (r: T)
    requires
        y@.cols > 0,
        target@.rows >= y@.rows,
        target@.cols >= y@.cols,
    ensures
        deterministic::<T>() ==> r == quotient(total(hits(y@, target@)), of_usize::<T>(y@.rows as usize)),
{
    let mut correct: T = zero_value();
    let mut i: usize = 0;
    while i < y.rows()
        invariant
            y@.cols > 0,
            target@.rows >= y@.rows,
            target@.cols >= y@.cols,
            i <= y@.rows,
            deterministic::<T>() ==> correct == total(hits(y@, target@).take(i as int)),
        decreases y@.rows - i,
    {
        let mut best: usize = 0;
        let mut j: usize = 1;
        assert(y@.wf());
        assert(y@.row(i as int).len() == y@.cols);
        assert(y@.row(i as int).take(1).len() == 1);
        while j < y.cols()
            invariant
                i < y@.rows,
                y@.row(i as int).len() == y@.cols,
                1 <= j <= y@.cols,
                best < j,
                deterministic::<T>() ==> best == argmax(y@.row(i as int).take(j as int)),
            decreases y@.cols - j,
        {
            assert(y@.row(i as int).take(j + 1).drop_last() =~= y@.row(i as int).take(j as int));
            if is_ranked_at_least(y.get(i, j), y.get(i, best)) {
                best = j;
            }
            j += 1;
        }
        assert(y@.row(i as int).take(y@.cols as int) =~= y@.row(i as int));
        let hit: T = if is_equal(target.get(i, best), one_value()) {
            one_value()
        } else {
            zero_value()
        };
        correct = plus(correct, hit);
        assert(hits(y@, target@).take(i + 1).drop_last() =~= hits(y@, target@).take(i as int));
        i += 1;
    }
    assert(hits(y@, target@).take(y@.rows as int) =~= hits(y@, target@));
    over(correct, count_value(y.rows()))
}

} // verus!
