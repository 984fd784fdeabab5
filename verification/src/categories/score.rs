use vstd::prelude::*;

verus! {

use crate::categories::check::count_face;
use crate::categories::check::count_in_row;
use crate::categories::check::lemma_count_face_bounds;
use crate::die::Die;
use crate::dicerow::DiceRow;
use crate::dicerow::lemma_row_valid;
use crate::dicerow::row_valid;

/// The sum of the five face values of the row.
pub open spec fn sum_values(v: Seq<int>) -> int
    decreases v.len(),
{
    if v.len() == 0 {
        0
    } else {
        sum_values(v.drop_last()) + v.last()
    }
}

pub proof fn lemma_sum_take_step(v: Seq<int>, i: int)
    requires
        0 <= i < v.len(),
    ensures
        sum_values(v.take(i + 1)) == sum_values(v.take(i)) + v[i],
{
    assert(v.take(i + 1).drop_last() =~= v.take(i));
    assert(v.take(i + 1).last() == v[i]);
}

/// A valid row sums to at least 5 and at most 30.
pub proof fn lemma_sum_values_bounds(v: Seq<int>)
    requires
        row_valid(v),
    ensures
        5 <= sum_values(v) <= 30,
{
    lemma_sum_values_bounds_aux(v, 5);
    assert(v.take(5) =~= v);
}

proof fn lemma_sum_values_bounds_aux(v: Seq<int>, m: int)
    requires
        0 <= m <= v.len(),
        forall|i: int| 0 <= i < v.len() ==> 1 <= #[trigger] v[i] <= 6,
    ensures
        m <= sum_values(v.take(m)) <= 6 * m,
    decreases m,
{
    if m == 0 {
        assert(v.take(0) =~= Seq::<int>::empty());
    } else {
        lemma_sum_values_bounds_aux(v, m - 1);
        lemma_sum_take_step(v, m - 1);
    }
}

/// The upper score for a face: how often it appears, times its value.
pub fn upper(row: &DiceRow, scoring_die: &Die) -> (r: u16)
    ensures
        r as int == count_face(row@, scoring_die.value()) * scoring_die.value(),
        r <= 30,
{
    proof {
        lemma_count_face_bounds(row@, scoring_die.value());
    }
    let c = count_in_row(row, scoring_die.to_u8());
    (c as u16) * (scoring_die.to_u8() as u16)
}

/// The sum of all five dice.
pub fn total(row: &DiceRow) -> (r: u16)
    ensures
        r as int == sum_values(row@),
        r <= 30,
{
    proof {
        lemma_row_valid(row);
        lemma_sum_values_bounds(row@);
        assert(row@.take(0) =~= Seq::<int>::empty());
    }
    let values = row.to_u8();
    let mut r: u16 = 0;
    let mut i: usize = 0;
    while i < 5
        invariant
            i <= 5,
            forall|j: int| 0 <= j < 5 ==> #[trigger] values@[j] as int == row@[j],
            row_valid(row@),
            r as int == sum_values(row@.take(i as int)),
            r <= 6 * i,
        decreases 5 - i,
    {
        proof {
            lemma_sum_take_step(row@, i as int);
        }
        r = r + (values[i] as u16);
        i = i + 1;
    }
    proof {
        assert(row@.take(5) =~= row@);
    }
    r
}

} // verus!
