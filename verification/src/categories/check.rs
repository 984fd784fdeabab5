use vstd::prelude::*;

verus! {

use crate::die::Die;
use crate::dicerow::DiceRow;
use crate::dicerow::lemma_row_valid;
use crate::dicerow::row_valid;

/// How many dice of the row show the face `f`.
pub open spec fn count_face(v: Seq<int>, f: int) -> int
    decreases v.len(),
{
    if v.len() == 0 {
        0
    } else {
        count_face(v.drop_last(), f) + if v.last() == f {
            1int
        } else {
            0int
        }
    }
}

/// Some face appears at least `n` times among the five dice.
pub open spec fn has_n_of_a_kind(v: Seq<int>, n: int) -> bool {
    exists|f: int| 1 <= f <= 6 && count_face(v, f) >= n
}

/// Some face appears exactly three times and another exactly twice.
pub open spec fn is_full_house(v: Seq<int>) -> bool {
    &&& exists|f: int| 1 <= f <= 6 && count_face(v, f) == 3
    &&& exists|f: int| 1 <= f <= 6 && count_face(v, f) == 2
}

/// The faces `s`, `s + 1`, ..., `s + len - 1` all appear in the row.
pub open spec fn has_run(v: Seq<int>, s: int, len: int) -> bool {
    forall|k: int| s <= k < s + len ==> v.contains(k)
}

/// Some `len` consecutive faces all appear in the row.
pub open spec fn has_run_of(v: Seq<int>, len: int) -> bool {
    exists|s: int| has_run(v, s, len)
}

/// The longest run of consecutive distinct faces has length exactly `n`:
/// a run of length `n` exists, and none of length `n + 1`.
pub open spec fn is_n_straight(v: Seq<int>, n: int) -> bool {
    has_run_of(v, n) && !has_run_of(v, n + 1)
}

pub proof fn lemma_count_face_take_step(v: Seq<int>, f: int, i: int)
    requires
        0 <= i < v.len(),
    ensures
        count_face(v.take(i + 1), f) == count_face(v.take(i), f) + if v[i] == f {
            1int
        } else {
            0int
        },
{
    assert(v.take(i + 1).drop_last() =~= v.take(i));
    assert(v.take(i + 1).last() == v[i]);
}

pub proof fn lemma_count_face_bounds(v: Seq<int>, f: int)
    ensures
        0 <= count_face(v, f) <= v.len(),
    decreases v.len(),
{
    if v.len() > 0 {
        lemma_count_face_bounds(v.drop_last(), f);
    }
}

/// Two different faces together cannot cover more dice than the row holds.
pub proof fn lemma_count_face_two(v: Seq<int>, f: int, g: int)
    requires
        f != g,
    ensures
        count_face(v, f) + count_face(v, g) <= v.len(),
    decreases v.len(),
{
    if v.len() > 0 {
        lemma_count_face_two(v.drop_last(), f, g);
    }
}

/// A shorter stretch of a run is itself a run.
pub proof fn lemma_has_run_shorter(v: Seq<int>, s: int, l1: int, l2: int)
    requires
        0 <= l2 <= l1,
        has_run(v, s, l1),
    ensures
        has_run(v, s, l2),
{
}

/// A five-of-a-kind is no full house: when one face covers all five dice,
/// no face appears exactly twice, so the row cannot qualify.
pub proof fn lemma_five_of_a_kind_not_full_house(v: Seq<int>)
    requires
        v.len() == 5,
        has_n_of_a_kind(v, 5),
    ensures
        !is_full_house(v),
{
    let f = choose|f: int| 1 <= f <= 6 && count_face(v, f) >= 5;
    lemma_count_face_bounds(v, f);
    if is_full_house(v) {
        let g = choose|g: int| 1 <= g <= 6 && count_face(v, g) == 2;
        if g != f {
            lemma_count_face_two(v, f, g);
        }
        assert(false);
    }
}

/// In a valid row only faces between 1 and 6 appear.
pub proof fn lemma_contained_face_in_range(v: Seq<int>, k: int)
    requires
        row_valid(v),
        v.contains(k),
    ensures
        1 <= k <= 6,
{
    let i = choose|i: int| 0 <= i < v.len() && v[i] == k;
    assert(1 <= v[i] <= 6);
}

/// Counts the dice of the row that show the face `face`.
pub fn count_in_row(row: &DiceRow, face: u8) -> (c: u8)
    ensures
        c as int == count_face(row@, face as int),
        c <= 5,
{
    proof {
        lemma_row_valid(row);
    }
    let values = row.to_u8();
    let mut c: u8 = 0;
    let mut i: usize = 0;
    proof {
        assert(row@.take(0) =~= Seq::<int>::empty());
    }
    while i < 5
        invariant
            row_valid(row@),
            i <= 5,
            c <= i,
            forall|j: int| 0 <= j < 5 ==> #[trigger] values@[j] as int == row@[j],
            c as int == count_face(row@.take(i as int), face as int),
        decreases 5 - i,
    {
        proof {
            lemma_count_face_take_step(row@, face as int, i as int);
        }
        if values[i] == face {
            c = c + 1;
        }
        i = i + 1;
    }
    proof {
        assert(row@.take(5) =~= row@);
    }
    c
}

/// Does any die of the row show the face `face`?
pub fn contains_face(row: &DiceRow, face: u8) -> (r: bool)
    ensures
        r == row@.contains(face as int),
{
    proof {
        lemma_row_valid(row);
    }
    let values = row.to_u8();
    let mut i: usize = 0;
    while i < 5
        invariant
            row_valid(row@),
            i <= 5,
            forall|j: int| 0 <= j < 5 ==> #[trigger] values@[j] as int == row@[j],
            forall|j: int| 0 <= j < i ==> row@[j] != face as int,
        decreases 5 - i,
    {
        if values[i] == face {
            proof {
                assert(row@[i as int] == face as int);
            }
            return true;
        }
        i = i + 1;
    }
    proof {
        assert forall|j: int| 0 <= j < row@.len() implies row@[j] != face as int by {}
    }
    false
}

/// Does the row show the face of `checking_die` at all?
pub fn upper(row: &DiceRow, checking_die: &Die) -> (r: bool)
    ensures
        r == row@.contains(checking_die.value()),
{
    contains_face(row, checking_die.to_u8())
}

/// Does some face appear at least `n` times?
pub fn n_of_a_kind(row: &DiceRow, n: u8) -> (r: bool)
    ensures
        r == has_n_of_a_kind(row@, n as int),
{
    let mut face: u8 = 1;
    while face <= 6
        invariant
            1 <= face <= 7,
            forall|f: int| 1 <= f < face ==> count_face(row@, f) < n,
        decreases 7 - face,
    {
        let c = count_in_row(row, face);
        if c >= n {
            return true;
        }
        face = face + 1;
    }
    false
}

/// Does some face appear exactly three times while another appears exactly twice?
pub fn full_house(row: &DiceRow) -> (r: bool)
    ensures
        r == is_full_house(row@),
{
    let mut three = false;
    let mut two = false;
    let mut face: u8 = 1;
    while face <= 6
        invariant
            1 <= face <= 7,
            three == exists|f: int| 1 <= f < face && count_face(row@, f) == 3,
            two == exists|f: int| 1 <= f < face && count_face(row@, f) == 2,
        decreases 7 - face,
    {
        let c = count_in_row(row, face);
        if c == 3 {
            three = true;
        } else if c == 2 {
            two = true;
        }
        face = face + 1;
    }
    three && two
}

/// Is the longest run of consecutive distinct faces exactly `n` long?
pub fn n_straight(row: &DiceRow, n: u8) -> (r: bool)
    ensures
        r == is_n_straight(row@, n as int),
{
    proof {
        lemma_row_valid(row);
    }
    let ghost v = row@;
    let mut cur: u8 = 0;
    let mut best: u8 = 0;
    let mut face: u8 = 1;
    proof {
        assert forall|s: int| s + 0 + 1 <= 1 implies !(#[trigger] has_run(v, s, 0int + 1)) by {
            if has_run(v, s, 1) {
                assert(v.contains(s));
                lemma_contained_face_in_range(v, s);
            }
        }
        if v.contains(0int) {
            lemma_contained_face_in_range(v, 0int);
        }
    }
    while face <= 6
        invariant
            v == row@,
            row_valid(v),
            1 <= face <= 7,
            cur < face,
            best < face,
            best >= cur,
            // a run of length `cur` ends at face - 1
            forall|k: int| face - cur <= k < face ==> v.contains(k),
            // and it cannot be extended downwards
            !v.contains(face - 1 - cur as int),
            // a run of length `best` was seen, unless none was
            best == 0 || has_run_of(v, best as int),
            // no run of length best + 1 ends before `face`
            forall|s: int| s + best + 1 <= face ==> !(#[trigger] has_run(v, s, best as int + 1)),
        decreases 7 - face,
    {
        let ghost old_cur = cur as int;
        let ghost old_best = best as int;
        let present = contains_face(row, face);
        if present {
            cur = cur + 1;
            if cur > best {
                best = cur;
            }
        } else {
            cur = 0;
        }
        proof {
            if present {
                // the run grows by the new face
                assert forall|k: int| face + 1 - cur <= k < face + 1 implies v.contains(k) by {
                    if k < face {
                        assert(v.contains(k));
                    } else {
                        assert(v.contains(face as int));
                    }
                }
                assert(!v.contains(face + 1 - 1 - cur as int));
                if best > old_best {
                    assert(has_run(v, face + 1 - cur, cur as int));
                    assert(has_run_of(v, best as int));
                }
                assert forall|s: int| s + best + 1 <= face + 1 implies !(#[trigger] has_run(
                    v,
                    s,
                    best as int + 1,
                )) by {
                    if has_run(v, s, best as int + 1) {
                        if s + best + 1 <= face {
                            // a shorter run ending no later contradicts the invariant
                            lemma_has_run_shorter(v, s, best as int + 1, old_best + 1);
                            assert(!has_run(v, s, old_best + 1));
                            assert(false);
                        } else {
                            // the run would reach down to the absent face below the
                            // current run
                            assert(s == face - best);
                            assert(s <= face - cur <= face);
                            assert(v.contains(face - cur as int));
                            assert(false);
                        }
                    }
                }
            } else {
                assert(!v.contains(face + 1 - 1 - 0int));
                assert forall|s: int| s + best + 1 <= face + 1 implies !(#[trigger] has_run(
                    v,
                    s,
                    best as int + 1,
                )) by {
                    if has_run(v, s, best as int + 1) {
                        if s + best + 1 <= face {
                            assert(!has_run(v, s, best as int + 1));
                            assert(false);
                        } else {
                            assert(s <= face as int);
                            assert((face as int) < s + best + 1);
                            assert(v.contains(face as int));
                            assert(false);
                        }
                    }
                }
            }
        }
        face = face + 1;
    }
    proof {
        // five dice always show some face, so a run of length one exists
        assert(v.contains(v[0]));
        lemma_contained_face_in_range(v, v[0]);
        if best == 0 {
            assert(v[0] + best + 1 <= 7);
            assert(!has_run(v, v[0], best as int + 1));
            assert forall|k: int| v[0] <= k < v[0] + 1 implies v.contains(k) by {}
            assert(false);
        }
        // no run of length best + 1 exists anywhere
        assert forall|s: int| !(#[trigger] has_run(v, s, best as int + 1)) by {
            if has_run(v, s, best as int + 1) {
                assert(v.contains(s + best));
                lemma_contained_face_in_range(v, s + best);
                assert(s + best + 1 <= 7);
                assert(false);
            }
        }
        if best == n {
            assert(has_run_of(v, n as int));
            assert(!has_run_of(v, n as int + 1));
        } else {
            if is_n_straight(v, n as int) {
                if n < best {
                    // the run of length best contains one of length n + 1
                    let s = choose|s: int| has_run(v, s, best as int);
                    lemma_has_run_shorter(v, s, best as int, n as int + 1);
                    assert(has_run_of(v, n as int + 1));
                    assert(false);
                } else {
                    // a run of length n contains one of length best + 1
                    let s = choose|s: int| has_run(v, s, n as int);
                    lemma_has_run_shorter(v, s, n as int, best as int + 1);
                    assert(false);
                }
            }
        }
    }
    best == n
}

} // verus!
