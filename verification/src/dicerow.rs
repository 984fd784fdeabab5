use vstd::prelude::*;

verus! {

use crate::die::Die;

/// A row is valid when it holds exactly five values, each a die face in 1..=6.
pub open spec fn row_valid(v: Seq<int>) -> bool {
    &&& v.len() == 5
    &&& forall|i: int| 0 <= i < 5 ==> 1 <= #[trigger] v[i] <= 6
}

/// An ordered row of exactly five dice.
pub struct DiceRow {
    row: [Die; 5],
}

impl View for DiceRow {
    type V = Seq<int>;

    /// The row as the sequence of its five face values.
    closed spec fn view(&self) -> Seq<int> {
        Seq::new(5, |i: int| self.row@[i].value())
    }
}

impl DiceRow {
    /// Rolls a fresh row of five independently rolled dice.
    pub fn roll() -> (r: DiceRow)
        ensures
            row_valid(r@),
    {
        let row = [Die::roll(), Die::roll(), Die::roll(), Die::roll(), Die::roll()];
        DiceRow { row }
    }

    /// Rerolls every die whose position is not held; held positions keep
    /// their value. A mask that holds every position leaves the row unchanged.
    pub fn reroll(&mut self, held: [bool; 5])
        ensures
            row_valid(final(self)@),
            forall|i: int| 0 <= i < 5 && held@[i] ==> final(self)@[i] == old(self)@[i],
            (forall|i: int| 0 <= i < 5 ==> held@[i]) ==> final(self)@ == old(self)@,
    {
        let mut i: usize = 0;
        while i < 5
            invariant
                i <= 5,
                forall|j: int| 0 <= j < 5 && held@[j] ==> self.row@[j] == old(self).row@[j],
                forall|j: int| i <= j < 5 ==> self.row@[j] == old(self).row@[j],
            decreases 5 - i,
        {
            if !held[i] {
                self.row[i] = Die::roll();
            }
            i = i + 1;
        }
        proof {
            assert forall|j: int| 0 <= j < 5 && held@[j] implies self@[j] == old(self)@[j] by {
                assert(self.row@[j] == old(self).row@[j]);
            }
            if forall|j: int| 0 <= j < 5 ==> held@[j] {
                assert forall|j: int| 0 <= j < 5 implies self@[j] == old(self)@[j] by {
                    assert(held@[j]);
                    assert(self.row@[j] == old(self).row@[j]);
                }
                assert(self@ =~= old(self)@);
            }
            lemma_row_valid(self);
        }
    }

    /// Gives up the row as its five dice.
    pub fn into_inner(self) -> (r: [Die; 5])
        ensures
            forall|i: int| 0 <= i < 5 ==> #[trigger] r@[i].value() == self@[i],
    {
        self.row
    }

    /// Borrows the five dice of the row.
    pub fn as_inner(&self) -> (r: &[Die; 5])
        ensures
            forall|i: int| 0 <= i < 5 ==> #[trigger] r@[i].value() == self@[i],
    {
        &self.row
    }

    /// The row as five plain integers, for scoring and display.
    pub fn to_u8(&self) -> (r: [u8; 5])
        ensures
            forall|i: int| 0 <= i < 5 ==> #[trigger] r@[i] as int == self@[i],
    {
        let r = [
            self.row[0].to_u8(),
            self.row[1].to_u8(),
            self.row[2].to_u8(),
            self.row[3].to_u8(),
            self.row[4].to_u8(),
        ];
        r
    }

    /// Builds a row from five integers; any value outside 1..=6 is rejected.
    pub fn try_from_u8s(values: [u8; 5]) -> (r: Result<DiceRow, ()>)
        ensures
            r is Ok <==> (forall|i: int| 0 <= i < 5 ==> 1 <= #[trigger] values@[i] <= 6),
            r matches Ok(row) ==> forall|i: int| 0 <= i < 5 ==> #[trigger] row@[i] == values@[i] as int,
    {
        let d0 = Die::try_from_u8(values[0]);
        let d1 = Die::try_from_u8(values[1]);
        let d2 = Die::try_from_u8(values[2]);
        let d3 = Die::try_from_u8(values[3]);
        let d4 = Die::try_from_u8(values[4]);
        match (d0, d1, d2, d3, d4) {
            (Ok(a), Ok(b), Ok(c), Ok(d), Ok(e)) => {
                let row = DiceRow { row: [a, b, c, d, e] };
                proof {
                    assert forall|i: int| 0 <= i < 5 implies #[trigger] row@[i] == values@[i] as int by {}
                }
                Ok(row)
            },
            _ => {
                proof {
                    assert(!(forall|i: int| 0 <= i < 5 ==> 1 <= #[trigger] values@[i] <= 6));
                }
                Err(())
            },
        }
    }
}

/// Every row of dice holds five face values, each between 1 and 6.
pub proof fn lemma_row_valid(r: &DiceRow)
    ensures
        row_valid(r@),
{
    assert forall|i: int| 0 <= i < 5 implies 1 <= #[trigger] r@[i] <= 6 by {
        crate::die::lemma_die_value_in_range(r.row@[i]);
    }
}

} // verus!
