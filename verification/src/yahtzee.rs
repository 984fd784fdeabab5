use vstd::prelude::*;

verus! {

use crate::categories::Categories;
use crate::categories::ScoreResult;
use crate::categories::ScoreStatus;
use crate::categories::cat_kind;
use crate::categories::cat_name;
use crate::categories::lemma_num_scored_bounds;
use crate::categories::lemma_num_scored_update;
use crate::categories::lemma_points_bounds;
use crate::categories::num_scored;
use crate::categories::score_outcome;
use crate::dicerow::DiceRow;
use crate::dicerow::lemma_row_valid;
use crate::dicerow::row_valid;

/// How many explicit roll commands are left in the turn.
#[derive(Clone, Copy, PartialEq, Eq, Structural, Debug)]
pub enum Rolls {
    Three,
    Two,
    One,
    Zero,
}

impl Rolls {
    /// The counter as an integer in 0..=3.
    pub open spec fn value(self) -> int {
        match self {
            Rolls::Three => 3,
            Rolls::Two => 2,
            Rolls::One => 1,
            Rolls::Zero => 0,
        }
    }

    /// Counts one roll down; at zero nothing changes and the call reports
    /// failure.
    pub fn decrement(&mut self) -> (r: bool)
        ensures
            old(self).value() == 0 ==> *final(self) == *old(self) && !r,
            old(self).value() > 0 ==> final(self).value() == old(self).value() - 1 && r,
    {
        match *self {
            Rolls::Three => {
                *self = Rolls::Two;
                true
            },
            Rolls::Two => {
                *self = Rolls::One;
                true
            },
            Rolls::One => {
                *self = Rolls::Zero;
                true
            },
            Rolls::Zero => false,
        }
    }

    pub fn to_u8(&self) -> (r: u8)
        ensures
            r as int == self.value(),
    {
        match self {
            Rolls::Three => 3,
            Rolls::Two => 2,
            Rolls::One => 1,
            Rolls::Zero => 0,
        }
    }
}

/// What the last player command was and what it reported, for rendering.
pub enum LastCommand {
    Roll(bool),
    Hold(Option<Vec<u8>>),
    Score(Option<ScoreResult>),
    Message(String),
    Idle,
}

/// Every named position is a die position, 1-indexed.
pub open spec fn valid_positions(v: Seq<u8>) -> bool {
    forall|i: int| 0 <= i < v.len() ==> 1 <= #[trigger] v[i] <= 5
}

/// The held mask after toggling each named 1-indexed position in turn:
/// naming a position twice puts it back.
pub open spec fn toggle_positions(held: Seq<bool>, v: Seq<u8>) -> Seq<bool>
    decreases v.len(),
{
    if v.len() == 0 {
        held
    } else {
        toggle_positions(held.update(v[0] - 1, !held[v[0] - 1]), v.drop_first())
    }
}

/// The whole game: the dice, the held mask, the roll counter, the running
/// total and the category board.
pub struct Yahtzee {
    row: DiceRow,
    held: [bool; 5],
    rolls_left: Rolls,
    score: u16,
    categories: Categories,
    last_command: LastCommand,
}

impl Yahtzee {
    /// The five face values on the table.
    pub closed spec fn spec_dice(&self) -> Seq<int> {
        self.row@
    }

    /// Which positions are held against the next reroll.
    pub closed spec fn spec_held(&self) -> Seq<bool> {
        self.held@
    }

    /// How many explicit rolls are left this turn.
    pub closed spec fn spec_rolls(&self) -> int {
        self.rolls_left.value()
    }

    /// The cumulative score of the game.
    pub closed spec fn spec_score(&self) -> int {
        self.score as int
    }

    /// The commitment status of each category, in display order.
    pub closed spec fn spec_statuses(&self) -> Seq<ScoreStatus> {
        self.categories.statuses()
    }

    /// What the last command reported.
    pub closed spec fn spec_last(&self) -> LastCommand {
        self.last_command
    }

    /// The game is well formed: the board is, and the running total never
    /// exceeds 50 points for each committed category.
    pub closed spec fn wf(&self) -> bool {
        &&& self.categories.wf()
        &&& self.spec_score() <= 50 * num_scored(self.spec_statuses())
    }

    /// Starts a game: a pre-rolled row, nothing held, two explicit rolls
    /// left, score zero, all thirteen categories open.
    pub fn new() -> (g: Yahtzee)
        ensures
            g.wf(),
            g.spec_score() == 0,
            g.spec_rolls() == 2,
            forall|i: int| 0 <= i < 5 ==> !g.spec_held()[i],
            g.spec_statuses().len() == 13,
            forall|i: int| 0 <= i < 13 ==> g.spec_statuses()[i] is Unscored,
            g.spec_last() is Idle,
            row_valid(g.spec_dice()),
    {
        let g = Yahtzee {
            row: DiceRow::roll(),
            held: [false, false, false, false, false],
            rolls_left: Rolls::Two,
            score: 0,
            categories: Categories::new(),
            last_command: LastCommand::Idle,
        };
        proof {
            lemma_num_scored_bounds(g.spec_statuses());
        }
        g
    }

    /// The roll command: with rolls left, counts one down and rerolls every
    /// unheld die; with none left, changes nothing and reports failure.
    pub fn roll(&mut self)
        requires
            old(self).wf(),
        ensures
            final(self).wf(),
            final(self).spec_score() == old(self).spec_score(),
            final(self).spec_held() == old(self).spec_held(),
            final(self).spec_statuses() =~= old(self).spec_statuses(),
            row_valid(final(self).spec_dice()),
            old(self).spec_rolls() == 0 ==> final(self).spec_rolls() == 0 && final(self).spec_dice() == old(self).spec_dice() && final(self).spec_last()
                == LastCommand::Roll(false),
            old(self).spec_rolls() > 0 ==> final(self).spec_rolls() == old(self).spec_rolls() - 1
                && (forall|i: int|
                0 <= i < 5 && old(self).spec_held()[i] ==> final(self).spec_dice()[i] == old(self).spec_dice()[i]) && final(self).spec_last() == LastCommand::Roll(true),
    {
        proof {
            lemma_row_valid(&self.row);
        }
        let did = self.rolls_left.decrement();
        if did {
            self.row.reroll(self.held);
        }
        self.last_command = LastCommand::Roll(did);
    }

    /// The hold command: with well-formed positions, toggles each named
    /// die's held flag; with none given or any position out of range, the
    /// whole request is rejected and the mask stays as it was.
    pub fn hold(&mut self, hold: Option<Vec<u8>>)
        requires
            old(self).wf(),
        ensures
            final(self).wf(),
            final(self).spec_score() == old(self).spec_score(),
            final(self).spec_rolls() == old(self).spec_rolls(),
            final(self).spec_dice() == old(self).spec_dice(),
            final(self).spec_statuses() =~= old(self).spec_statuses(),
            hold is None ==> final(self).spec_held() == old(self).spec_held() && final(self).spec_last() == LastCommand::Hold(None),
            hold matches Some(v) ==> (!valid_positions(v@) ==> final(self).spec_held() == old(self).spec_held() && final(self).spec_last() == LastCommand::Hold(None)),
            hold matches Some(v) ==> (valid_positions(v@) ==> final(self).spec_held() =~= toggle_positions(old(self).spec_held(), v@) && final(self).spec_last() == LastCommand::Hold(hold)),
    {
        let v = match hold {
            None => {
                self.last_command = LastCommand::Hold(None);
                return ;
            },
            Some(v) => v,
        };
        let mut ok = true;
        let mut i: usize = 0;
        while i < v.len()
            invariant
                i <= v.len(),
                ok == (forall|j: int| 0 <= j < i ==> 1 <= #[trigger] v@[j] <= 5),
            decreases v.len() - i,
        {
            let x = v[i];
            if x < 1 || x > 5 {
                ok = false;
            }
            i = i + 1;
        }
        if !ok {
            self.last_command = LastCommand::Hold(None);
            return ;
        }
        let ghost old_held = self.held@;
        proof {
            assert(v@.skip(0) =~= v@);
        }
        let mut j: usize = 0;
        while j < v.len()
            invariant
                j <= v.len(),
                valid_positions(v@),
                self.held@.len() == 5,
                toggle_positions(old_held, v@) == toggle_positions(self.held@, v@.skip(j as int)),
                self.row == old(self).row,
                self.rolls_left == old(self).rolls_left,
                self.score == old(self).score,
                self.categories == old(self).categories,
            decreases v.len() - j,
        {
            let ghost held_before = self.held@;
            assert(1 <= v@[j as int] <= 5);
            let idx = (v[j] - 1) as usize;
            self.held[idx] = !self.held[idx];
            proof {
                let s = v@.skip(j as int);
                assert(s[0] == v@[j as int]);
                assert(s.drop_first() =~= v@.skip(j as int + 1));
                assert(toggle_positions(held_before, s) == toggle_positions(
                    held_before.update(s[0] - 1, !held_before[s[0] - 1]),
                    s.drop_first(),
                ));
                assert(self.held@ =~= held_before.update(s[0] - 1, !held_before[s[0] - 1]));
            }
            j = j + 1;
        }
        proof {
            assert(v@.skip(v@.len() as int) =~= Seq::<u8>::empty());
        }
        self.last_command = LastCommand::Hold(Some(v));
    }

    /// The score command: commits the named category against the current
    /// dice. On a first-time commitment the earned points are added, the
    /// held mask clears, the dice reroll, and two explicit rolls are left
    /// again; an unknown or already committed category changes nothing
    /// beyond the report.
    pub fn score(&mut self, name: &str)
        requires
            old(self).wf(),
        ensures
            final(self).wf(),
            row_valid(final(self).spec_dice()),
            final(self).spec_statuses().len() == 13,
            (forall|i: int| 0 <= i < 13 ==> name@ != #[trigger] cat_name(i)) ==> {
                &&& final(self).spec_statuses() =~= old(self).spec_statuses()
                &&& final(self).spec_score() == old(self).spec_score()
                &&& final(self).spec_held() == old(self).spec_held()
                &&& final(self).spec_rolls() == old(self).spec_rolls()
                &&& final(self).spec_dice() == old(self).spec_dice()
                &&& final(self).spec_last() == LastCommand::Score(None)
            },
            forall|i: int|
                0 <= i < 13 && name@ == #[trigger] cat_name(i) ==> match old(self).spec_statuses()[i] {
                    ScoreStatus::Scored(_) => {
                        &&& final(self).spec_statuses() =~= old(self).spec_statuses()
                        &&& final(self).spec_score() == old(self).spec_score()
                        &&& final(self).spec_held() == old(self).spec_held()
                        &&& final(self).spec_rolls() == old(self).spec_rolls()
                        &&& final(self).spec_dice() == old(self).spec_dice()
                        &&& final(self).spec_last() == LastCommand::Score(
                            Some(ScoreResult::AlreadyScored),
                        )
                    },
                    ScoreStatus::Unscored => {
                        let outcome = score_outcome(cat_kind(i), old(self).spec_dice());
                        &&& final(self).spec_statuses() =~= old(self).spec_statuses().update(
                            i,
                            ScoreStatus::Scored(outcome),
                        )
                        &&& final(self).spec_score() == old(self).spec_score() + (match outcome {
                            Some(p) => p as int,
                            None => 0,
                        })
                        &&& forall|k: int| 0 <= k < 5 ==> !final(self).spec_held()[k]
                        &&& final(self).spec_rolls() == 2
                        &&& final(self).spec_last() == LastCommand::Score(
                            Some(ScoreResult::Score(outcome)),
                        )
                    },
                },
    {
        proof {
            lemma_row_valid(&self.row);
            crate::categories::lemma_cat_names_distinct();
            old(self).categories.lemma_statuses_len();
            lemma_num_scored_bounds(old(self).spec_statuses());
        }
        let res = self.categories.score(name, &self.row);
        proof {
            self.categories.lemma_statuses_len();
        }
        match res {
            Some(ScoreResult::Score(opt)) => {
                proof {
                    if !(exists|i: int| 0 <= i < 13 && name@ == cat_name(i)) {
                        assert(forall|i: int| 0 <= i < 13 ==> name@ != #[trigger] cat_name(i));
                        assert(false);
                    }
                    let i = choose|i: int| 0 <= i < 13 && name@ == cat_name(i);
                    assert(old(self).spec_statuses()[i] is Unscored);
                    lemma_points_bounds(cat_kind(i), self.row@);
                    lemma_num_scored_update(
                        old(self).spec_statuses(),
                        i,
                        ScoreStatus::Scored(score_outcome(cat_kind(i), self.row@)),
                    );
                    lemma_num_scored_bounds(self.spec_statuses());
                }
                match opt {
                    Some(p) => {
                        self.score = self.score + p;
                    },
                    None => {},
                }
                self.held = [false, false, false, false, false];
                self.row.reroll(self.held);
                self.rolls_left = Rolls::Two;
                self.last_command = LastCommand::Score(Some(ScoreResult::Score(opt)));
            },
            Some(ScoreResult::AlreadyScored) => {
                self.last_command = LastCommand::Score(Some(ScoreResult::AlreadyScored));
            },
            None => {
                self.last_command = LastCommand::Score(None);
            },
        }
    }

    /// Records a free-form message as the last reported outcome.
    pub fn message(&mut self, message: String)
        requires
            old(self).wf(),
        ensures
            final(self).wf(),
            final(self).spec_score() == old(self).spec_score(),
            final(self).spec_held() == old(self).spec_held(),
            final(self).spec_rolls() == old(self).spec_rolls(),
            final(self).spec_dice() == old(self).spec_dice(),
            final(self).spec_statuses() =~= old(self).spec_statuses(),
            final(self).spec_last() == LastCommand::Message(message),
    {
        self.last_command = LastCommand::Message(message);
    }

    /// The five face values, for display.
    pub fn dice(&self) -> (r: [u8; 5])
        ensures
            forall|i: int| 0 <= i < 5 ==> #[trigger] r@[i] as int == self.spec_dice()[i],
    {
        self.row.to_u8()
    }

    /// The held mask, for display.
    pub fn held(&self) -> (r: [bool; 5])
        ensures
            r@ == self.spec_held(),
    {
        self.held
    }

    /// How many explicit rolls are left, for display.
    pub fn rolls_left(&self) -> (r: u8)
        ensures
            r as int == self.spec_rolls(),
    {
        self.rolls_left.to_u8()
    }

    /// The cumulative score, for display.
    pub fn current_score(&self) -> (r: u16)
        ensures
            r as int == self.spec_score(),
    {
        self.score
    }

    /// The category board, for display.
    pub fn categories(&self) -> (r: &Categories)
        requires
            self.wf(),
        ensures
            r.wf(),
            r.statuses() == self.spec_statuses(),
    {
        &self.categories
    }

    /// What the last command reported, for rendering.
    pub fn last(&self) -> (r: &LastCommand)
        ensures
            *r == self.spec_last(),
    {
        &self.last_command
    }
}

} // verus!
