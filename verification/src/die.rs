use vstd::prelude::*;

verus! {

/// A six-sided die face.
#[derive(Clone, Copy, PartialEq, Eq, Structural, Debug)]
pub enum Die {
    One,
    Two,
    Three,
    Four,
    Five,
    Six,
}

impl Die {
    /// The face value shown by the die, an integer in 1..=6.
    pub open spec fn value(self) -> int {
        match self {
            Die::One => 1,
            Die::Two => 2,
            Die::Three => 3,
            Die::Four => 4,
            Die::Five => 5,
            Die::Six => 6,
        }
    }

    /// Rolls a fresh die: a face drawn from the process-wide random source.
    pub fn roll() -> (r: Die)
        ensures
            1 <= r.value() <= 6,
    {
        let v = sample_die_value();
        if v == 1 {
            Die::One
        } else if v == 2 {
            Die::Two
        } else if v == 3 {
            Die::Three
        } else if v == 4 {
            Die::Four
        } else if v == 5 {
            Die::Five
        } else {
            Die::Six
        }
    }

    pub fn to_u8(&self) -> (r: u8)
        ensures
            r as int == self.value(),
    {
        match self {
            Die::One => 1,
            Die::Two => 2,
            Die::Three => 3,
            Die::Four => 4,
            Die::Five => 5,
            Die::Six => 6,
        }
    }

    /// Builds the die showing `value`; any integer outside 1..=6 is rejected.
    pub fn try_from_u8(value: u8) -> (r: Result<Die, ()>)
        ensures
            r is Ok <==> 1 <= value <= 6,
            r matches Ok(d) ==> d.value() == value as int,
    {
        match value {
            1 => Ok(Die::One),
            2 => Ok(Die::Two),
            3 => Ok(Die::Three),
            4 => Ok(Die::Four),
            5 => Ok(Die::Five),
            6 => Ok(Die::Six),
            _ => Err(()),
        }
    }
}

/// Every die shows a face value between 1 and 6.
pub proof fn lemma_die_value_in_range(d: Die)
    ensures
        1 <= d.value() <= 6,
{
}

/// Relies on rand's `Rng::gen_range` on the thread-local generator:
/// it returns a value inside the given non-empty range, here 1..=6.
#[verifier::external_body]
fn sample_die_value() -> (r: u8)
    ensures
        1 <= r <= 6,
{
    rand::Rng::gen_range(&mut rand::thread_rng(), 1u8..=6u8)
}

} // verus!
