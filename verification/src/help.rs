use vstd::prelude::*;

verus! {

pub const HELP: &'static str = "COMMANDS:\n-----\nroll -- Randomizes the dice that are not held.\nhold (1..5)... -- Hold or unhold the dice.\nscore (category) -- Score a category.\ncats -- List the categories.\n-----";

/// The command summary; every argument list gets the same text.
pub fn help(args: &[&str]) -> (r: &'static str)
    ensures
        r@ == HELP@,
{
    match args {
        _ => HELP,
    }
}

} // verus!
