pub mod categories;
pub mod dicerow;
pub mod die;
pub mod help;
pub mod yahtzee;
