//! The player's balance and what things cost.
use vstd::prelude::*;

verus! {

/// Balance at the start of a game.
pub const START_MONEY: u32 = 99999;

/// Price of a train.
pub const TRAIN_COST: u32 = 50;

/// Price of a station.
pub const STATION_COST: u32 = 100;

/// The player's balance.
pub struct Money(pub u32);

impl Money {
    /// The balance of a new game.
    pub fn new() -> (m: Money)
        ensures
            m.0 == START_MONEY,
    {
        Money(START_MONEY)
    }
}

} // verus!
