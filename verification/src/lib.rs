//! Casino blackjack for one dealer and any number of seats: cards, hand
//! values, the shoe, the players' policies, the turn rules and settlement.

pub mod card;
pub mod deck;
pub mod display;
pub mod hand;
pub mod input;
pub mod player;
pub mod round;
pub mod settle;
