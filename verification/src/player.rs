//! The players: who may sit at the table, what a player may do, and the
//! fixed policies of the automatic player and of the dealer.

use vstd::prelude::*;
use crate::hand::SeatScore;

verus! {

/// Who decides for a seat.
#[derive(Clone, Copy, Debug, PartialEq, Eq, Structural)]
pub enum PlayerType {
    Bot,
    Human,
    Dealer,
}

/// What a player may do when it is their turn.
#[derive(Clone, Copy, Debug, PartialEq, Eq, Structural)]
pub enum PlayerAction {
    Hit,
    Stand,
    Double,
    Split,
}

/// The automatic player's policy: stand above 16, or above 11 when the
/// dealer shows less than 7; otherwise double, where that is legal, above 8
/// against a dealer showing less than 7; otherwise hit.
pub open spec fn bot_choice(player_score: int, dealer_score: int, double_is_legal: bool)
    -> PlayerAction {
    if player_score > 16 || (player_score > 11 && dealer_score < 7) {
        PlayerAction::Stand
    } else if double_is_legal && dealer_score < 7 && player_score > 8 {
        PlayerAction::Double
    } else {
        PlayerAction::Hit
    }
}

/// The dealer's rule: hit below 17, stand from 17 on.
pub open spec fn dealer_choice(score: int) -> PlayerAction {
    if score < 17 {
        PlayerAction::Hit
    } else {
        PlayerAction::Stand
    }
}

/// The score of the hand in play: the seat's second score when `is_second`,
/// its first otherwise.
pub open spec fn score_in_play(scores: Seq<SeatScore>, index: int, is_second: bool) -> int {
    if is_second {
        scores[index].1.unwrap() as int
    } else {
        scores[index].0 as int
    }
}

/// Decides for an automatic player. `scores` holds the seats' scores and, in
/// its last entry, the value the dealer shows.
pub fn bot_play(scores: &Vec<SeatScore>, is_second: bool, index: usize, double_is_legal: bool)
    -> (action: PlayerAction)
    requires
        index < scores@.len(),
        is_second ==> scores@[index as int].1 is Some,
    ensures
        action == bot_choice(
            score_in_play(scores@, index as int, is_second),
            scores@.last().0 as int,
            double_is_legal,
        ),
{
    let player_score: u32 = if is_second {
        scores[index].1.unwrap()
    } else {
        scores[index].0
    };
    let dealer_score: u32 = scores[scores.len() - 1].0;
    if player_score > 16 || (player_score > 11 && dealer_score < 7) {
        PlayerAction::Stand
    } else if double_is_legal && dealer_score < 7 && player_score > 8 {
        PlayerAction::Double
    } else {
        PlayerAction::Hit
    }
}

/// Decides for the dealer, whose score is the entry at `index`.
pub fn dealer_play(scores: &Vec<SeatScore>, index: usize) -> (action: PlayerAction)
    requires
        index < scores@.len(),
    ensures
        action == dealer_choice(scores@[index as int].0 as int),
{
    if scores[index].0 < 17 {
        PlayerAction::Hit
    } else {
        PlayerAction::Stand
    }
}

} // verus!
