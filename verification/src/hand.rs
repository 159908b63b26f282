//! Hand arithmetic: the value of a hand with its ace rule, blackjack and
//! split eligibility, and the score sheet of a whole table.

use vstd::prelude::*;
use vstd::seq_lib::*;
use crate::card::{Card, Rank};

verus! {

/// The hands of one seat: the primary hand, and the second hand once the seat
/// has split.
pub type SeatHands = (Vec<Card>, Option<Vec<Card>>);

/// The scores of one seat, laid out like its hands.
pub type SeatScore = (u32, Option<u32>);

/// Sum of the cards' points with every ace counted as one.
pub open spec fn hard_total(hand: Seq<Card>) -> nat
    decreases hand.len(),
{
    if hand.len() == 0 {
        0
    } else {
        hard_total(hand.drop_last()) + hand.last().rank.points()
    }
}

/// Whether some card of the hand is an ace.
pub open spec fn has_ace(hand: Seq<Card>) -> bool {
    exists|i: int| 0 <= i < hand.len() && (#[trigger] hand[i]).rank == Rank::Ace
}

/// The blackjack value of a hand: the hard total, plus ten when the hand
/// holds an ace and the hard total is at most eleven. Only one ace is ever
/// promoted.
pub open spec fn hand_total(hand: Seq<Card>) -> nat {
    if has_ace(hand) && hard_total(hand) <= 11 {
        hard_total(hand) + 10
    } else {
        hard_total(hand)
    }
}

/// A blackjack is a two-card hand worth 21.
pub open spec fn blackjack(hand: Seq<Card>) -> bool {
    hand.len() == 2 && hand_total(hand) == 21
}

/// A hand can be split when it is exactly two cards of one rank.
pub open spec fn splittable(hand: Seq<Card>) -> bool {
    hand.len() == 2 && hand[0].rank == hand[1].rank
}

/// Hands short enough for their value to fit the machine integer.
pub open spec fn countable(hand: Seq<Card>) -> bool {
    10 * hand.len() + 10 <= u32::MAX
}

/// Every hand of the seat is countable.
pub open spec fn seat_countable(seat: SeatHands) -> bool {
    countable(seat.0@) && (seat.1 is Some ==> countable(seat.1.unwrap()@))
}

/// The scores of one seat's hands.
pub open spec fn seat_score(seat: SeatHands) -> SeatScore {
    (
        hand_total(seat.0@) as u32,
        match seat.1 {
            Some(second) => Some(hand_total(second@) as u32),
            None => None,
        },
    )
}

/// The blackjack flags of one seat's hands.
pub open spec fn seat_blackjack(seat: SeatHands) -> (bool, Option<bool>) {
    (
        blackjack(seat.0@),
        match seat.1 {
            Some(second) => Some(blackjack(second@)),
            None => None,
        },
    )
}

/// Every card counts at least one and at most ten.
pub proof fn lemma_hard_total_bounds(hand: Seq<Card>)
    ensures
        hand.len() <= hard_total(hand) <= 10 * hand.len(),
    decreases hand.len(),
{
    if hand.len() > 0 {
        lemma_hard_total_bounds(hand.drop_last());
    }
}

/// Adding a card adds its points to the hard total.
pub proof fn lemma_hard_total_push(hand: Seq<Card>, card: Card)
    ensures
        hard_total(hand.push(card)) == hard_total(hand) + card.rank.points(),
{
    assert(hand.push(card).drop_last() =~= hand);
}

/// Taking one card out of a hand takes its points out of the hard total.
pub proof fn lemma_hard_total_remove(hand: Seq<Card>, j: int)
    requires
        0 <= j < hand.len(),
    ensures
        hard_total(hand) == hard_total(hand.remove(j)) + hand[j].rank.points(),
    decreases hand.len(),
{
    if j < hand.len() - 1 {
        lemma_hard_total_remove(hand.drop_last(), j);
        assert(hand.remove(j).drop_last() =~= hand.drop_last().remove(j));
    }
}

/// The hard total depends only on which cards are held, not on their order.
pub proof fn lemma_hard_total_reordered(a: Seq<Card>, b: Seq<Card>)
    requires
        a.to_multiset() == b.to_multiset(),
    ensures
        hard_total(a) == hard_total(b),
    decreases a.len(),
{
    broadcast use {to_multiset_len, to_multiset_contains, to_multiset_remove};

    assert(a.len() == b.len()) by {
        assert(b.to_multiset().len() == b.len());
    }
    if a.len() > 0 {
        let x = a.last();
        assert(b.to_multiset().count(x) > 0);
        let j = choose|j: int| 0 <= j < b.len() && b[j] == x;
        assert(a.remove(a.len() - 1).to_multiset() == a.to_multiset().remove(x));
        lemma_hard_total_reordered(a.drop_last(), b.remove(j));
        lemma_hard_total_remove(b, j);
    }
}

/// Whether a hand holds an ace depends only on which cards are held.
pub proof fn lemma_has_ace_reordered(a: Seq<Card>, b: Seq<Card>)
    requires
        a.to_multiset() == b.to_multiset(),
        has_ace(a),
    ensures
        has_ace(b),
{
    broadcast use to_multiset_contains;

    let i = choose|i: int| 0 <= i < a.len() && (#[trigger] a[i]).rank == Rank::Ace;
    let x = a[i];
    assert(b.to_multiset().count(x) > 0);
    let j = choose|j: int| 0 <= j < b.len() && b[j] == x;
    assert(b[j].rank == Rank::Ace);
}

/// The value of a hand does not depend on the order of its cards: two hands
/// holding the same cards, each as often as the other, are worth the same.
pub proof fn lemma_value_order_independent(a: Seq<Card>, b: Seq<Card>)
    requires
        a.to_multiset() == b.to_multiset(),
    ensures
        hand_total(a) == hand_total(b),
        blackjack(a) == blackjack(b),
{
    broadcast use to_multiset_len;

    lemma_hard_total_reordered(a, b);
    if has_ace(a) {
        lemma_has_ace_reordered(a, b);
    }
    if has_ace(b) {
        lemma_has_ace_reordered(b, a);
    }
    assert(b.to_multiset().len() == b.len());
}

/// The hard total of a two-card hand is the sum of its two cards.
pub proof fn lemma_hard_total_pair(hand: Seq<Card>)
    requires
        hand.len() == 2,
    ensures
        hard_total(hand) == hand[0].rank.points() + hand[1].rank.points(),
{
    let one = hand.drop_last();
    assert(hard_total(one) == hard_total(one.drop_last()) + one.last().rank.points());
}

/// Whether the hand is exactly two cards, one an ace and the other counting
/// ten, in either order.
pub open spec fn ace_and_ten(hand: Seq<Card>) -> bool {
    hand.len() == 2 && ((hand[0].rank == Rank::Ace && hand[1].rank.is_ten_valued()) || (
    hand[1].rank == Rank::Ace && hand[0].rank.is_ten_valued()))
}

/// A hand of one ace and one card that counts ten is worth 21 and is a
/// blackjack, and no other two-card hand is one.
pub proof fn lemma_blackjack_is_ace_and_ten(hand: Seq<Card>)
    requires
        hand.len() == 2,
    ensures
        ace_and_ten(hand) ==> hand_total(hand) == 21,
        blackjack(hand) <==> ace_and_ten(hand),
{
    lemma_hard_total_pair(hand);
    if has_ace(hand) {
        let i = choose|i: int| 0 <= i < hand.len() && (#[trigger] hand[i]).rank == Rank::Ace;
        assert(i == 0 || i == 1);
    }
}

/// Only two-card hands are blackjacks, and only two-card hands can be split:
/// a hand of three or more cards is neither, whatever it is worth.
pub proof fn lemma_long_hand_is_plain(hand: Seq<Card>)
    requires
        hand.len() != 2,
    ensures
        !blackjack(hand),
        !splittable(hand),
{
}

/// The points of one card, with the ace counted as one.
fn rank_points(rank: &Rank) -> (points: u32)
    ensures
        points == rank.points(),
        1 <= points <= 10,
{
    match rank {
        Rank::Ace => 1,
        Rank::Two => 2,
        Rank::Three => 3,
        Rank::Four => 4,
        Rank::Five => 5,
        Rank::Six => 6,
        Rank::Seven => 7,
        Rank::Eight => 8,
        Rank::Nine => 9,
        _ => 10,
    }
}

/// Computes the value of a hand. Aces count eleven whenever that does not
/// take the hand over 21, one otherwise.
pub fn hand_value(hand: &Vec<Card>) -> (value: u32)
    requires
        countable(hand@),
    ensures
        value == hand_total(hand@),
{
    let mut value: u32 = 0;
    let mut found_ace = false;
    let mut i: usize = 0;
    while i < hand.len()
        invariant
            i <= hand@.len(),
            countable(hand@),
            value == hard_total(hand@.take(i as int)),
            value <= 10 * i,
            found_ace == has_ace(hand@.take(i as int)),
        decreases hand@.len() - i,
    {
        let card = &hand[i];
        proof {
            let before = hand@.take(i as int);
            let after = hand@.take(i + 1);
            assert(after =~= before.push(hand@[i as int]));
            lemma_hard_total_push(before, hand@[i as int]);
            if has_ace(before) {
                let j = choose|j: int|
                    0 <= j < before.len() && (#[trigger] before[j]).rank == Rank::Ace;
                assert(after[j].rank == Rank::Ace);
            }
            if hand@[i as int].rank == Rank::Ace {
                assert(after[i as int].rank == Rank::Ace);
            }
            if has_ace(after) {
                let j = choose|j: int|
                    0 <= j < after.len() && (#[trigger] after[j]).rank == Rank::Ace;
                assert(j < i ==> before[j].rank == Rank::Ace);
            }
        }
        if card.rank == Rank::Ace {
            found_ace = true;
        }
        value += rank_points(&card.rank);
        i += 1;
    }
    assert(hand@.take(i as int) =~= hand@);
    if found_ace && value < 12 {
        value += 10;
    }
    value
}

/// Tells whether the hand is a blackjack: two cards worth 21.
pub fn is_blackjack(hand: &Vec<Card>) -> (yes: bool)
    ensures
        yes == blackjack(hand@),
{
    hand.len() == 2 && hand_value(hand) == 21
}

/// Tells whether the hand can legally be split: the player has not drawn yet
/// and both cards have the same rank.
pub fn is_splittable(hand: &Vec<Card>) -> (yes: bool)
    ensures
        yes == splittable(hand@),
        yes <==> hand@.len() == 2 && hand@[0].rank == hand@[1].rank,
{
    hand.len() == 2 && hand[0].rank == hand[1].rank
}

/// Computes the scores of all seats and of the dealer, whose score comes
/// last and never has a second part.
pub fn compute_scores(player_hands: &Vec<SeatHands>, dealer_hand: &Vec<Card>) -> (scores: Vec<
    SeatScore,
>)
    requires
        forall|i: int| 0 <= i < player_hands@.len() ==> seat_countable(#[trigger] player_hands@[i]),
        countable(dealer_hand@),
    ensures
        scores@.len() == player_hands@.len() + 1,
        forall|i: int|
            0 <= i < player_hands@.len() ==> #[trigger] scores@[i] == seat_score(player_hands@[i]),
        scores@[player_hands@.len() as int] == (hand_total(dealer_hand@) as u32, None::<u32>),
{
    let mut scores: Vec<SeatScore> = Vec::new();
    let mut i: usize = 0;
    while i < player_hands.len()
        invariant
            i <= player_hands@.len(),
            scores@.len() == i,
            forall|k: int|
                0 <= k < player_hands@.len() ==> seat_countable(#[trigger] player_hands@[k]),
            forall|k: int| 0 <= k < i ==> #[trigger] scores@[k] == seat_score(player_hands@[k]),
        decreases player_hands@.len() - i,
    {
        let seat = &player_hands[i];
        let first = hand_value(&seat.0);
        let second = match &seat.1 {
            Some(hand) => Some(hand_value(hand)),
            None => None,
        };
        scores.push((first, second));
        i += 1;
    }
    scores.push((hand_value(dealer_hand), None));
    scores
}

/// Computes the blackjack flags of all seats and of the dealer, laid out
/// like the scores.
pub fn compute_blackjack_index(player_hands: &Vec<SeatHands>, dealer_hand: &Vec<Card>) -> (flags:
    Vec<(bool, Option<bool>)>)
    ensures
        flags@.len() == player_hands@.len() + 1,
        forall|i: int|
            0 <= i < player_hands@.len() ==> #[trigger] flags@[i] == seat_blackjack(
                player_hands@[i],
            ),
        flags@[player_hands@.len() as int] == (blackjack(dealer_hand@), None::<bool>),
{
    let mut flags: Vec<(bool, Option<bool>)> = Vec::new();
    let mut i: usize = 0;
    while i < player_hands.len()
        invariant
            i <= player_hands@.len(),
            flags@.len() == i,
            forall|k: int| 0 <= k < i ==> #[trigger] flags@[k] == seat_blackjack(player_hands@[k]),
        decreases player_hands@.len() - i,
    {
        let seat = &player_hands[i];
        let first = is_blackjack(&seat.0);
        let second = match &seat.1 {
            Some(hand) => Some(is_blackjack(hand)),
            None => None,
        };
        flags.push((first, second));
        i += 1;
    }
    flags.push((is_blackjack(dealer_hand), None));
    flags
}

} // verus!
