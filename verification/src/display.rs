//! The texts that show a round: hands and scores, results, banks. The
//! functions build the text; showing it is left to the caller.

use vstd::prelude::*;
use crate::card::Card;
use crate::hand::{blackjack, is_blackjack, SeatHands, SeatScore};
use crate::settle::HandRef;

verus! {

/// The character of a decimal digit.
pub open spec fn digit(d: nat) -> char {
    if d == 0 {
        '0'
    } else if d == 1 {
        '1'
    } else if d == 2 {
        '2'
    } else if d == 3 {
        '3'
    } else if d == 4 {
        '4'
    } else if d == 5 {
        '5'
    } else if d == 6 {
        '6'
    } else if d == 7 {
        '7'
    } else if d == 8 {
        '8'
    } else {
        '9'
    }
}

/// A number written in decimal, without leading zeros.
pub open spec fn decimal(n: nat) -> Seq<char>
    decreases n,
{
    if n < 10 {
        seq![digit(n)]
    } else {
        decimal(n / 10) + seq![digit(n % 10)]
    }
}

/// The name of the player at `index` of a table with `num_players` seats:
/// the seats are numbered from one, and whoever comes after them is the
/// dealer.
pub open spec fn player_label(index: nat, num_players: nat) -> Seq<char> {
    if index < num_players {
        "Player "@ + decimal(index + 1)
    } else {
        "Dealer"@
    }
}

/// How a card is written: its rank, then its suit.
pub open spec fn card_label(card: Card) -> Seq<char> {
    card.rank.label() + card.suit.label()
}

/// The first `k` cards of a hand, each between slashes.
pub open spec fn cards_text(hand: Seq<Card>, k: nat) -> Seq<char>
    decreases k,
{
    if k == 0 {
        "{"@
    } else {
        cards_text(hand, (k - 1) as nat) + "/ "@ + card_label(hand[k - 1]) + " /"@
    }
}

/// The line that shows one hand with its value.
pub open spec fn hand_line(name: Seq<char>, hand: Seq<Card>, value: u32) -> Seq<char> {
    name + " got hand "@ + cards_text(hand, hand.len()) + "}"@ + " with value "@ + decimal(
        value as nat,
    ) + "!"@ + (if blackjack(hand) {
        " Blackjack!"@
    } else {
        ""@
    }) + "\n"@
}

/// The lines of the entry at `index` of the scores: those of the seat's
/// hands, or the dealer's line where the index is past the seats.
pub open spec fn entry_lines(
    scores: Seq<SeatScore>,
    player_hands: Seq<SeatHands>,
    dealer_hand: Seq<Card>,
    index: int,
) -> Seq<char> {
    let name = player_label(index as nat, player_hands.len());
    if index < player_hands.len() {
        let first = hand_line(name, player_hands[index].0@, scores[index].0);
        match player_hands[index].1 {
            Some(second) => first + hand_line(name, second@, scores[index].1.unwrap()),
            None => first,
        }
    } else {
        hand_line(name, dealer_hand, scores[index].0)
    }
}

/// The lines of the first `k` entries of the scores.
pub open spec fn board_text(
    scores: Seq<SeatScore>,
    player_hands: Seq<SeatHands>,
    dealer_hand: Seq<Card>,
    k: nat,
) -> Seq<char>
    decreases k,
{
    if k == 0 {
        Seq::empty()
    } else {
        board_text(scores, player_hands, dealer_hand, (k - 1) as nat) + entry_lines(
            scores,
            player_hands,
            dealer_hand,
            k - 1,
        )
    }
}

/// How a hand is named in a list of results.
pub open spec fn hand_label(hand: HandRef) -> Seq<char> {
    if hand.1 {
        "Second player "@ + decimal((hand.0 + 1) as nat)
    } else {
        "Player "@ + decimal((hand.0 + 1) as nat)
    }
}

/// The first `k` hands of a list, separated by commas.
pub open spec fn hands_text(hands: Seq<HandRef>, k: nat) -> Seq<char>
    decreases k,
{
    if k == 0 {
        Seq::empty()
    } else if k == 1 {
        hands_text(hands, 0) + hand_label(hands[0])
    } else {
        hands_text(hands, (k - 1) as nat) + ", "@ + hand_label(hands[k - 1])
    }
}

/// The text that shows one list of results under its name.
pub open spec fn result_text(hands: Seq<HandRef>, name: Seq<char>) -> Seq<char> {
    if hands.len() == 0 {
        "There are no "@ + name + " this turn!\n\n"@
    } else {
        "The "@ + name + " are : \n"@ + hands_text(hands, hands.len()) + "\n\n"@
    }
}

/// The text that shows the winners, the ties and the losers of a round.
pub open spec fn results_text(
    winner_index: Seq<HandRef>,
    equal_index: Seq<HandRef>,
    loser_index: Seq<HandRef>,
) -> Seq<char> {
    result_text(winner_index, "winners"@) + result_text(equal_index, "equalities"@) + result_text(
        loser_index,
        "losers"@,
    )
}

/// The first `k` banks, separated by commas.
pub open spec fn amounts_text(bank: Seq<u32>, k: nat) -> Seq<char>
    decreases k,
{
    if k == 0 {
        "Bank is"@
    } else if k == 1 {
        amounts_text(bank, 0) + " : "@ + decimal(bank[0] as nat)
    } else {
        amounts_text(bank, (k - 1) as nat) + ", "@ + decimal(bank[k - 1] as nat)
    }
}

/// The line that shows the banks. Without any bank only the heading is
/// left.
pub open spec fn bank_text(bank: Seq<u32>) -> Seq<char> {
    if bank.len() == 0 {
        "Bank is"@ + " "@ + "\n"@
    } else {
        amounts_text(bank, bank.len()) + "\n"@
    }
}

/// The text of one decimal digit.
fn digit_text(d: u128) -> (text: &'static str)
    requires
        d < 10,
    ensures
        text@ == seq![digit(d as nat)],
{
    proof {
        reveal_strlit("0");
        reveal_strlit("1");
        reveal_strlit("2");
        reveal_strlit("3");
        reveal_strlit("4");
        reveal_strlit("5");
        reveal_strlit("6");
        reveal_strlit("7");
        reveal_strlit("8");
        reveal_strlit("9");
    }
    let text = if d == 0 {
        "0"
    } else if d == 1 {
        "1"
    } else if d == 2 {
        "2"
    } else if d == 3 {
        "3"
    } else if d == 4 {
        "4"
    } else if d == 5 {
        "5"
    } else if d == 6 {
        "6"
    } else if d == 7 {
        "7"
    } else if d == 8 {
        "8"
    } else {
        "9"
    };
    text
}

/// Writes a number in decimal at the end of the text.
fn append_decimal(text: &mut String, n: u128)
    ensures
        final(text)@ == old(text)@ + decimal(n as nat),
    decreases n,
{
    if n >= 10 {
        append_decimal(text, n / 10);
    }
    text.append(digit_text(n % 10));
}

/// The name of a player by index: seats are called `Player 1`, `Player 2`
/// and so on, and every index from `num_players` on is the dealer's.
pub fn player_name(index: usize, num_players: usize) -> (name: String)
    ensures
        name@ == player_label(index as nat, num_players as nat),
{
    if index < num_players {
        let mut name = String::from_str("Player ");
        append_decimal(&mut name, index as u128 + 1);
        name
    } else {
        String::from_str("Dealer")
    }
}

/// Writes one card at the end of the text.
fn append_card(text: &mut String, card: &Card)
    ensures
        final(text)@ == old(text)@ + card_label(*card),
{
    text.append(card.rank.symbol());
    text.append(card.suit.symbol());
}

/// Writes the line of one hand at the end of the text.
fn append_hand_line(text: &mut String, name: &String, hand: &Vec<Card>, value: u32)
    ensures
        final(text)@ == old(text)@ + hand_line(name@, hand@, value),
{
    let mut line = String::new();
    line.append(name.as_str());
    line.append(" got hand ");
    let mut cards = String::from_str("{");
    let mut k: usize = 0;
    while k < hand.len()
        invariant
            k <= hand@.len(),
            cards@ == cards_text(hand@, k as nat),
        decreases hand@.len() - k,
    {
        cards.append("/ ");
        append_card(&mut cards, &hand[k]);
        cards.append(" /");
        k += 1;
    }
    line.append(cards.as_str());
    line.append("}");
    line.append(" with value ");
    append_decimal(&mut line, value as u128);
    line.append("!");
    if is_blackjack(hand) {
        line.append(" Blackjack!");
    } else {
        line.append("");
    }
    line.append("\n");
    text.append(line.as_str());
}

/// Builds the text that shows the hands and scores of all players: one line
/// per hand, the seats in order and the dealer after them. `scores` holds one
/// entry per line group; entries from the number of seats on show the
/// dealer's hand.
pub fn display_hands_and_scores(
    scores: &Vec<SeatScore>,
    player_hands: &Vec<SeatHands>,
    dealer_hand: &Vec<Card>,
) -> (text: String)
    requires
        forall|i: int|
            0 <= i < scores@.len() && i < player_hands@.len() && (
            #[trigger] player_hands@[i]).1 is Some ==> scores@[i].1 is Some,
    ensures
        text@ == board_text(scores@, player_hands@, dealer_hand@, scores@.len()),
{
    let mut text = String::new();
    let mut index: usize = 0;
    while index < scores.len()
        invariant
            index <= scores@.len(),
            forall|i: int|
                0 <= i < scores@.len() && i < player_hands@.len() && (
                #[trigger] player_hands@[i]).1 is Some ==> scores@[i].1 is Some,
            text@ == board_text(scores@, player_hands@, dealer_hand@, index as nat),
        decreases scores@.len() - index,
    {
        let name = player_name(index, player_hands.len());
        let score = scores[index];
        if index < player_hands.len() {
            let seat = &player_hands[index];
            append_hand_line(&mut text, &name, &seat.0, score.0);
            match &seat.1 {
                Some(second) => {
                    append_hand_line(&mut text, &name, second, score.1.unwrap());
                },
                None => {},
            }
        } else {
            append_hand_line(&mut text, &name, dealer_hand, score.0);
        }
        index += 1;
    }
    text
}

/// Builds the text that shows one list of results under its name.
pub fn display_result_vector(index: &Vec<HandRef>, name: &str) -> (text: String)
    ensures
        text@ == result_text(index@, name@),
{
    if index.len() == 0 {
        let mut text = String::from_str("There are no ");
        text.append(name);
        text.append(" this turn!\n\n");
        text
    } else {
        let mut text = String::from_str("The ");
        text.append(name);
        text.append(" are : \n");
        let mut list = String::new();
        let mut k: usize = 0;
        while k < index.len()
            invariant
                k <= index@.len(),
                list@ == hands_text(index@, k as nat),
            decreases index@.len() - k,
        {
            let hand = index[k];
            let mut label = if hand.1 {
                String::from_str("Second player ")
            } else {
                String::from_str("Player ")
            };
            append_decimal(&mut label, hand.0 as u128 + 1);
            if k > 0 {
                list.append(", ");
            }
            list.append(label.as_str());
            k += 1;
        }
        text.append(list.as_str());
        text.append("\n\n");
        text
    }
}

/// Builds the text that shows the results of a round: the hands that beat
/// the dealer, those that tied, and those that lost.
pub fn display_results(
    winner_index: &Vec<HandRef>,
    equal_index: &Vec<HandRef>,
    loser_index: &Vec<HandRef>,
) -> (text: String)
    ensures
        text@ == results_text(winner_index@, equal_index@, loser_index@),
{
    let mut text = display_result_vector(winner_index, "winners");
    let equalities = display_result_vector(equal_index, "equalities");
    text.append(equalities.as_str());
    let losers = display_result_vector(loser_index, "losers");
    text.append(losers.as_str());
    text
}

/// Builds the line that shows the banks of the seats, bets not included.
pub fn display_bank(bank: &Vec<u32>) -> (text: String)
    ensures
        text@ == bank_text(bank@),
{
    let mut text = String::from_str("Bank is");
    if bank.len() == 0 {
        text.append(" ");
        text.append("\n");
        return text;
    }
    let mut k: usize = 0;
    while k < bank.len()
        invariant
            k <= bank@.len(),
            bank@.len() > 0,
            text@ == amounts_text(bank@, k as nat),
        decreases bank@.len() - k,
    {
        if k == 0 {
            text.append(" : ");
        } else {
            text.append(", ");
        }
        append_decimal(&mut text, bank[k] as u128);
        k += 1;
    }
    text.append("\n");
    text
}

} // verus!
