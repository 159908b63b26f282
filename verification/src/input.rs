//! What a player types: a line is trimmed and read as an action, a player
//! type or an amount.

use vstd::prelude::*;
use crate::player::{PlayerAction, PlayerType};

verus! {

/// The value of a decimal digit, if the character is one.
pub open spec fn digit_of(c: char) -> Option<nat> {
    if c == '0' {
        Some(0)
    } else if c == '1' {
        Some(1)
    } else if c == '2' {
        Some(2)
    } else if c == '3' {
        Some(3)
    } else if c == '4' {
        Some(4)
    } else if c == '5' {
        Some(5)
    } else if c == '6' {
        Some(6)
    } else if c == '7' {
        Some(7)
    } else if c == '8' {
        Some(8)
    } else if c == '9' {
        Some(9)
    } else {
        None
    }
}

/// Whether every character is a decimal digit.
pub open spec fn all_digits(text: Seq<char>) -> bool {
    forall|i: int| 0 <= i < text.len() ==> digit_of(#[trigger] text[i]) is Some
}

/// The number that a run of digits writes.
pub open spec fn digits_value(text: Seq<char>) -> nat
    decreases text.len(),
{
    if text.len() == 0 {
        0
    } else {
        digits_value(text.drop_last()) * 10 + match digit_of(text.last()) {
            Some(d) => d,
            None => 0,
        }
    }
}

/// The digits of a typed amount: the text itself, less a leading plus
/// sign.
pub open spec fn unsigned_part(text: Seq<char>) -> Seq<char> {
    if text.len() > 0 && text[0] == '+' {
        text.skip(1)
    } else {
        text
    }
}

/// The amount that a text writes: one or more decimal digits, a plus sign
/// before them if any, and a value that fits the machine integer.
pub open spec fn number_named(text: Seq<char>) -> Option<u32> {
    let digits = unsigned_part(text);
    if digits.len() > 0 && all_digits(digits) && digits_value(digits) <= u32::MAX {
        Some(digits_value(digits) as u32)
    } else {
        None
    }
}

/// The action that a word names.
pub open spec fn action_named(text: Seq<char>) -> Option<PlayerAction> {
    if text == "Hit"@ {
        Some(PlayerAction::Hit)
    } else if text == "Stand"@ {
        Some(PlayerAction::Stand)
    } else if text == "Split"@ {
        Some(PlayerAction::Split)
    } else if text == "Double"@ {
        Some(PlayerAction::Double)
    } else {
        None
    }
}

/// The player type that a word names. The dealer cannot be chosen.
pub open spec fn player_type_named(text: Seq<char>) -> Option<PlayerType> {
    if text == "Human"@ {
        Some(PlayerType::Human)
    } else if text == "Bot"@ {
        Some(PlayerType::Bot)
    } else {
        None
    }
}

/// A line without its end: a final line feed is dropped, and then a final
/// carriage return.
pub open spec fn line_trimmed(text: Seq<char>) -> Seq<char> {
    let less = if text.len() > 0 && text.last() == '\n' {
        text.drop_last()
    } else {
        text
    };
    if less.len() > 0 && less.last() == '\r' {
        less.drop_last()
    } else {
        less
    }
}

/// More digits never write a smaller number.
pub proof fn lemma_digits_value_prefix(text: Seq<char>, k: int)
    requires
        0 <= k <= text.len(),
    ensures
        digits_value(text.take(k)) <= digits_value(text),
    decreases text.len() - k,
{
    if k == text.len() {
        assert(text.take(k) =~= text);
    } else {
        lemma_digits_value_prefix(text, k + 1);
        assert(text.take(k + 1).drop_last() =~= text.take(k));
        assert(digits_value(text.take(k)) <= digits_value(text.take(k)) * 10) by (nonlinear_arith);
    }
}

/// Removes the end of a line as read from a terminal.
pub fn trim_line(text: &str) -> (line: &str)
    ensures
        line@ == line_trimmed(text@),
{
    let mut end: usize = text.unicode_len();
    if end > 0 && text.get_char(end - 1) == '\n' {
        end -= 1;
    }
    if end > 0 && text.get_char(end - 1) == '\r' {
        end -= 1;
    }
    let line = text.substring_char(0, end);
    assert(line@ =~= line_trimmed(text@));
    line
}

/// Whether two texts are the same.
fn same_text(a: &str, b: &str) -> (same: bool)
    ensures
        same == (a@ == b@),
{
    String::from_str(a) == String::from_str(b)
}

/// Reads the name of an action: `Hit`, `Stand`, `Split` or `Double`.
pub fn parse_action(text: &str) -> (action: Option<PlayerAction>)
    ensures
        action == action_named(text@),
{
    if same_text(text, "Hit") {
        Some(PlayerAction::Hit)
    } else if same_text(text, "Stand") {
        Some(PlayerAction::Stand)
    } else if same_text(text, "Split") {
        Some(PlayerAction::Split)
    } else if same_text(text, "Double") {
        Some(PlayerAction::Double)
    } else {
        None
    }
}

/// Reads the type of a player: `Human` or `Bot`.
pub fn parse_player_type(text: &str) -> (kind: Option<PlayerType>)
    ensures
        kind == player_type_named(text@),
{
    if same_text(text, "Human") {
        Some(PlayerType::Human)
    } else if same_text(text, "Bot") {
        Some(PlayerType::Bot)
    } else {
        None
    }
}

/// The value of a character as a decimal digit.
fn digit_value(c: char) -> (value: Option<u64>)
    ensures
        match value {
            Some(d) => digit_of(c) == Some(d as nat) && d < 10,
            None => digit_of(c) is None,
        },
{
    if c == '0' {
        Some(0)
    } else if c == '1' {
        Some(1)
    } else if c == '2' {
        Some(2)
    } else if c == '3' {
        Some(3)
    } else if c == '4' {
        Some(4)
    } else if c == '5' {
        Some(5)
    } else if c == '6' {
        Some(6)
    } else if c == '7' {
        Some(7)
    } else if c == '8' {
        Some(8)
    } else if c == '9' {
        Some(9)
    } else {
        None
    }
}

/// Reads an amount written in decimal. Anything else, and any amount too
/// large for the machine integer, gives `None`.
pub fn parse_number(text: &str) -> (number: Option<u32>)
    ensures
        number == number_named(text@),
{
    let len: usize = text.unicode_len();
    let start: usize = if len > 0 && text.get_char(0) == '+' {
        1
    } else {
        0
    };
    let ghost digits = unsigned_part(text@);
    if start == len {
        return None;
    }
    let mut value: u64 = 0;
    let mut k: usize = start;
    while k < len
        invariant
            start <= k <= len,
            len == text@.len(),
            digits == text@.skip(start as int),
            digits == unsigned_part(text@),
            value == digits_value(digits.take(k - start)),
            value <= u32::MAX,
            all_digits(digits.take(k - start)),
        decreases len - k,
    {
        let c = text.get_char(k);
        proof {
            assert(digits.take(k - start + 1).drop_last() =~= digits.take(k - start));
            lemma_digits_value_prefix(digits, k - start + 1);
        }
        match digit_value(c) {
            None => {
                return None;
            },
            Some(d) => {
                value = value * 10 + d;
                if value > 0xffff_ffff {
                    return None;
                }
                proof {
                    let grown = digits.take(k - start + 1);
                    assert forall|i: int| 0 <= i < grown.len() implies digit_of(
                        #[trigger] grown[i],
                    ) is Some by {
                        assert(i < k - start ==> digits.take(k - start)[i] == grown[i]);
                    }
                }
            },
        }
        k += 1;
    }
    assert(digits.take(k - start) =~= digits);
    Some(value as u32)
}

} // verus!
