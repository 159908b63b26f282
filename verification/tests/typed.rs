use blackjack::input::{parse_action, parse_number, parse_player_type, trim_line};
use blackjack::player::{PlayerAction, PlayerType};

#[test]
fn lines_lose_their_end() {
    assert_eq!(trim_line("Hit\n"), "Hit");
    assert_eq!(trim_line("Hit\r\n"), "Hit");
    assert_eq!(trim_line("Hit\r"), "Hit");
    assert_eq!(trim_line("Hit"), "Hit");
    assert_eq!(trim_line("Hit\n\n"), "Hit\n");
    assert_eq!(trim_line("Hit\n\r"), "Hit\n");
    assert_eq!(trim_line("\r\n"), "");
    assert_eq!(trim_line(""), "");
    assert_eq!(trim_line(" 12 \n"), " 12 ");
    assert_eq!(trim_line("\u{2660}\u{2665}\n"), "\u{2660}\u{2665}");
}

#[test]
fn actions_are_read_by_name() {
    assert_eq!(parse_action("Hit"), Some(PlayerAction::Hit));
    assert_eq!(parse_action("Stand"), Some(PlayerAction::Stand));
    assert_eq!(parse_action("Split"), Some(PlayerAction::Split));
    assert_eq!(parse_action("Double"), Some(PlayerAction::Double));
    assert_eq!(parse_action("hit"), None);
    assert_eq!(parse_action("Hit "), None);
    assert_eq!(parse_action(""), None);
    assert_eq!(parse_action("Surrender"), None);
}

#[test]
fn player_types_are_read_by_name() {
    assert_eq!(parse_player_type("Human"), Some(PlayerType::Human));
    assert_eq!(parse_player_type("Bot"), Some(PlayerType::Bot));
    assert_eq!(parse_player_type("Dealer"), None);
    assert_eq!(parse_player_type("bot"), None);
    assert_eq!(parse_player_type(""), None);
}

#[test]
fn amounts_are_read_in_decimal() {
    assert_eq!(parse_number("0"), Some(0));
    assert_eq!(parse_number("7"), Some(7));
    assert_eq!(parse_number("150"), Some(150));
    assert_eq!(parse_number("+150"), Some(150));
    assert_eq!(parse_number("00042"), Some(42));
    assert_eq!(parse_number("4294967295"), Some(u32::MAX));
    assert_eq!(parse_number("4294967296"), None);
    assert_eq!(parse_number("99999999999999999999999999"), None);
    assert_eq!(parse_number(""), None);
    assert_eq!(parse_number("+"), None);
    assert_eq!(parse_number("-1"), None);
    assert_eq!(parse_number("++1"), None);
    assert_eq!(parse_number("1+"), None);
    assert_eq!(parse_number("12a"), None);
    assert_eq!(parse_number(" 12"), None);
    assert_eq!(parse_number("1.5"), None);
    assert_eq!(parse_number("\u{0663}"), None);
}

#[test]
fn amounts_agree_with_the_standard_reading() {
    for text in ["0", "12", "+9", "", "+", "x", "4294967295", "4294967296", "007", "-0"] {
        assert_eq!(parse_number(text), text.parse::<u32>().ok());
    }
}
