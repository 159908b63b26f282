use blackjack::card::{Card, Rank, Suit};

#[test]
fn suits_cycle_modulo_four() {
    assert_eq!(Suit::from_int(0), Suit::Spades);
    assert_eq!(Suit::from_int(1), Suit::Hearts);
    assert_eq!(Suit::from_int(2), Suit::Diamonds);
    assert_eq!(Suit::from_int(3), Suit::Clubs);
    assert_eq!(Suit::from_int(4), Suit::Spades);
    assert_eq!(Suit::from_int(u32::MAX), Suit::Clubs);
}

#[test]
fn ranks_cycle_modulo_thirteen() {
    let all = [
        Rank::Two,
        Rank::Three,
        Rank::Four,
        Rank::Five,
        Rank::Six,
        Rank::Seven,
        Rank::Eight,
        Rank::Nine,
        Rank::Ten,
        Rank::Jack,
        Rank::Queen,
        Rank::King,
        Rank::Ace,
    ];
    for (i, rank) in all.iter().enumerate() {
        assert_eq!(Rank::from_int(i as u32), *rank);
        assert_eq!(Rank::from_int(i as u32 + 13), *rank);
    }
    assert_eq!(Rank::from_int(u32::MAX), Rank::Ten);
}

#[test]
fn a_pack_holds_every_card_once() {
    let pack = Card::card_pack();
    assert_eq!(pack.len(), 52);
    assert_eq!(pack[0], Card { suit: Suit::Spades, rank: Rank::Two });
    assert_eq!(pack[12], Card { suit: Suit::Spades, rank: Rank::Ace });
    assert_eq!(pack[13], Card { suit: Suit::Hearts, rank: Rank::Two });
    assert_eq!(pack[51], Card { suit: Suit::Clubs, rank: Rank::Ace });
    for i in 0..52 {
        for j in 0..i {
            assert_ne!(pack[i], pack[j]);
        }
    }
}

#[test]
fn symbols_of_ranks_and_suits() {
    assert_eq!(Rank::Ten.symbol(), "10");
    assert_eq!(Rank::Two.symbol(), "2");
    assert_eq!(Rank::Jack.symbol(), "J");
    assert_eq!(Rank::Queen.symbol(), "Q");
    assert_eq!(Rank::King.symbol(), "K");
    assert_eq!(Rank::Ace.symbol(), "A");
    assert_eq!(Suit::Spades.symbol(), "\u{2660}");
    assert_eq!(Suit::Hearts.symbol(), "\u{2665}");
    assert_eq!(Suit::Diamonds.symbol(), "\u{2666}");
    assert_eq!(Suit::Clubs.symbol(), "\u{2663}");
}
