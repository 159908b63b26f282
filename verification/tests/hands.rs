use blackjack::card::{Card, Rank, Suit};
use blackjack::hand::{
    compute_blackjack_index, compute_scores, hand_value, is_blackjack, is_splittable,
};

fn card(rank: Rank, suit: Suit) -> Card {
    Card { suit, rank }
}

#[test]
fn black_jack_test() {
    assert!(is_blackjack(&vec!(
        Card {
            suit: Suit::Diamonds,
            rank: Rank::King
        },
        Card {
            suit: Suit::Clubs,
            rank: Rank::Ace
        }
    )));
    assert!(!is_blackjack(&vec!(
        Card {
            suit: Suit::Diamonds,
            rank: Rank::Eight
        },
        Card {
            suit: Suit::Clubs,
            rank: Rank::Ace
        }
    )));
    assert!(!is_blackjack(&vec!(
        Card {
            suit: Suit::Diamonds,
            rank: Rank::King
        },
        Card {
            suit: Suit::Clubs,
            rank: Rank::Ace
        },
        Card {
            suit: Suit::Clubs,
            rank: Rank::Ten
        }
    )))
}

#[test]
fn is_splittable_test() {
    assert!(is_splittable(&vec!(
        Card {
            suit: Suit::Diamonds,
            rank: Rank::King
        },
        Card {
            suit: Suit::Clubs,
            rank: Rank::King
        }
    )));
    assert!(!is_splittable(&vec!(
        Card {
            suit: Suit::Diamonds,
            rank: Rank::Eight
        },
        Card {
            suit: Suit::Clubs,
            rank: Rank::Ace
        }
    )));
    assert!(!is_splittable(&vec!(
        Card {
            suit: Suit::Diamonds,
            rank: Rank::King
        },
        Card {
            suit: Suit::Clubs,
            rank: Rank::King
        },
        Card {
            suit: Suit::Clubs,
            rank: Rank::King
        }
    )))
}

#[test]
fn compute_scores_test() {
    let card1 = Card {
        suit: Suit::Diamonds,
        rank: Rank::Two,
    };
    let card2 = Card {
        suit: Suit::Clubs,
        rank: Rank::Two,
    };
    let card3 = Card {
        suit: Suit::Hearts,
        rank: Rank::Two,
    };

    assert_eq!(
        vec![(0, None); 3],
        compute_scores(&vec!((vec!(), None), (vec!(), None)), &vec!())
    );
    assert_eq!(
        vec![(2, None); 3],
        compute_scores(
            &vec!((vec!(card1), None), (vec!(card2), None)),
            &vec!(card3)
        )
    );
}

#[test]
fn hand_value_counts_faces_as_ten_and_one_ace_as_eleven() {
    assert_eq!(hand_value(&vec![]), 0);
    assert_eq!(
        hand_value(&vec![
            card(Rank::Queen, Suit::Hearts),
            card(Rank::Four, Suit::Spades),
            card(Rank::Ace, Suit::Hearts)
        ]),
        15
    );
    assert_eq!(
        hand_value(&vec![card(Rank::Ace, Suit::Hearts), card(Rank::Five, Suit::Clubs)]),
        16
    );
    assert_eq!(
        hand_value(&vec![card(Rank::Ace, Suit::Hearts), card(Rank::Ace, Suit::Clubs)]),
        12
    );
    assert_eq!(
        hand_value(&vec![
            card(Rank::Ace, Suit::Hearts),
            card(Rank::Ace, Suit::Clubs),
            card(Rank::Nine, Suit::Clubs)
        ]),
        21
    );
    assert_eq!(
        hand_value(&vec![
            card(Rank::Ace, Suit::Hearts),
            card(Rank::Ace, Suit::Clubs),
            card(Rank::Ten, Suit::Clubs)
        ]),
        12
    );
    assert_eq!(
        hand_value(&vec![
            card(Rank::King, Suit::Hearts),
            card(Rank::Jack, Suit::Clubs),
            card(Rank::Ten, Suit::Clubs),
            card(Rank::Ace, Suit::Clubs)
        ]),
        31
    );
    assert_eq!(
        hand_value(&vec![
            card(Rank::Two, Suit::Hearts),
            card(Rank::Three, Suit::Clubs),
            card(Rank::Four, Suit::Clubs),
            card(Rank::Five, Suit::Clubs),
            card(Rank::Six, Suit::Clubs),
            card(Rank::Seven, Suit::Clubs),
            card(Rank::Eight, Suit::Clubs),
            card(Rank::Nine, Suit::Clubs)
        ]),
        44
    );
}

#[test]
fn hand_value_ignores_the_order_of_the_cards() {
    let a = card(Rank::Ace, Suit::Spades);
    let b = card(Rank::Seven, Suit::Hearts);
    let c = card(Rank::King, Suit::Clubs);
    let orders = vec![
        vec![a, b, c],
        vec![a, c, b],
        vec![b, a, c],
        vec![b, c, a],
        vec![c, a, b],
        vec![c, b, a],
    ];
    for hand in &orders {
        assert_eq!(hand_value(hand), 18);
    }
    assert_eq!(hand_value(&vec![a, b]), 18);
    assert_eq!(hand_value(&vec![b, a]), 18);
}

#[test]
fn ace_with_any_ten_valued_card_is_a_blackjack() {
    for ten in [Rank::Ten, Rank::Jack, Rank::Queen, Rank::King] {
        let first = vec![card(Rank::Ace, Suit::Spades), card(ten, Suit::Hearts)];
        let second = vec![card(ten, Suit::Hearts), card(Rank::Ace, Suit::Spades)];
        assert_eq!(hand_value(&first), 21);
        assert_eq!(hand_value(&second), 21);
        assert!(is_blackjack(&first));
        assert!(is_blackjack(&second));
    }
    let three = vec![
        card(Rank::Seven, Suit::Spades),
        card(Rank::Seven, Suit::Hearts),
        card(Rank::Seven, Suit::Clubs),
    ];
    assert_eq!(hand_value(&three), 21);
    assert!(!is_blackjack(&three));
    assert!(!is_blackjack(&vec![card(Rank::Ace, Suit::Spades)]));
    assert!(!is_blackjack(&vec![]));
}

#[test]
fn splittable_needs_exactly_two_cards_of_one_rank() {
    let eight = card(Rank::Eight, Suit::Spades);
    let other_eight = card(Rank::Eight, Suit::Clubs);
    assert!(is_splittable(&vec![eight, other_eight]));
    assert!(is_splittable(&vec![eight, eight]));
    assert!(!is_splittable(&vec![card(Rank::King, Suit::Spades), card(Rank::Queen, Suit::Spades)]));
    assert!(!is_splittable(&vec![eight]));
    assert!(!is_splittable(&vec![]));
    assert!(!is_splittable(&vec![eight, other_eight, eight, other_eight]));
}

#[test]
fn scores_and_flags_follow_the_hands() {
    let hands = vec![
        (
            vec![card(Rank::Ace, Suit::Spades), card(Rank::King, Suit::Spades)],
            None,
        ),
        (
            vec![card(Rank::Eight, Suit::Spades), card(Rank::Three, Suit::Spades)],
            Some(vec![card(Rank::Eight, Suit::Hearts), card(Rank::Ace, Suit::Hearts)]),
        ),
    ];
    let dealer = vec![card(Rank::Queen, Suit::Clubs), card(Rank::Ace, Suit::Clubs)];
    assert_eq!(
        compute_scores(&hands, &dealer),
        vec![(21, None), (11, Some(19)), (21, None)]
    );
    assert_eq!(
        compute_blackjack_index(&hands, &dealer),
        vec![(true, None), (false, Some(false)), (true, None)]
    );
    assert_eq!(compute_blackjack_index(&vec![], &vec![]), vec![(false, None)]);
}
