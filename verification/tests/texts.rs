use blackjack::card::{Card, Rank, Suit};
use blackjack::display::{
    display_bank, display_hands_and_scores, display_result_vector, display_results, player_name,
};

#[test]
fn call_displays_do_not_crash() {
    display_results(&vec![], &vec![], &vec![]);
    display_bank(&vec![]);
    display_hands_and_scores(
        &vec![(0, None); 3],
        &vec![(vec![], None), (vec![], None)],
        &vec![],
    );
}

#[test]
fn player_name_test() {
    assert_eq!("Dealer", &player_name(5, 5));
    assert_eq!("Player 1", &player_name(0, 1))
}

#[test]
fn player_names_count_from_one() {
    assert_eq!(player_name(9, 10), "Player 10");
    assert_eq!(player_name(10, 10), "Dealer");
    assert_eq!(player_name(122, 1000), "Player 123");
    assert_eq!(player_name(0, 0), "Dealer");
    assert_eq!(player_name(usize::MAX, usize::MAX), "Dealer");
    assert_eq!(
        player_name(usize::MAX - 1, usize::MAX),
        format!("Player {}", usize::MAX)
    );
}

#[test]
fn result_lists_read_as_sentences() {
    assert_eq!(
        display_result_vector(&vec![], "winners"),
        "There are no winners this turn!\n\n"
    );
    assert_eq!(
        display_result_vector(&vec![(0, false)], "losers"),
        "The losers are : \nPlayer 1\n\n"
    );
    assert_eq!(
        display_result_vector(&vec![(0, false), (0, true), (11, false)], "equalities"),
        "The equalities are : \nPlayer 1, Second player 1, Player 12\n\n"
    );
    assert_eq!(
        display_results(&vec![(1, true)], &vec![], &vec![(0, false), (1, false)]),
        "The winners are : \nSecond player 2\n\nThere are no equalities this turn!\n\nThe losers are : \nPlayer 1, Player 2\n\n"
    );
}

#[test]
fn banks_are_listed_after_the_heading() {
    assert_eq!(display_bank(&vec![]), "Bank is \n");
    assert_eq!(display_bank(&vec![300]), "Bank is : 300\n");
    assert_eq!(display_bank(&vec![0, 45, 4294967295]), "Bank is : 0, 45, 4294967295\n");
}

#[test]
fn the_board_shows_every_hand_with_its_value() {
    let hands = vec![
        (
            vec![
                Card { suit: Suit::Spades, rank: Rank::Ace },
                Card { suit: Suit::Hearts, rank: Rank::Ten },
            ],
            None,
        ),
        (
            vec![Card { suit: Suit::Diamonds, rank: Rank::Eight }],
            Some(vec![
                Card { suit: Suit::Clubs, rank: Rank::Eight },
                Card { suit: Suit::Clubs, rank: Rank::Queen },
            ]),
        ),
    ];
    let dealer = vec![Card { suit: Suit::Hearts, rank: Rank::Seven }];
    let text = display_hands_and_scores(
        &vec![(21, None), (8, Some(18)), (7, None)],
        &hands,
        &dealer,
    );
    assert_eq!(
        text,
        "Player 1 got hand {/ A\u{2660} // 10\u{2665} /} with value 21! Blackjack!\n\
         Player 2 got hand {/ 8\u{2666} /} with value 8!\n\
         Player 2 got hand {/ 8\u{2663} // Q\u{2663} /} with value 18!\n\
         Dealer got hand {/ 7\u{2665} /} with value 7!\n"
    );
    assert_eq!(
        display_hands_and_scores(
            &vec![(0, None); 3],
            &vec![(vec![], None), (vec![], None)],
            &vec![],
        ),
        "Player 1 got hand {} with value 0!\nPlayer 2 got hand {} with value 0!\nDealer got hand {} with value 0!\n"
    );
}
