use blackjack::card::{Card, Rank, Suit};
use blackjack::deck::{init_game, pick_card, NUM_PACKS, NUM_PLAYERS};

#[test]
fn init_test() {
    let mut hands = vec![];
    let mut pack = vec![];
    let mut bank = vec![];
    init_game(&mut hands, &mut pack, &mut bank);
    assert_eq!(NUM_PLAYERS, hands.len());
    assert_eq!(4 * 52, pack.len());
    assert_eq!(vec!(300, 300), bank);
}

#[test]
fn pick_test() {
    let mut pack = vec![];
    let _ = pick_card(&mut pack);
    assert!(pack.len() == 4 * 52 - 1);
    let _ = pick_card(&mut pack);
    assert!(pack.len() == 4 * 52 - 2);
}

fn count(cards: &Vec<Card>, card: Card) -> usize {
    cards.iter().filter(|c| **c == card).count()
}

#[test]
fn a_draw_takes_the_last_card() {
    let low = Card { suit: Suit::Hearts, rank: Rank::Three };
    let high = Card { suit: Suit::Clubs, rank: Rank::King };
    let mut pack = vec![low, high];
    assert_eq!(pick_card(&mut pack), high);
    assert_eq!(pack, vec![low]);
    assert_eq!(pick_card(&mut pack), low);
    assert!(pack.is_empty());
}

#[test]
fn an_empty_shoe_is_refilled_once_with_every_card_of_four_packs() {
    let mut pack = vec![];
    let card = pick_card(&mut pack);
    assert_eq!(pack.len(), NUM_PACKS * 52 - 1);
    let mut all = pack.clone();
    all.push(card);
    for each in Card::card_pack() {
        assert_eq!(count(&all, each), NUM_PACKS);
    }
}

#[test]
fn the_shoe_is_shuffled_when_filled() {
    let mut straight = vec![];
    for _ in 0..NUM_PACKS {
        straight.extend(Card::card_pack());
    }
    let mut shuffled_once = false;
    for _ in 0..4 {
        let mut hands = vec![];
        let mut pack = vec![];
        let mut bank = vec![];
        init_game(&mut hands, &mut pack, &mut bank);
        assert_eq!(pack.len(), straight.len());
        if pack != straight {
            shuffled_once = true;
        }
    }
    assert!(shuffled_once);
}

#[test]
fn drawing_past_the_end_refills_before_the_draw() {
    let only = Card { suit: Suit::Spades, rank: Rank::Ace };
    let mut pack = vec![only];
    assert_eq!(pick_card(&mut pack), only);
    assert_eq!(pack.len(), 0);
    let _ = pick_card(&mut pack);
    assert_eq!(pack.len(), 207);
    for _ in 0..207 {
        let _ = pick_card(&mut pack);
    }
    assert_eq!(pack.len(), 0);
    let _ = pick_card(&mut pack);
    assert_eq!(pack.len(), 207);
}

#[test]
fn init_keeps_what_was_there() {
    let mut hands = vec![(vec![Card { suit: Suit::Spades, rank: Rank::Ace }], None)];
    let mut pack = vec![Card { suit: Suit::Spades, rank: Rank::Two }];
    let mut bank = vec![7];
    init_game(&mut hands, &mut pack, &mut bank);
    assert_eq!(hands.len(), 3);
    assert_eq!(hands[0].0.len(), 1);
    assert!(hands[1].0.is_empty() && hands[1].1.is_none());
    assert!(hands[2].0.is_empty() && hands[2].1.is_none());
    assert_eq!(pack.len(), 209);
    assert_eq!(bank, vec![7, 300, 300]);
}
