use blackjack::settle::{
    classify, compute_result, is_playable, pay_bonus, try_pay, update_bank, Outcome,
};

#[test]
fn compute_result_test() {
    let (thre, win, equ, los) = compute_result(vec![(0, None); 5], Vec::new());
    assert!(thre.is_empty() && win.is_empty() && equ.len() == 4 && los.is_empty());

    let (thre, win, equ, los) =
        compute_result(vec![(10, Some(10)), (0, Some(0)), (5, None)], Vec::new());
    assert!(thre.is_empty() && win.len() == 2 && equ.is_empty() && los.len() == 2);
}

#[test]
fn update_bank_test() {
    let mut bank = vec![300, 300];
    let bets = vec![300, 300];
    let win = vec![(0, false)];
    let equ = vec![(1, false)];
    update_bank(&win, &equ, &mut bank, &bets);

    assert_eq!(vec!(900, 600), bank);
}

#[test]
fn is_playable_test() {
    let bank1 = vec![300, 300, 22];
    let bank2 = vec![300, 0, 4];

    assert!(is_playable(&bank1) && !is_playable(&bank2));
}

#[test]
fn is_playable_on_edges() {
    assert!(is_playable(&vec![]));
    assert!(is_playable(&vec![1]));
    assert!(!is_playable(&vec![0]));
    assert!(!is_playable(&vec![5, 6, 0]));
}

#[test]
fn equal_values_push_and_return_the_bet() {
    assert_eq!(classify(20, false, 20, false), Outcome::Push);
    let (bonus, win, equ, los) = compute_result(
        vec![(20, None), (20, None)],
        vec![(false, None), (false, None)],
    );
    assert!(bonus.is_empty() && win.is_empty() && los.is_empty());
    assert_eq!(equ, vec![(0, false)]);
    let mut bank = vec![250];
    let bets = vec![50];
    pay_bonus(&bonus, &mut bank, &bets);
    update_bank(&win, &equ, &mut bank, &bets);
    assert_eq!(bank, vec![300]);
}

#[test]
fn dealer_bust_pays_standing_hands_twice_the_bet() {
    assert_eq!(classify(18, false, 22, false), Outcome::Win);
    let (bonus, win, equ, los) = compute_result(
        vec![(18, None), (22, None)],
        vec![(false, None), (false, None)],
    );
    assert!(bonus.is_empty() && equ.is_empty() && los.is_empty());
    assert_eq!(win, vec![(0, false)]);
    let mut bank = vec![250];
    let bets = vec![50];
    pay_bonus(&bonus, &mut bank, &bets);
    update_bank(&win, &equ, &mut bank, &bets);
    assert_eq!(bank, vec![350]);
}

#[test]
fn blackjack_against_blackjack_is_a_push() {
    assert_eq!(classify(21, true, 21, true), Outcome::Push);
    assert_eq!(classify(21, false, 21, true), Outcome::Loss);
    assert_eq!(classify(20, false, 21, true), Outcome::Loss);
    let (bonus, win, equ, los) = compute_result(
        vec![(21, None), (21, None), (21, None)],
        vec![(true, None), (false, None), (true, None)],
    );
    assert!(bonus.is_empty() && win.is_empty());
    assert_eq!(equ, vec![(0, false)]);
    assert_eq!(los, vec![(1, false)]);
}

#[test]
fn blackjack_earns_three_to_two() {
    assert_eq!(classify(21, true, 19, false), Outcome::Bonus);
    assert_eq!(classify(21, true, 21, false), Outcome::Bonus);
    let (bonus, win, equ, los) = compute_result(
        vec![(21, None), (19, None)],
        vec![(true, None), (false, None)],
    );
    assert_eq!(bonus, vec![(0, false)]);
    assert!(win.is_empty() && equ.is_empty() && los.is_empty());
    let mut bank = vec![200, 7];
    let bets = vec![100, 5];
    pay_bonus(&bonus, &mut bank, &bets);
    update_bank(&win, &equ, &mut bank, &bets);
    assert_eq!(bank, vec![450, 7]);

    let mut odd = vec![0];
    pay_bonus(&vec![(0, false)], &mut odd, &vec![5]);
    assert_eq!(odd, vec![12]);
}

#[test]
fn a_bust_loses_even_against_a_bust() {
    assert_eq!(classify(22, false, 22, false), Outcome::Loss);
    assert_eq!(classify(25, false, 23, false), Outcome::Loss);
    assert_eq!(classify(22, false, 17, false), Outcome::Loss);
    assert_eq!(classify(21, false, 22, false), Outcome::Win);
    assert_eq!(classify(17, false, 18, false), Outcome::Loss);
    assert_eq!(classify(19, false, 18, false), Outcome::Win);
    assert_eq!(classify(21, false, 21, false), Outcome::Push);
}

#[test]
fn split_hands_are_settled_one_by_one() {
    let (bonus, win, equ, los) = compute_result(
        vec![(19, Some(17)), (23, Some(21)), (18, Some(18)), (18, None)],
        vec![
            (false, Some(false)),
            (false, Some(true)),
            (false, Some(false)),
            (false, None),
        ],
    );
    assert_eq!(bonus, vec![(1, true)]);
    assert_eq!(win, vec![(0, false)]);
    assert_eq!(equ, vec![(2, false), (2, true)]);
    assert_eq!(los, vec![(0, true), (1, false)]);

    let mut bank = vec![10, 10, 10];
    let bets = vec![4, 6, 8];
    pay_bonus(&bonus, &mut bank, &bets);
    update_bank(&win, &equ, &mut bank, &bets);
    assert_eq!(bank, vec![18, 25, 26]);
}

#[test]
fn the_dealer_alone_settles_nothing() {
    let (bonus, win, equ, los) = compute_result(vec![(17, None)], vec![(false, None)]);
    assert!(bonus.is_empty() && win.is_empty() && equ.is_empty() && los.is_empty());
}

#[test]
fn losers_and_unlisted_seats_keep_their_bank() {
    let mut bank = vec![5, 6, 7];
    let bets = vec![1, 2, 3];
    update_bank(&vec![], &vec![], &mut bank, &bets);
    assert_eq!(bank, vec![5, 6, 7]);
    update_bank(&vec![(1, false), (1, true)], &vec![(2, true)], &mut bank, &bets);
    assert_eq!(bank, vec![5, 14, 10]);
}

#[test]
fn payment_is_all_or_nothing() {
    let bets = vec![10, u32::MAX];
    let mut bank = vec![5, 1];
    assert!(try_pay(&vec![(0, false), (0, true)], Outcome::Win, &mut bank, &bets));
    assert_eq!(bank, vec![45, 1]);
    assert!(!try_pay(&vec![(0, false), (1, false)], Outcome::Push, &mut bank, &bets));
    assert_eq!(bank, vec![45, 1]);
    assert!(!try_pay(&vec![(2, false)], Outcome::Push, &mut bank, &bets));
    assert_eq!(bank, vec![45, 1]);
    assert!(try_pay(&vec![(0, false)], Outcome::Bonus, &mut bank, &bets));
    assert_eq!(bank, vec![70, 1]);
    assert!(try_pay(&vec![(0, false), (1, true)], Outcome::Loss, &mut bank, &bets));
    assert_eq!(bank, vec![70, 1]);
    let mut full = vec![u32::MAX - 19];
    assert!(!try_pay(&vec![(0, false)], Outcome::Win, &mut full, &bets));
    assert!(try_pay(&vec![(0, false)], Outcome::Push, &mut full, &bets));
    assert_eq!(full, vec![u32::MAX - 9]);
}
