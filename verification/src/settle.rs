//! Settlement: every hand of every seat is classified against the dealer,
//! and the banks are credited with what the hands have earned.

use vstd::prelude::*;
use crate::hand::SeatScore;

verus! {

/// How one hand of a seat ends against the dealer.
#[derive(Clone, Copy, Debug, PartialEq, Eq, Structural)]
pub enum Outcome {
    /// A blackjack that the dealer does not match: paid three to two.
    Bonus,
    /// The hand beats the dealer: paid one to one.
    Win,
    /// The hand ties with the dealer: the stake is returned.
    Push,
    /// The stake is forfeited.
    Loss,
}

/// One hand of the table: the seat's index, and whether it is the seat's
/// second hand.
pub type HandRef = (usize, bool);

/// The flags of one seat.
pub type SeatFlags = (bool, Option<bool>);

/// The four lists of a settled round: bonus wins, wins, pushes, losses.
pub type Settlement = (Vec<HandRef>, Vec<HandRef>, Vec<HandRef>, Vec<HandRef>);

/// The rule that settles one hand. Against a dealer blackjack only a
/// blackjack is saved, as a push. Otherwise a blackjack earns the bonus, a
/// bust loses whatever the dealer holds, and the remaining hands are compared
/// with the dealer, who loses to every standing hand when bust.
pub open spec fn settle_hand(value: int, natural: bool, dealer_value: int, dealer_natural: bool)
    -> Outcome {
    if dealer_natural {
        if natural {
            Outcome::Push
        } else {
            Outcome::Loss
        }
    } else if natural {
        Outcome::Bonus
    } else if value > 21 {
        Outcome::Loss
    } else if value > dealer_value || dealer_value > 21 {
        Outcome::Win
    } else if value == dealer_value {
        Outcome::Push
    } else {
        Outcome::Loss
    }
}

/// What the bank receives for a hand that ended this way on the given stake.
pub open spec fn payout(kind: Outcome, bet: int) -> int {
    match kind {
        Outcome::Bonus => bet + (3 * bet) / 2,
        Outcome::Win => 2 * bet,
        Outcome::Push => bet,
        Outcome::Loss => 0,
    }
}

/// Whether the seat's first hand is flagged a blackjack. A seat without an
/// entry in the flags has none.
pub open spec fn first_flag(flags: Seq<SeatFlags>, seat: int) -> bool {
    0 <= seat < flags.len() && flags[seat].0
}

/// Whether the seat's second hand is flagged a blackjack.
pub open spec fn second_flag(flags: Seq<SeatFlags>, seat: int) -> bool {
    0 <= seat < flags.len() && flags[seat].1 == Some(true)
}

/// The outcome of the seat's first hand. The dealer is the last entry of the
/// scores.
pub open spec fn first_outcome(scores: Seq<SeatScore>, flags: Seq<SeatFlags>, seat: int)
    -> Outcome {
    let dealer = scores.len() - 1;
    settle_hand(
        scores[seat].0 as int,
        first_flag(flags, seat),
        scores[dealer].0 as int,
        first_flag(flags, dealer),
    )
}

/// The outcome of the seat's second hand, for a seat that has one.
pub open spec fn second_outcome(scores: Seq<SeatScore>, flags: Seq<SeatFlags>, seat: int)
    -> Outcome {
    let dealer = scores.len() - 1;
    settle_hand(
        scores[seat].1.unwrap() as int,
        second_flag(flags, seat),
        scores[dealer].0 as int,
        first_flag(flags, dealer),
    )
}

/// The hands of the first `seats` seats that end as `kind`, in seat order,
/// each seat's first hand before its second.
pub open spec fn bucket(scores: Seq<SeatScore>, flags: Seq<SeatFlags>, kind: Outcome, seats: nat)
    -> Seq<HandRef>
    decreases seats,
{
    if seats == 0 {
        Seq::empty()
    } else {
        let seat = (seats - 1) as int;
        let before = bucket(scores, flags, kind, (seats - 1) as nat);
        let with_first = if first_outcome(scores, flags, seat) == kind {
            before.push((seat as usize, false))
        } else {
            before
        };
        if scores[seat].1 is Some && second_outcome(scores, flags, seat) == kind {
            with_first.push((seat as usize, true))
        } else {
            with_first
        }
    }
}

/// What the listed hands credit to one seat, when each of the seat's hands
/// in the list is worth `amount`.
pub open spec fn credit(hands: Seq<HandRef>, seat: int, amount: int) -> int
    decreases hands.len(),
{
    if hands.len() == 0 {
        0
    } else {
        credit(hands.drop_last(), seat, amount) + if hands.last().0 == seat {
            amount
        } else {
            0
        }
    }
}

/// Every listed hand belongs to a seat that has both a bank and a bet.
pub open spec fn seated(hands: Seq<HandRef>, bank: Seq<u32>, bets: Seq<u32>) -> bool {
    forall|k: int| 0 <= k < hands.len() ==> (#[trigger] hands[k]).0 < bank.len() && hands[k].0 < bets.len()
}

/// The stake of a seat; a seat without a bet stakes nothing.
pub open spec fn stake(bets: Seq<u32>, seat: int) -> int {
    if 0 <= seat < bets.len() {
        bets[seat] as int
    } else {
        0
    }
}

/// A hand appears in a bucket exactly when it exists at the table and ends
/// as the bucket's kind. In particular the dealer appears in none, and every
/// hand of a seat appears in exactly one.
pub proof fn lemma_bucket_members(
    scores: Seq<SeatScore>,
    flags: Seq<SeatFlags>,
    kind: Outcome,
    seats: nat,
    hand: HandRef,
)
    requires
        seats < scores.len(),
        seats <= usize::MAX,
    ensures
        bucket(scores, flags, kind, seats).contains(hand) <==> hand.0 < seats && if hand.1 {
            scores[hand.0 as int].1 is Some && second_outcome(scores, flags, hand.0 as int) == kind
        } else {
            first_outcome(scores, flags, hand.0 as int) == kind
        },
    decreases seats,
{
    if seats > 0 {
        let seat = (seats - 1) as int;
        let before = bucket(scores, flags, kind, (seats - 1) as nat);
        lemma_bucket_members(scores, flags, kind, (seats - 1) as nat, hand);
        let with_first = if first_outcome(scores, flags, seat) == kind {
            before.push((seat as usize, false))
        } else {
            before
        };
        lemma_push_contains(before, (seat as usize, false), hand);
        lemma_push_contains(with_first, (seat as usize, true), hand);
    }
}

/// Membership in a sequence that has grown by one item.
pub proof fn lemma_push_contains(s: Seq<HandRef>, item: HandRef, probe: HandRef)
    ensures
        s.push(item).contains(probe) <==> s.contains(probe) || probe == item,
{
    let t = s.push(item);
    if s.contains(probe) {
        let i = choose|i: int| 0 <= i < s.len() && s[i] == probe;
        assert(t[i] == probe);
    }
    if probe == item {
        assert(t[s.len() as int] == probe);
    }
    if t.contains(probe) {
        let i = choose|i: int| 0 <= i < t.len() && t[i] == probe;
        assert(i < s.len() ==> s[i] == probe);
    }
}

/// The two hands of a seat that has split are settled apart, each on its
/// own value and flag against the same dealer: each is filed under its own
/// outcome, whatever the outcome of the other.
pub proof fn lemma_split_hands_settled_apart(
    scores: Seq<SeatScore>,
    flags: Seq<SeatFlags>,
    seat: int,
)
    requires
        0 <= seat < scores.len() - 1,
        scores.len() - 1 <= usize::MAX,
        scores[seat].1 is Some,
    ensures
        bucket(
            scores,
            flags,
            first_outcome(scores, flags, seat),
            (scores.len() - 1) as nat,
        ).contains((seat as usize, false)),
        bucket(
            scores,
            flags,
            second_outcome(scores, flags, seat),
            (scores.len() - 1) as nat,
        ).contains((seat as usize, true)),
        first_outcome(scores, flags, seat) == settle_hand(
            scores[seat].0 as int,
            first_flag(flags, seat),
            scores.last().0 as int,
            first_flag(flags, scores.len() - 1),
        ),
        second_outcome(scores, flags, seat) == settle_hand(
            scores[seat].1.unwrap() as int,
            second_flag(flags, seat),
            scores.last().0 as int,
            first_flag(flags, scores.len() - 1),
        ),
{
    let seats = (scores.len() - 1) as nat;
    lemma_bucket_members(
        scores,
        flags,
        first_outcome(scores, flags, seat),
        seats,
        (seat as usize, false),
    );
    lemma_bucket_members(
        scores,
        flags,
        second_outcome(scores, flags, seat),
        seats,
        (seat as usize, true),
    );
}

/// A longer list credits at least as much as any of its prefixes.
pub proof fn lemma_credit_prefix(hands: Seq<HandRef>, k: int, seat: int, amount: int)
    requires
        0 <= k <= hands.len(),
        0 <= amount,
    ensures
        0 <= credit(hands.take(k), seat, amount) <= credit(hands, seat, amount),
    decreases hands.len() - k,
{
    if k == 0 {
        lemma_credit_nonnegative(hands, seat, amount);
    } else if k == hands.len() {
        assert(hands.take(k) =~= hands);
        lemma_credit_nonnegative(hands, seat, amount);
    } else {
        lemma_credit_prefix(hands, k + 1, seat, amount);
        assert(hands.take(k + 1).drop_last() =~= hands.take(k));
        lemma_credit_nonnegative(hands.take(k), seat, amount);
    }
}

/// Nothing is ever debited by a credit.
pub proof fn lemma_credit_nonnegative(hands: Seq<HandRef>, seat: int, amount: int)
    requires
        0 <= amount,
    ensures
        0 <= credit(hands, seat, amount),
    decreases hands.len(),
{
    if hands.len() > 0 {
        lemma_credit_nonnegative(hands.drop_last(), seat, amount);
    }
}

/// Settles one hand against the dealer.
pub fn classify(value: u32, natural: bool, dealer_value: u32, dealer_natural: bool) -> (kind:
    Outcome)
    ensures
        kind == settle_hand(value as int, natural, dealer_value as int, dealer_natural),
{
    if dealer_natural {
        if natural {
            Outcome::Push
        } else {
            Outcome::Loss
        }
    } else if natural {
        Outcome::Bonus
    } else if value <= 21 && (value > dealer_value || dealer_value > 21) {
        Outcome::Win
    } else if value <= 21 && value == dealer_value {
        Outcome::Push
    } else {
        Outcome::Loss
    }
}

/// Files one settled hand in the list of its kind.
fn file_hand(
    kind: Outcome,
    hand: HandRef,
    bonus: &mut Vec<HandRef>,
    win: &mut Vec<HandRef>,
    push: &mut Vec<HandRef>,
    loss: &mut Vec<HandRef>,
)
    ensures
        final(bonus)@ == if kind == Outcome::Bonus {
            old(bonus)@.push(hand)
        } else {
            old(bonus)@
        },
        final(win)@ == if kind == Outcome::Win {
            old(win)@.push(hand)
        } else {
            old(win)@
        },
        final(push)@ == if kind == Outcome::Push {
            old(push)@.push(hand)
        } else {
            old(push)@
        },
        final(loss)@ == if kind == Outcome::Loss {
            old(loss)@.push(hand)
        } else {
            old(loss)@
        },
{
    match kind {
        Outcome::Bonus => bonus.push(hand),
        Outcome::Win => win.push(hand),
        Outcome::Push => push.push(hand),
        Outcome::Loss => loss.push(hand),
    }
}

/// Settles the round. `scores` holds one entry per seat and the dealer's
/// last; `blackjacks` holds the flags in the same layout, and a seat that it
/// does not reach counts as having no blackjack. Returns the hands that earn
/// the blackjack bonus, those that win, those that push and those that lose,
/// each list in seat order. The dealer is the benchmark and is filed nowhere.
pub fn compute_result(scores: Vec<SeatScore>, blackjacks: Vec<SeatFlags>) -> (result: Settlement)
    requires
        scores@.len() >= 1,
    ensures
        result.0@ == bucket(scores@, blackjacks@, Outcome::Bonus, (scores@.len() - 1) as nat),
        result.1@ == bucket(scores@, blackjacks@, Outcome::Win, (scores@.len() - 1) as nat),
        result.2@ == bucket(scores@, blackjacks@, Outcome::Push, (scores@.len() - 1) as nat),
        result.3@ == bucket(scores@, blackjacks@, Outcome::Loss, (scores@.len() - 1) as nat),
{
    let mut three_two_index: Vec<HandRef> = Vec::new();
    let mut winner_index: Vec<HandRef> = Vec::new();
    let mut equal_index: Vec<HandRef> = Vec::new();
    let mut loser_index: Vec<HandRef> = Vec::new();
    let num_players: usize = scores.len() - 1;
    let dealer_has_blackjack = num_players < blackjacks.len() && blackjacks[num_players].0;
    let dealer_score: u32 = scores[num_players].0;

    let mut index: usize = 0;
    while index < num_players
        invariant
            index <= num_players,
            num_players == scores@.len() - 1,
            dealer_has_blackjack == first_flag(blackjacks@, num_players as int),
            dealer_score == scores@[num_players as int].0,
            three_two_index@ == bucket(scores@, blackjacks@, Outcome::Bonus, index as nat),
            winner_index@ == bucket(scores@, blackjacks@, Outcome::Win, index as nat),
            equal_index@ == bucket(scores@, blackjacks@, Outcome::Push, index as nat),
            loser_index@ == bucket(scores@, blackjacks@, Outcome::Loss, index as nat),
        decreases num_players - index,
    {
        let score = scores[index];
        let first_natural = index < blackjacks.len() && blackjacks[index].0;
        let kind = classify(score.0, first_natural, dealer_score, dealer_has_blackjack);
        file_hand(
            kind,
            (index, false),
            &mut three_two_index,
            &mut winner_index,
            &mut equal_index,
            &mut loser_index,
        );
        if let Some(value) = score.1 {
            let second_natural = index < blackjacks.len() && match blackjacks[index].1 {
                Some(flag) => flag,
                None => false,
            };
            let kind = classify(value, second_natural, dealer_score, dealer_has_blackjack);
            file_hand(
                kind,
                (index, true),
                &mut three_two_index,
                &mut winner_index,
                &mut equal_index,
                &mut loser_index,
            );
        }
        index += 1;
    }
    (three_two_index, winner_index, equal_index, loser_index)
}

/// The amount a hand of the given kind returns on a stake.
fn payout_of(kind: Outcome, bet: u32) -> (amount: u32)
    requires
        payout(kind, bet as int) <= u32::MAX,
    ensures
        amount == payout(kind, bet as int),
{
    match kind {
        Outcome::Bonus => bet + (bet + bet / 2),
        Outcome::Win => 2 * bet,
        Outcome::Push => bet,
        Outcome::Loss => 0,
    }
}

/// Credits every listed hand with what its kind pays on the seat's bet.
fn pay_hands(hands: &Vec<HandRef>, kind: Outcome, bank: &mut Vec<u32>, bets: &Vec<u32>)
    requires
        seated(hands@, old(bank)@, bets@),
        forall|i: int|
            0 <= i < old(bank)@.len() ==> (#[trigger] old(bank)@[i]) + credit(
                hands@,
                i,
                payout(kind, stake(bets@, i)),
            ) <= u32::MAX,
    ensures
        final(bank)@.len() == old(bank)@.len(),
        forall|i: int|
            0 <= i < old(bank)@.len() ==> (#[trigger] final(bank)@[i]) == old(bank)@[i] + credit(
                hands@,
                i,
                payout(kind, stake(bets@, i)),
            ),
{
    let mut k: usize = 0;
    while k < hands.len()
        invariant
            k <= hands@.len(),
            bank@.len() == old(bank)@.len(),
            seated(hands@, old(bank)@, bets@),
            forall|i: int|
                0 <= i < old(bank)@.len() ==> (#[trigger] old(bank)@[i]) + credit(
                    hands@,
                    i,
                    payout(kind, stake(bets@, i)),
                ) <= u32::MAX,
            forall|i: int|
                0 <= i < bank@.len() ==> (#[trigger] bank@[i]) == old(bank)@[i] + credit(
                    hands@.take(k as int),
                    i,
                    payout(kind, stake(bets@, i)),
                ),
        decreases hands@.len() - k,
    {
        let index: usize = hands[k].0;
        let bet: u32 = bets[index];
        proof {
            assert forall|i: int| 0 <= i < bank@.len() implies credit(
                hands@.take(k + 1),
                i,
                payout(kind, stake(bets@, i)),
            ) == credit(hands@.take(k as int), i, payout(kind, stake(bets@, i))) + if i == index {
                payout(kind, bet as int)
            } else {
                0
            } && 0 <= credit(hands@.take(k as int), i, payout(kind, stake(bets@, i))) && credit(
                hands@.take(k + 1),
                i,
                payout(kind, stake(bets@, i)),
            ) <= credit(hands@, i, payout(kind, stake(bets@, i))) by {
                assert(hands@.take(k + 1).drop_last() =~= hands@.take(k as int));
                lemma_credit_prefix(hands@, k + 1, i, payout(kind, stake(bets@, i)));
                lemma_credit_nonnegative(hands@.take(k as int), i, payout(kind, stake(bets@, i)));
            }
            assert(old(bank)@[index as int] + credit(
                hands@,
                index as int,
                payout(kind, stake(bets@, index as int)),
            ) <= u32::MAX);
        }
        let amount = payout_of(kind, bet);
        bank[index] += amount;
        k += 1;
    }
    assert(hands@.take(k as int) =~= hands@);
}

/// Whether the listed hands can be paid: each belongs to a seat with a bank
/// and a bet, and no bank would outgrow the machine integer.
pub open spec fn payable(hands: Seq<HandRef>, kind: Outcome, bank: Seq<u32>, bets: Seq<u32>)
    -> bool {
    &&& seated(hands, bank, bets)
    &&& forall|i: int|
        0 <= i < bank.len() ==> (#[trigger] bank[i]) + credit(
            hands,
            i,
            payout(kind, stake(bets, i)),
        ) <= u32::MAX
}

/// Checks whether the listed hands can be paid.
fn can_pay(hands: &Vec<HandRef>, kind: Outcome, bank: &Vec<u32>, bets: &Vec<u32>) -> (fits: bool)
    ensures
        fits == payable(hands@, kind, bank@, bets@),
{
    let mut totals: Vec<u64> = Vec::new();
    let mut i: usize = 0;
    while i < bank.len()
        invariant
            i <= bank@.len(),
            totals@.len() == i,
            forall|j: int| 0 <= j < i ==> (#[trigger] totals@[j]) == bank@[j],
        decreases bank@.len() - i,
    {
        totals.push(bank[i] as u64);
        i += 1;
    }
    let mut k: usize = 0;
    while k < hands.len()
        invariant
            k <= hands@.len(),
            totals@.len() == bank@.len(),
            seated(hands@.take(k as int), bank@, bets@),
            forall|j: int|
                0 <= j < bank@.len() ==> (#[trigger] totals@[j]) == bank@[j] + credit(
                    hands@.take(k as int),
                    j,
                    payout(kind, stake(bets@, j)),
                ) && totals@[j] <= u32::MAX,
        decreases hands@.len() - k,
    {
        let index: usize = hands[k].0;
        if index >= bank.len() || index >= bets.len() {
            return false;
        }
        let bet: u64 = bets[index] as u64;
        let amount: u64 = match kind {
            Outcome::Bonus => bet + (bet + bet / 2),
            Outcome::Win => 2 * bet,
            Outcome::Push => bet,
            Outcome::Loss => 0,
        };
        proof {
            assert forall|j: int| 0 <= j < bank@.len() implies credit(
                hands@.take(k + 1),
                j,
                payout(kind, stake(bets@, j)),
            ) == credit(hands@.take(k as int), j, payout(kind, stake(bets@, j))) + if j == index {
                amount as int
            } else {
                0
            } && credit(hands@.take(k + 1), j, payout(kind, stake(bets@, j))) <= credit(
                hands@,
                j,
                payout(kind, stake(bets@, j)),
            ) by {
                assert(hands@.take(k + 1).drop_last() =~= hands@.take(k as int));
                lemma_credit_prefix(hands@, k + 1, j, payout(kind, stake(bets@, j)));
            }
            assert forall|n: int| 0 <= n < k + 1 implies (#[trigger] hands@.take(k + 1)[n]).0
                < bank@.len() && hands@.take(k + 1)[n].0 < bets@.len() by {
                assert(n < k ==> hands@.take(k as int)[n] == hands@.take(k + 1)[n]);
            }
        }
        let total: u64 = totals[index] + amount;
        if total > 0xffff_ffff {
            return false;
        }
        totals[index] = total;
        k += 1;
    }
    assert(hands@.take(k as int) =~= hands@);
    assert forall|j: int| 0 <= j < bank@.len() implies (#[trigger] bank@[j]) + credit(
        hands@,
        j,
        payout(kind, stake(bets@, j)),
    ) <= u32::MAX by {
        assert(totals@[j] <= u32::MAX);
    }
    true
}

/// Credits every listed hand with what its kind pays on the seat's bet, if
/// all of them can be paid, and says whether it did. Where one cannot, no
/// bank changes.
pub fn try_pay(hands: &Vec<HandRef>, kind: Outcome, bank: &mut Vec<u32>, bets: &Vec<u32>) -> (paid:
    bool)
    ensures
        paid == payable(hands@, kind, old(bank)@, bets@),
        final(bank)@.len() == old(bank)@.len(),
        forall|i: int|
            0 <= i < old(bank)@.len() ==> (#[trigger] final(bank)@[i]) == if paid {
                old(bank)@[i] + credit(hands@, i, payout(kind, stake(bets@, i)))
            } else {
                old(bank)@[i] as int
            },
{
    if can_pay(hands, kind, bank, bets) {
        pay_hands(hands, kind, bank, bets);
        true
    } else {
        false
    }
}

/// Adds to the banks what the winning and the tying hands have earned: twice
/// the seat's bet for each hand that won, the bet itself for each hand that
/// tied. Losing hands change nothing, their stake having been paid when the
/// bet was made.
pub fn update_bank(win: &Vec<HandRef>, equ: &Vec<HandRef>, bank: &mut Vec<u32>, bets: &Vec<u32>)
    requires
        seated(win@, old(bank)@, bets@),
        seated(equ@, old(bank)@, bets@),
        forall|i: int|
            0 <= i < old(bank)@.len() ==> (#[trigger] old(bank)@[i]) + credit(
                win@,
                i,
                2 * stake(bets@, i),
            ) + credit(equ@, i, stake(bets@, i)) <= u32::MAX,
    ensures
        final(bank)@.len() == old(bank)@.len(),
        forall|i: int|
            0 <= i < old(bank)@.len() ==> (#[trigger] final(bank)@[i]) == old(bank)@[i] + credit(
                win@,
                i,
                2 * stake(bets@, i),
            ) + credit(equ@, i, stake(bets@, i)),
{
    proof {
        assert forall|i: int| 0 <= i < bank@.len() implies 0 <= credit(
            equ@,
            i,
            stake(bets@, i),
        ) && 0 <= credit(win@, i, 2 * stake(bets@, i)) by {
            lemma_credit_nonnegative(equ@, i, stake(bets@, i));
            lemma_credit_nonnegative(win@, i, 2 * stake(bets@, i));
        }
    }
    pay_hands(win, Outcome::Win, bank, bets);
    pay_hands(equ, Outcome::Push, bank, bets);
}

/// Adds to the banks what the blackjacks have earned: for each listed hand
/// the seat's bet and half as much again on top of it, rounded down.
pub fn pay_bonus(three_two: &Vec<HandRef>, bank: &mut Vec<u32>, bets: &Vec<u32>)
    requires
        seated(three_two@, old(bank)@, bets@),
        forall|i: int|
            0 <= i < old(bank)@.len() ==> (#[trigger] old(bank)@[i]) + credit(
                three_two@,
                i,
                payout(Outcome::Bonus, stake(bets@, i)),
            ) <= u32::MAX,
    ensures
        final(bank)@.len() == old(bank)@.len(),
        forall|i: int|
            0 <= i < old(bank)@.len() ==> (#[trigger] final(bank)@[i]) == old(bank)@[i] + credit(
                three_two@,
                i,
                payout(Outcome::Bonus, stake(bets@, i)),
            ),
{
    pay_hands(three_two, Outcome::Bonus, bank, bets);
}

/// Checks whether all players have some funds to keep playing.
pub fn is_playable(bank: &Vec<u32>) -> (yes: bool)
    ensures
        yes <==> forall|i: int| 0 <= i < bank@.len() ==> bank@[i] != 0,
{
    let mut i: usize = 0;
    while i < bank.len()
        invariant
            i <= bank@.len(),
            forall|k: int| 0 <= k < i ==> bank@[k] != 0,
        decreases bank@.len() - i,
    {
        if bank[i] == 0 {
            return false;
        }
        i += 1;
    }
    true
}

} // verus!
