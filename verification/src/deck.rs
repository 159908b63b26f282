//! The shoe: the pile that cards are drawn from, refilled with fresh packs
//! and reshuffled whenever it runs out.

use vstd::prelude::*;
use vstd::seq_lib::*;
use rand::seq::SliceRandom;
use rand::thread_rng;
use crate::card::Card;
use crate::hand::SeatHands;

verus! {

/// The number of packs that fill the shoe.
pub const NUM_PACKS: usize = 4;

/// The number of seats at the table, the dealer not counted.
pub const NUM_PLAYERS: usize = 2;

/// The funds each seat starts with.
pub const STARTING_FUNDS: u32 = 300;

/// `n` fresh packs laid end to end.
pub open spec fn packs(n: nat) -> Seq<Card>
    decreases n,
{
    if n == 0 {
        Seq::empty()
    } else {
        packs((n - 1) as nat) + Card::full_pack()
    }
}

/// The draw `card` takes the pile from `before` to `after`. From a pile that
/// holds cards the draw takes the last one and nothing else changes. From an
/// empty pile the draw first refills it, once: the card drawn and the cards
/// left are together exactly the cards of `NUM_PACKS` fresh packs, in some
/// order.
pub open spec fn drawn(before: Seq<Card>, card: Card, after: Seq<Card>) -> bool {
    if before.len() > 0 {
        card == before.last() && after == before.drop_last()
    } else {
        after.push(card).to_multiset() == packs(NUM_PACKS as nat).to_multiset()
    }
}

/// The cards `cards` were drawn one after another, in this order, and the
/// draws took the pile from `before` to `after`.
pub open spec fn drawn_run(before: Seq<Card>, cards: Seq<Card>, after: Seq<Card>) -> bool
    decreases cards.len(),
{
    if cards.len() == 0 {
        after == before
    } else {
        exists|middle: Seq<Card>|
            drawn_run(before, cards.drop_last(), middle) && #[trigger] drawn(
                middle,
                cards.last(),
                after,
            )
    }
}

/// One more draw extends a run of draws.
pub proof fn lemma_run_grows(
    before: Seq<Card>,
    cards: Seq<Card>,
    middle: Seq<Card>,
    card: Card,
    after: Seq<Card>,
)
    requires
        drawn_run(before, cards, middle),
        drawn(middle, card, after),
    ensures
        drawn_run(before, cards.push(card), after),
{
    let longer = cards.push(card);
    assert(longer.drop_last() =~= cards);
    assert(drawn(middle, longer.last(), after));
}

/// While the pile lasts, a run of draws takes its last cards, the last
/// first, and leaves the rest of the pile as it was.
pub proof fn lemma_run_within_pile(before: Seq<Card>, cards: Seq<Card>, after: Seq<Card>)
    requires
        drawn_run(before, cards, after),
        cards.len() <= before.len(),
    ensures
        after == before.take(before.len() - cards.len()),
        forall|j: int| 0 <= j < cards.len() ==> cards[j] == before[before.len() - 1 - j],
    decreases cards.len(),
{
    if cards.len() == 0 {
        assert(before.take(before.len() as int) =~= before);
    } else {
        let middle = choose|middle: Seq<Card>|
            drawn_run(before, cards.drop_last(), middle) && #[trigger] drawn(
                middle,
                cards.last(),
                after,
            );
        lemma_run_within_pile(before, cards.drop_last(), middle);
        assert(after =~= before.take(before.len() - cards.len()));
        assert forall|j: int| 0 <= j < cards.len() implies cards[j] == before[before.len() - 1
            - j] by {
            if j < cards.len() - 1 {
                assert(cards[j] == cards.drop_last()[j]);
            }
        }
    }
}

/// `n` packs hold 52 cards each.
pub proof fn lemma_packs_len(n: nat)
    ensures
        packs(n).len() == 52 * n,
    decreases n,
{
    if n > 0 {
        lemma_packs_len((n - 1) as nat);
    }
}

/// After a draw the pile is one card shorter than it was, or one card short
/// of a full shoe: a draw never finds the pile empty and leaves it so.
pub proof fn lemma_drawn_len(before: Seq<Card>, card: Card, after: Seq<Card>)
    requires
        drawn(before, card, after),
    ensures
        before.len() > 0 ==> after.len() == before.len() - 1,
        before.len() == 0 ==> after.len() == 52 * NUM_PACKS - 1,
{
    broadcast use to_multiset_len;

    if before.len() == 0 {
        lemma_packs_len(NUM_PACKS as nat);
        assert(packs(NUM_PACKS as nat).to_multiset().len() == packs(NUM_PACKS as nat).len());
    }
}

/// Reorders the pile at random with `rand`'s `SliceRandom::shuffle`, fed by
/// `rand::thread_rng`. The shuffle only swaps cards within the pile, so the
/// pile holds the same cards afterwards, each as often as before; nothing is
/// claimed about their order.
#[verifier::external_body]
fn shuffle(pack: &mut Vec<Card>)
    ensures
        final(pack)@.to_multiset() == old(pack)@.to_multiset(),
{
    pack.shuffle(&mut thread_rng());
}

/// Adds `NUM_PACKS` fresh packs to the pile and shuffles the whole of it.
fn refill(pack: &mut Vec<Card>)
    ensures
        final(pack)@.to_multiset() == (old(pack)@ + packs(NUM_PACKS as nat)).to_multiset(),
{
    let mut n: usize = 0;
    while n < NUM_PACKS
        invariant
            n <= NUM_PACKS,
            pack@ == old(pack)@ + packs(n as nat),
        decreases NUM_PACKS - n,
    {
        let mut fresh = Card::card_pack();
        pack.append(&mut fresh);
        n += 1;
    }
    shuffle(pack);
}

/// Seats `num_players` players: each gets an empty hand and the starting
/// funds.
pub fn init_seats(player_hands: &mut Vec<SeatHands>, bank: &mut Vec<u32>, num_players: usize)
    ensures
        final(player_hands)@.len() == old(player_hands)@.len() + num_players,
        final(player_hands)@.take(old(player_hands)@.len() as int) == old(player_hands)@,
        forall|i: int|
            old(player_hands)@.len() <= i < final(player_hands)@.len() ==> (
            #[trigger] final(player_hands)@[i]).0@.len() == 0 && final(player_hands)@[i].1 is None,
        final(bank)@ == old(bank)@ + Seq::new(num_players as nat, |i: int| STARTING_FUNDS),
{
    let mut n: usize = 0;
    while n < num_players
        invariant
            n <= num_players,
            player_hands@.len() == old(player_hands)@.len() + n,
            player_hands@.take(old(player_hands)@.len() as int) == old(player_hands)@,
            forall|i: int|
                old(player_hands)@.len() <= i < player_hands@.len() ==> (
                #[trigger] player_hands@[i]).0@.len() == 0 && player_hands@[i].1 is None,
            bank@ == old(bank)@ + Seq::new(n as nat, |i: int| STARTING_FUNDS),
        decreases num_players - n,
    {
        player_hands.push((Vec::new(), None));
        bank.push(STARTING_FUNDS);
        n += 1;
    }
}

/// Fills the shoe with `NUM_PACKS` packs and shuffles it.
pub fn init_shoe(pack: &mut Vec<Card>)
    ensures
        final(pack)@.to_multiset() == (old(pack)@ + packs(NUM_PACKS as nat)).to_multiset(),
        final(pack)@.len() == old(pack)@.len() + 52 * NUM_PACKS,
{
    broadcast use to_multiset_len;

    refill(pack);
    proof {
        lemma_packs_len(NUM_PACKS as nat);
        assert((old(pack)@ + packs(NUM_PACKS as nat)).to_multiset().len() == (old(pack)@ + packs(
            NUM_PACKS as nat,
        )).len());
    }
}

/// Fills the shoe with `NUM_PACKS` packs, shuffles it, and gives each of the
/// `NUM_PLAYERS` seats an empty hand and its starting funds.
pub fn init_game(player_hands: &mut Vec<SeatHands>, pack: &mut Vec<Card>, bank: &mut Vec<u32>)
    ensures
        final(pack)@.to_multiset() == (old(pack)@ + packs(NUM_PACKS as nat)).to_multiset(),
        final(pack)@.len() == old(pack)@.len() + 52 * NUM_PACKS,
        final(player_hands)@.len() == old(player_hands)@.len() + NUM_PLAYERS,
        final(player_hands)@.take(old(player_hands)@.len() as int) == old(player_hands)@,
        forall|i: int|
            old(player_hands)@.len() <= i < final(player_hands)@.len() ==> (
            #[trigger] final(player_hands)@[i]).0@.len() == 0 && final(player_hands)@[i].1 is None,
        final(bank)@ == old(bank)@ + Seq::new(NUM_PLAYERS as nat, |i: int| STARTING_FUNDS),
{
    init_shoe(pack);
    init_seats(player_hands, bank, NUM_PLAYERS);
}

/// Draws a card from the pile. If the pile is empty it is first refilled
/// with `NUM_PACKS` fresh packs and shuffled, so a draw always succeeds.
pub fn pick_card(pack: &mut Vec<Card>) -> (card: Card)
    ensures
        drawn(old(pack)@, card, final(pack)@),
{
    match pack.pop() {
        Some(card) => {
            card
        },
        None => {
            refill(pack);
            proof {
                broadcast use to_multiset_len;

                lemma_packs_len(NUM_PACKS as nat);
                assert(packs(NUM_PACKS as nat).to_multiset().len() == packs(
                    NUM_PACKS as nat,
                ).len());
            }
            let ghost full = pack@;
            let top = pack.pop();
            proof {
                assert(pack@.push(full.last()) =~= full);
            }
            top.unwrap()
        },
    }
}

} // verus!
