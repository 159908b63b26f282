//! The round: betting, the deal, and the turn of every seat and of the
//! dealer, one decision at a time.

use vstd::prelude::*;
use crate::card::Card;
use crate::deck::{drawn, drawn_run, lemma_run_grows, lemma_run_within_pile, pick_card};
use crate::hand::{
    countable, hand_total, hand_value, hard_total, is_splittable, lemma_hard_total_bounds,
    lemma_hard_total_push, splittable, SeatHands,
};
use crate::player::{bot_choice, bot_play, dealer_choice, dealer_play, PlayerAction, PlayerType};

verus! {

/// The cards of one seat: its first hand, and its second once it has split.
pub type HandsView = (Seq<Card>, Option<Seq<Card>>);

/// Everything on the table during a round. The seats are numbered from
/// zero; the dealer comes after the last seat and has a hand and a type, but
/// neither bank nor bet.
pub struct Table {
    /// The hands of each seat.
    pub player_hands: Vec<SeatHands>,
    /// The dealer's hand.
    pub dealer_hand: Vec<Card>,
    /// The pile that cards are drawn from.
    pub pack: Vec<Card>,
    /// Who decides for each seat, and last for the dealer.
    pub player_types: Vec<PlayerType>,
    /// The bets placed so far in this round, in seat order.
    pub bets: Vec<u32>,
    /// The funds of each seat that are not at stake.
    pub bank: Vec<u32>,
}

/// The table as plain mathematical data.
pub struct TableView {
    pub hands: Seq<HandsView>,
    pub dealer: Seq<Card>,
    pub pack: Seq<Card>,
    pub kinds: Seq<PlayerType>,
    pub bets: Seq<u32>,
    pub bank: Seq<u32>,
}

/// The cards of a seat's hands.
pub open spec fn seat_view(seat: SeatHands) -> HandsView {
    (
        seat.0@,
        match seat.1 {
            Some(second) => Some(second@),
            None => None,
        },
    )
}

impl View for Table {
    type V = TableView;

    open spec fn view(&self) -> TableView {
        TableView {
            hands: self.player_hands@.map_values(|seat: SeatHands| seat_view(seat)),
            dealer: self.dealer_hand@,
            pack: self.pack@,
            kinds: self.player_types@,
            bets: self.bets@,
            bank: self.bank@,
        }
    }
}

/// What a step of a turn leaves to do.
#[derive(Clone, Copy, Debug, PartialEq, Eq, Structural)]
pub enum Progress {
    /// The wish was illegal and nothing has changed: the player is to choose
    /// again.
    Rejected,
    /// The action was applied and the same hand plays on.
    Continues,
    /// The hand has finished its turn.
    Ended,
}

/// Where a round stands.
#[derive(Clone, Copy, Debug, PartialEq, Eq, Structural)]
pub enum Stage {
    /// The seat with this index is to bet.
    Betting(usize),
    /// The seat with this index, or the dealer after the last seat, is to
    /// act on its first hand, or on its second where the flag is set.
    Turn(usize, bool),
    /// Every hand has been played; the round can be settled.
    Over,
}

impl TableView {
    /// The number of seats, the dealer not counted.
    pub open spec fn seats(self) -> int {
        self.hands.len() as int
    }

    /// The invariant of a table: one bank per seat and at most one bet, one
    /// type per seat and the dealer's last, no seat played by the dealer's
    /// rule, every hand of countable size, and every bet positive and no
    /// larger than what the seat owned when it was placed.
    pub open spec fn wf(self) -> bool {
        &&& self.kinds.len() == self.hands.len() + 1
        &&& self.kinds.len() <= usize::MAX
        &&& self.bank.len() == self.hands.len()
        &&& self.bets.len() <= self.hands.len()
        &&& forall|i: int|
            0 <= i < self.kinds.len() ==> ((#[trigger] self.kinds[i]) == PlayerType::Dealer <==> i
                == self.hands.len())
        &&& forall|i: int|
            0 <= i < self.hands.len() ==> countable((#[trigger] self.hands[i]).0) && (
            self.hands[i].1 is Some ==> countable(self.hands[i].1.unwrap()))
        &&& countable(self.dealer)
        &&& forall|i: int|
            0 <= i < self.bets.len() ==> 0 < (#[trigger] self.bets[i]) && self.bets[i]
                + self.bank[i] <= u32::MAX
    }

    /// Whether the table has the hand: the dealer's only hand, a seat's
    /// first, or the second of a seat that has split.
    pub open spec fn in_play(self, index: int, is_second: bool) -> bool {
        if is_second {
            0 <= index < self.seats() && self.hands[index].1 is Some
        } else {
            0 <= index <= self.seats()
        }
    }

    /// The cards of the hand.
    pub open spec fn active(self, index: int, is_second: bool) -> Seq<Card> {
        if index >= self.seats() {
            self.dealer
        } else if is_second {
            self.hands[index].1.unwrap()
        } else {
            self.hands[index].0
        }
    }

    /// What the dealer shows: the value of the dealer's first card alone.
    pub open spec fn up_value(self) -> nat {
        if self.dealer.len() == 0 {
            0
        } else {
            hand_total(self.dealer.take(1))
        }
    }

    /// A seat may split its first hand once, when that hand is a pair and the
    /// bank can pay a second bet. The dealer never splits.
    pub open spec fn can_split(self, index: int, is_second: bool) -> bool {
        &&& !is_second
        &&& 0 <= index < self.bets.len()
        &&& self.hands[index].1 is None
        &&& splittable(self.hands[index].0)
        &&& self.bank[index] >= self.bets[index]
    }

    /// A seat may double on a hand worth less than 21 when the bank can pay
    /// the bet once more. The dealer never doubles.
    pub open spec fn can_double(self, index: int, is_second: bool) -> bool {
        &&& 0 <= index < self.bets.len()
        &&& self.bank[index] >= self.bets[index]
        &&& hand_total(self.active(index, is_second)) < 21
    }

    /// Whether the action may be applied to the hand.
    pub open spec fn legal(self, index: int, is_second: bool, action: PlayerAction) -> bool {
        match action {
            PlayerAction::Stand => true,
            PlayerAction::Hit => hand_total(self.active(index, is_second)) < 21,
            PlayerAction::Double => self.can_double(index, is_second),
            PlayerAction::Split => self.can_split(index, is_second),
        }
    }

    /// The action taken on the hand when its player wishes `wish`. A hand
    /// worth 21 or more stands without being asked. Otherwise the automatic
    /// player and the dealer follow their policies, whatever the wish, and a
    /// human gets the wish if it is legal; `None` says that it is not.
    pub open spec fn choice(self, index: int, is_second: bool, wish: PlayerAction) -> Option<
        PlayerAction,
    > {
        let value = hand_total(self.active(index, is_second)) as int;
        if value >= 21 {
            Some(PlayerAction::Stand)
        } else {
            let wanted = match self.kinds[index] {
                PlayerType::Bot => bot_choice(
                    value,
                    self.up_value() as int,
                    self.can_double(index, is_second),
                ),
                PlayerType::Dealer => dealer_choice(value),
                PlayerType::Human => wish,
            };
            if self.legal(index, is_second, wanted) {
                Some(wanted)
            } else {
                None
            }
        }
    }

    /// The table with the hand replaced by the given cards.
    pub open spec fn with_hand(self, index: int, is_second: bool, cards: Seq<Card>) -> TableView {
        if index >= self.seats() {
            TableView { dealer: cards, ..self }
        } else if is_second {
            TableView {
                hands: self.hands.update(index, (self.hands[index].0, Some(cards))),
                ..self
            }
        } else {
            TableView {
                hands: self.hands.update(index, (cards, self.hands[index].1)),
                ..self
            }
        }
    }

    /// The table with one more card in the hand.
    pub open spec fn with_card(self, index: int, is_second: bool, card: Card) -> TableView {
        self.with_hand(index, is_second, self.active(index, is_second).push(card))
    }

    /// The table with another pile to draw from.
    pub open spec fn with_pack(self, pack: Seq<Card>) -> TableView {
        TableView { pack: pack, ..self }
    }

    /// Whether every hand has room for two more cards.
    pub open spec fn roomy(self) -> bool {
        &&& 10 * self.dealer.len() + 30 <= u32::MAX
        &&& forall|i: int|
            0 <= i < self.hands.len() ==> 10 * (#[trigger] self.hands[i]).0.len() + 30 <= u32::MAX
    }

    /// Whether the round may stand at the stage: a seat bets when all seats
    /// before it have, with the hands still to be dealt; a hand plays when
    /// the table has it.
    pub open spec fn admits(self, stage: Stage) -> bool {
        match stage {
            Stage::Betting(seat) => seat == self.bets.len() && seat < self.seats() && self.roomy(),
            Stage::Turn(index, is_second) => self.in_play(index as int, is_second),
            Stage::Over => true,
        }
    }

    /// The table after the seat has split: each hand keeps one card of the
    /// pair, and the bank pays a second bet equal to the first.
    pub open spec fn split(self, index: int) -> TableView {
        TableView {
            hands: self.hands.update(
                index,
                (seq![self.hands[index].0[0]], Some(seq![self.hands[index].0[1]])),
            ),
            bank: self.bank.update(index, (self.bank[index] - self.bets[index]) as u32),
            ..self
        }
    }

    /// The table after a double, but for the card: the bank pays the bet once
    /// more and the bet is twice what it was.
    pub open spec fn doubled(self, index: int) -> TableView {
        TableView {
            bank: self.bank.update(index, (self.bank[index] - self.bets[index]) as u32),
            bets: self.bets.update(index, (2 * self.bets[index]) as u32),
            ..self
        }
    }

    /// The table after a bet of the next seat to bet.
    pub open spec fn staked(self, bet: u32) -> TableView {
        let seat = self.bets.len() as int;
        TableView {
            bank: self.bank.update(seat, (self.bank[seat] - bet) as u32),
            bets: self.bets.push(bet),
            ..self
        }
    }

    /// The hand that plays when the given hand has finished: the seat's
    /// second hand after its first, then the next seat, the dealer after the
    /// last seat, and nobody after the dealer.
    pub open spec fn next_hand(self, index: int, is_second: bool) -> Stage {
        if index >= self.seats() {
            Stage::Over
        } else if !is_second && self.hands[index].1 is Some {
            Stage::Turn(index as usize, true)
        } else {
            Stage::Turn((index + 1) as usize, false)
        }
    }
}

/// How a legal action takes the table from `before` to `after`. A stand
/// changes nothing. A hit draws one card into the hand. A double draws one
/// card into the hand, pays the bet once more and doubles it. A split divides
/// the pair and pays a second bet.
pub open spec fn stepped(
    before: TableView,
    index: int,
    is_second: bool,
    action: PlayerAction,
    after: TableView,
) -> bool {
    let hand = after.active(index, is_second);
    match action {
        PlayerAction::Stand => after == before,
        PlayerAction::Split => after == before.split(index),
        PlayerAction::Hit => {
            &&& hand.len() > 0
            &&& drawn(before.pack, hand.last(), after.pack)
            &&& after == TableView {
                pack: after.pack,
                ..before.with_card(index, is_second, hand.last())
            }
        },
        PlayerAction::Double => {
            &&& hand.len() > 0
            &&& drawn(before.pack, hand.last(), after.pack)
            &&& after == TableView {
                pack: after.pack,
                ..before.with_card(index, is_second, hand.last()).doubled(index)
            }
        },
    }
}

/// Whether the hand plays on after the action: after a hit or a split it
/// does, after a stand or a double it does not.
pub open spec fn plays_on(action: PlayerAction) -> bool {
    action == PlayerAction::Hit || action == PlayerAction::Split
}

/// The bet of the automatic player: half its funds, rounded down, and its
/// last unit when that is all it has.
pub open spec fn bot_bet(available: u32) -> u32 {
    if available == 1 {
        1
    } else {
        available / 2
    }
}

/// The bet a player of the given type puts forward: an automatic player
/// bets by its rule, a human bets what was offered, the dealer bets nothing.
pub open spec fn bet_put_forward(kind: PlayerType, available: u32, offered: u32) -> u32 {
    match kind {
        PlayerType::Bot => bot_bet(available),
        PlayerType::Human => offered,
        PlayerType::Dealer => 0,
    }
}

/// The bet a seat puts forward. An automatic player bets by its rule; a
/// human bets what was offered; the dealer bets nothing. Whether the bank
/// covers the bet is checked when it is placed.
pub fn pick_bet(player_type: &PlayerType, available: u32, offered: u32) -> (bet: u32)
    ensures
        bet == bet_put_forward(*player_type, available, offered),
        *player_type == PlayerType::Bot && available > 0 ==> 0 < bet <= available,
{
    match player_type {
        PlayerType::Bot => {
            if available == 1 {
                1
            } else {
                available / 2
            }
        },
        PlayerType::Human => offered,
        PlayerType::Dealer => 0,
    }
}

/// Places the bet of the next seat to bet, if the bet is positive and the
/// seat's bank covers it: the bank is debited at once. Says whether the bet
/// was accepted; a refused bet changes nothing.
pub fn place_bet(table: &mut Table, bet: u32) -> (accepted: bool)
    requires
        old(table)@.wf(),
        old(table)@.bets.len() < old(table)@.seats(),
    ensures
        accepted <==> 0 < bet <= old(table)@.bank[old(table)@.bets.len() as int],
        accepted ==> final(table)@ == old(table)@.staked(bet),
        !accepted ==> final(table)@ == old(table)@,
        final(table)@.wf(),
{
    let seat: usize = table.bets.len();
    if 0 < bet && bet <= table.bank[seat] {
        table.bets.push(bet);
        table.bank[seat] -= bet;
        true
    } else {
        false
    }
}

/// Draws one card into the hand.
fn give_card(table: &mut Table, index: usize, is_second: bool) -> (card: Card)
    requires
        old(table)@.wf(),
        old(table)@.in_play(index as int, is_second),
        10 * old(table)@.active(index as int, is_second).len() + 20 <= u32::MAX,
    ensures
        drawn(old(table)@.pack, card, final(table)@.pack),
        final(table)@ == (TableView {
            pack: final(table)@.pack,
            ..old(table)@.with_card(index as int, is_second, card)
        }),
        final(table)@.active(index as int, is_second) == old(table)@.active(
            index as int,
            is_second,
        ).push(card),
        final(table)@.wf(),
{
    let card = pick_card(&mut table.pack);
    if index < table.player_hands.len() {
        if is_second {
            match &mut table.player_hands[index].1 {
                Some(hand) => {
                    hand.push(card);
                },
                None => {},
            }
        } else {
            table.player_hands[index].0.push(card);
        }
    } else {
        table.dealer_hand.push(card);
    }
    proof {
        let target = TableView {
            pack: table@.pack,
            ..old(table)@.with_card(index as int, is_second, card)
        };
        assert(table@.hands =~= target.hands);
    }
    card
}

/// The value of the hand.
fn value_in_play(table: &Table, index: usize, is_second: bool) -> (value: u32)
    requires
        table@.wf(),
        table@.in_play(index as int, is_second),
    ensures
        value == hand_total(table@.active(index as int, is_second)),
{
    if index >= table.player_hands.len() {
        hand_value(&table.dealer_hand)
    } else if is_second {
        match &table.player_hands[index].1 {
            Some(hand) => hand_value(hand),
            None => 0,
        }
    } else {
        hand_value(&table.player_hands[index].0)
    }
}

/// What the dealer shows to the players: the value of the first card.
fn shown_value(table: &Table) -> (value: u32)
    requires
        table@.wf(),
    ensures
        value == table@.up_value(),
{
    if table.dealer_hand.len() == 0 {
        0
    } else {
        let mut up: Vec<Card> = Vec::new();
        up.push(table.dealer_hand[0]);
        assert(up@ =~= table@.dealer.take(1));
        hand_value(&up)
    }
}

/// Decides what happens on the hand when its player wishes `wish`: a hand
/// worth 21 or more stands; the automatic player and the dealer follow their
/// policies; a human's wish is granted if it is legal, and `None` asks for
/// another wish.
pub fn pick_action(table: &Table, index: usize, is_second: bool, wish: PlayerAction) -> (action:
    Option<PlayerAction>)
    requires
        table@.wf(),
        table@.in_play(index as int, is_second),
    ensures
        action == table@.choice(index as int, is_second, wish),
        action is Some ==> table@.legal(index as int, is_second, action.unwrap()),
        table@.kinds[index as int] != PlayerType::Human ==> action is Some,
{
    let value = value_in_play(table, index, is_second);
    if value >= 21 {
        return Some(PlayerAction::Stand);
    }
    let can_double = index < table.bets.len() && table.bank[index] >= table.bets[index];
    let wanted = match table.player_types[index] {
        PlayerType::Bot => {
            let mut scores: Vec<(u32, Option<u32>)> = Vec::new();
            scores.push(
                if is_second {
                    (0, Some(value))
                } else {
                    (value, None)
                },
            );
            scores.push((shown_value(table), None));
            bot_play(&scores, is_second, 0, can_double)
        },
        PlayerType::Dealer => {
            let mut scores: Vec<(u32, Option<u32>)> = Vec::new();
            scores.push((value, None));
            dealer_play(&scores, 0)
        },
        PlayerType::Human => wish,
    };
    let legal = match wanted {
        PlayerAction::Stand => true,
        PlayerAction::Hit => true,
        PlayerAction::Double => can_double,
        PlayerAction::Split => {
            !is_second && index < table.bets.len() && table.player_hands[index].1.is_none()
                && is_splittable(&table.player_hands[index].0) && table.bank[index]
                >= table.bets[index]
        },
    };
    if legal {
        Some(wanted)
    } else {
        None
    }
}

/// Applies a legal action to the hand and says whether the hand plays on.
pub fn apply_action(table: &mut Table, index: usize, is_second: bool, action: PlayerAction) -> (
    goes_on: bool
)
    requires
        old(table)@.wf(),
        old(table)@.in_play(index as int, is_second),
        old(table)@.legal(index as int, is_second, action),
    ensures
        stepped(old(table)@, index as int, is_second, action, final(table)@),
        goes_on == plays_on(action),
        final(table)@.wf(),
        final(table)@.in_play(index as int, is_second),
{
    match action {
        PlayerAction::Stand => false,
        PlayerAction::Hit => {
            proof {
                lemma_hard_total_bounds(table@.active(index as int, is_second));
            }
            let _ = give_card(table, index, is_second);
            true
        },
        PlayerAction::Double => {
            proof {
                lemma_hard_total_bounds(table@.active(index as int, is_second));
            }
            let _ = give_card(table, index, is_second);
            let bet: u32 = table.bets[index];
            table.bank[index] -= bet;
            table.bets[index] = bet + bet;
            false
        },
        PlayerAction::Split => {
            let ghost pair = table@.hands[index as int].0;
            let moved = table.player_hands[index].0.pop();
            let mut second: Vec<Card> = Vec::new();
            second.push(moved.unwrap());
            table.player_hands[index].1 = Some(second);
            let bet: u32 = table.bets[index];
            table.bank[index] -= bet;
            proof {
                let target = old(table)@.split(index as int);
                assert(table@.hands[index as int].0 =~= seq![pair[0]]);
                assert(table@.hands =~= target.hands);
            }
            true
        },
    }
}

/// Plays one decision on the hand: the action is picked for the wish and,
/// unless the wish is refused, applied.
pub fn play_step(table: &mut Table, index: usize, is_second: bool, wish: PlayerAction) -> (progress:
    Progress)
    requires
        old(table)@.wf(),
        old(table)@.in_play(index as int, is_second),
    ensures
        match old(table)@.choice(index as int, is_second, wish) {
            None => progress == Progress::Rejected && final(table)@ == old(table)@,
            Some(action) => stepped(old(table)@, index as int, is_second, action, final(table)@)
                && progress == if plays_on(action) {
                Progress::Continues
            } else {
                Progress::Ended
            },
        },
        old(table)@.kinds[index as int] != PlayerType::Human ==> progress != Progress::Rejected,
        final(table)@.wf(),
        final(table)@.in_play(index as int, is_second),
{
    match pick_action(table, index, is_second, wish) {
        None => Progress::Rejected,
        Some(action) => {
            if apply_action(table, index, is_second, action) {
                Progress::Continues
            } else {
                Progress::Ended
            }
        },
    }
}

/// How the deal of the cards `run` takes the table from `before` to
/// `after`: every seat in turn and then the dealer get the next two cards
/// of the run on top of what they hold, and nothing else changes but the
/// pile.
pub open spec fn dealt_cards(before: TableView, run: Seq<Card>, after: TableView) -> bool {
    let n = before.seats();
    &&& run.len() == 2 * (n + 1)
    &&& after.kinds == before.kinds
    &&& after.bets == before.bets
    &&& after.bank == before.bank
    &&& after.hands.len() == n
    &&& forall|i: int|
        0 <= i < n ==> (#[trigger] after.hands[i]) == (
            before.hands[i].0.push(run[2 * i]).push(run[2 * i + 1]),
            before.hands[i].1,
        )
    &&& after.dealer == before.dealer.push(run[2 * n]).push(run[2 * n + 1])
}

/// How the deal takes the table from `before` to `after`: the cards dealt
/// were drawn from the pile one after another.
pub open spec fn dealt(before: TableView, after: TableView) -> bool {
    exists|run: Seq<Card>| #[trigger]
        dealt_cards(before, run, after) && drawn_run(before.pack, run, after.pack)
}

/// A deal from a pile that holds cards enough takes them off its end: the
/// first seat gets the last card of the pile and the one before it, and so
/// on down to the dealer.
pub proof fn lemma_deal_within_pile(before: TableView, after: TableView)
    requires
        dealt(before, after),
        2 * (before.seats() + 1) <= before.pack.len(),
    ensures
        after.pack == before.pack.take(before.pack.len() - 2 * (before.seats() + 1)),
        forall|i: int|
            0 <= i < before.seats() ==> (#[trigger] after.hands[i]).0 == before.hands[i].0.push(
                before.pack[before.pack.len() - 1 - 2 * i],
            ).push(before.pack[before.pack.len() - 2 - 2 * i]),
        after.dealer == before.dealer.push(
            before.pack[before.pack.len() - 1 - 2 * before.seats()],
        ).push(before.pack[before.pack.len() - 2 - 2 * before.seats()]),
{
    let run = choose|run: Seq<Card>| #[trigger]
        dealt_cards(before, run, after) && drawn_run(before.pack, run, after.pack);
    lemma_run_within_pile(before.pack, run, after.pack);
}

/// Deals the opening hands: two cards to every seat in turn, then two to
/// the dealer.
pub fn deal(table: &mut Table)
    requires
        old(table)@.wf(),
        old(table)@.roomy(),
    ensures
        dealt(old(table)@, final(table)@),
        final(table)@.wf(),
{
    let seats: usize = table.player_hands.len();
    let ghost mut run: Seq<Card> = Seq::empty();
    let mut i: usize = 0;
    while i <= seats
        invariant
            i <= seats + 1,
            seats == old(table)@.seats(),
            seats < usize::MAX,
            table@.wf(),
            old(table)@.roomy(),
            table@.kinds == old(table)@.kinds,
            table@.bets == old(table)@.bets,
            table@.bank == old(table)@.bank,
            table@.hands.len() == seats,
            run.len() == 2 * i,
            drawn_run(old(table)@.pack, run, table@.pack),
            forall|k: int|
                0 <= k < i && k < seats ==> (#[trigger] table@.hands[k]) == (
                    old(table)@.hands[k].0.push(run[2 * k]).push(run[2 * k + 1]),
                    old(table)@.hands[k].1,
                ),
            forall|k: int| i <= k < seats ==> (#[trigger] table@.hands[k]) == old(table)@.hands[k],
            i <= seats ==> table@.dealer == old(table)@.dealer,
            i > seats ==> table@.dealer == old(table)@.dealer.push(run[2 * seats]).push(
                run[2 * seats + 1],
            ),
        decreases seats + 1 - i,
    {
        let ghost start = table@;
        let first = give_card(table, i, false);
        let ghost middle = table@;
        let second = give_card(table, i, false);
        proof {
            lemma_run_grows(old(table)@.pack, run, start.pack, first, middle.pack);
            lemma_run_grows(old(table)@.pack, run.push(first), middle.pack, second, table@.pack);
            run = run.push(first).push(second);
        }
        i += 1;
    }
    assert(dealt_cards(old(table)@, run, table@));
}

/// How an automatic turn takes the table from `before` to `after`. Only
/// the hand, the pile and, after a double, the seat's bank and bet change.
/// The hand has grown by the cards drawn, one after another. After each of
/// them but the last the policy asked for a hit on what the hand then held.
/// The last card came by a hit too, after which the policy stands, or by a
/// double, which ends the turn whatever the hand is worth.
pub open spec fn turn_played(before: TableView, index: int, is_second: bool, after: TableView)
    -> bool {
    let held = before.active(index, is_second);
    let hand = after.active(index, is_second);
    let doubled = after.bets != before.bets;
    let quiet = before.with_hand(index, is_second, hand).with_pack(after.pack);
    &&& held.len() <= hand.len()
    &&& hand.take(held.len() as int) == held
    &&& drawn_run(before.pack, hand.skip(held.len() as int), after.pack)
    &&& forall|k: int|
        held.len() <= k < hand.len() - 1 ==> before.with_hand(
            index,
            is_second,
            #[trigger] hand.take(k),
        ).choice(index, is_second, PlayerAction::Stand) == Some(PlayerAction::Hit)
    &&& if doubled {
        &&& held.len() < hand.len()
        &&& before.with_hand(index, is_second, hand.drop_last()).choice(
            index,
            is_second,
            PlayerAction::Stand,
        ) == Some(PlayerAction::Double)
        &&& after == quiet.doubled(index)
    } else {
        &&& held.len() < hand.len() ==> before.with_hand(
            index,
            is_second,
            hand.drop_last(),
        ).choice(index, is_second, PlayerAction::Stand) == Some(PlayerAction::Hit)
        &&& after.choice(index, is_second, PlayerAction::Stand) == Some(PlayerAction::Stand)
        &&& after == quiet
    }
}

/// Replacing a hand forgets what the hand held before, and replacing it by
/// itself changes nothing.
pub proof fn lemma_with_hand(
    table: TableView,
    index: int,
    is_second: bool,
    a: Seq<Card>,
    p: Seq<Card>,
    b: Seq<Card>,
    q: Seq<Card>,
)
    requires
        table.in_play(index, is_second),
    ensures
        table.with_hand(index, is_second, a).with_pack(p).with_hand(index, is_second, b).with_pack(
            q,
        ) == table.with_hand(index, is_second, b).with_pack(q),
        table.with_hand(index, is_second, a).active(index, is_second) == a,
        table.with_hand(index, is_second, a).in_play(index, is_second),
        table.with_hand(index, is_second, table.active(index, is_second)).with_pack(table.pack)
            == table,
{
    let once = table.with_hand(index, is_second, a).with_pack(p);
    let twice = once.with_hand(index, is_second, b).with_pack(q);
    let direct = table.with_hand(index, is_second, b).with_pack(q);
    assert(twice.hands =~= direct.hands);
    let same = table.with_hand(index, is_second, table.active(index, is_second)).with_pack(
        table.pack,
    );
    assert(same.hands =~= table.hands);
}

/// How far the hand is from a forced stand, counting every ace as one.
pub open spec fn turn_measure(table: TableView, index: int, is_second: bool) -> int {
    let total = hard_total(table.active(index, is_second));
    if total < 21 {
        21 - total
    } else {
        0
    }
}

/// What holds while an automatic turn is under way: so far the policy has
/// asked for a hit after every card, the hand has grown by the cards drawn,
/// and nothing but the hand and the pile has changed.
pub open spec fn turn_running(before: TableView, index: int, is_second: bool, now: TableView)
    -> bool {
    let held = before.active(index, is_second);
    let hand = now.active(index, is_second);
    &&& held.len() <= hand.len()
    &&& hand.take(held.len() as int) == held
    &&& drawn_run(before.pack, hand.skip(held.len() as int), now.pack)
    &&& forall|k: int|
        held.len() <= k < hand.len() ==> before.with_hand(
            index,
            is_second,
            #[trigger] hand.take(k),
        ).choice(index, is_second, PlayerAction::Stand) == Some(PlayerAction::Hit)
    &&& now == before.with_hand(index, is_second, hand).with_pack(now.pack)
}

/// An automatic turn is under way as soon as it begins.
pub proof fn lemma_turn_begins(before: TableView, index: int, is_second: bool)
    requires
        before.in_play(index, is_second),
    ensures
        turn_running(before, index, is_second, before),
{
    let held = before.active(index, is_second);
    assert(held.take(held.len() as int) =~= held);
    assert(held.skip(held.len() as int) =~= Seq::<Card>::empty());
    lemma_with_hand(before, index, is_second, held, before.pack, held, before.pack);
}

/// One decision of an automatic turn: after a hit the turn is still under
/// way and the hand is nearer to a forced stand; after a stand or a double
/// the turn has been played.
pub proof fn lemma_turn_moves(
    before: TableView,
    index: int,
    is_second: bool,
    start: TableView,
    after: TableView,
)
    requires
        before.wf(),
        before.in_play(index, is_second),
        before.kinds[index] != PlayerType::Human,
        start.wf(),
        turn_running(before, index, is_second, start),
        start.choice(index, is_second, PlayerAction::Stand) is Some,
        stepped(
            start,
            index,
            is_second,
            start.choice(index, is_second, PlayerAction::Stand).unwrap(),
            after,
        ),
    ensures
        if plays_on(start.choice(index, is_second, PlayerAction::Stand).unwrap()) {
            &&& turn_running(before, index, is_second, after)
            &&& turn_measure(after, index, is_second) < turn_measure(start, index, is_second)
        } else {
            turn_played(before, index, is_second, after)
        },
{
    let held = before.active(index, is_second);
    let hand = start.active(index, is_second);
    let grown = after.active(index, is_second);
    let action = start.choice(index, is_second, PlayerAction::Stand).unwrap();
    let same = before.with_hand(index, is_second, hand);
    lemma_with_hand(before, index, is_second, hand, start.pack, hand, start.pack);
    assert(same.choice(index, is_second, PlayerAction::Stand) == Some(action));
    if action == PlayerAction::Stand {
        if held.len() < hand.len() {
            assert(hand.take(hand.len() - 1) =~= hand.drop_last());
        }
    } else {
        let card = grown.last();
        assert(grown =~= hand.push(card));
        assert(grown.drop_last() =~= hand);
        assert(grown.take(held.len() as int) =~= held);
        assert(grown.skip(held.len() as int) =~= hand.skip(held.len() as int).push(card));
        lemma_run_grows(
            before.pack,
            hand.skip(held.len() as int),
            start.pack,
            card,
            after.pack,
        );
        assert forall|k: int| held.len() <= k < grown.len() implies before.with_hand(
            index,
            is_second,
            #[trigger] grown.take(k),
        ).choice(index, is_second, PlayerAction::Stand) == Some(
            if k < grown.len() - 1 {
                PlayerAction::Hit
            } else {
                action
            },
        ) by {
            if k < grown.len() - 1 {
                assert(grown.take(k) =~= hand.take(k));
            } else {
                assert(grown.take(k) =~= hand);
            }
        }
        lemma_hard_total_push(hand, card);
        lemma_hard_total_bounds(hand);
        lemma_with_hand(before, index, is_second, hand, start.pack, grown, after.pack);
        if action == PlayerAction::Double {
            assert(after.bets[index] != before.bets[index]);
        }
    }
}

/// Plays the hand of the dealer or of an automatic player to its end,
/// decision after decision, until the policy stands or doubles.
pub fn play_turn(table: &mut Table, index: usize, is_second: bool)
    requires
        old(table)@.wf(),
        old(table)@.in_play(index as int, is_second),
        old(table)@.kinds[index as int] != PlayerType::Human,
    ensures
        turn_played(old(table)@, index as int, is_second, final(table)@),
        final(table)@.wf(),
        final(table)@.in_play(index as int, is_second),
{
    let ghost before = table@;
    let mut playing = true;
    proof {
        lemma_turn_begins(before, index as int, is_second);
    }
    while playing
        invariant
            before == old(table)@,
            before.wf(),
            before.in_play(index as int, is_second),
            before.kinds[index as int] != PlayerType::Human,
            table@.wf(),
            table@.in_play(index as int, is_second),
            playing ==> turn_running(before, index as int, is_second, table@),
            !playing ==> turn_played(before, index as int, is_second, table@),
        decreases
            (if playing {
                turn_measure(table@, index as int, is_second) + 1
            } else {
                0
            }),
    {
        let ghost start = table@;
        let progress = play_step(table, index, is_second, PlayerAction::Stand);
        proof {
            lemma_turn_moves(before, index as int, is_second, start, table@);
        }
        playing = progress == Progress::Continues;
    }
}

/// How one move of the round takes the table from `before` at `stage` to
/// `after` at `next`.
///
/// While the seats bet, the seat puts its bet forward. A bet that is positive
/// and covered is staked and the next seat is to bet; after the last seat the
/// hands are dealt and the first seat plays. A bet that is not is refused:
/// nothing changes, and the seat is to bet again.
///
/// When a human's hand plays, one decision is taken on the wish: a refused
/// wish changes nothing, after a hit or a split the hand plays on, and after
/// a stand or a double the next hand plays. The hand of an automatic player
/// or of the dealer is played to its end at once. After the dealer the round
/// is over, and stays so.
pub open spec fn round_moved(
    before: TableView,
    stage: Stage,
    offered: u32,
    wish: PlayerAction,
    after: TableView,
    next: Stage,
) -> bool {
    match stage {
        Stage::Over => after == before && next == stage,
        Stage::Betting(seat) => {
            let bet = bet_put_forward(before.kinds[seat as int], before.bank[seat as int], offered);
            if 0 < bet <= before.bank[seat as int] {
                if seat + 1 < before.seats() {
                    after == before.staked(bet) && next == Stage::Betting((seat + 1) as usize)
                } else {
                    dealt(before.staked(bet), after) && next == Stage::Turn(0, false)
                }
            } else {
                after == before && next == stage
            }
        },
        Stage::Turn(index, is_second) => {
            if before.kinds[index as int] == PlayerType::Human {
                match before.choice(index as int, is_second, wish) {
                    None => after == before && next == stage,
                    Some(action) => stepped(before, index as int, is_second, action, after) && next
                        == if plays_on(action) {
                        stage
                    } else {
                        after.next_hand(index as int, is_second)
                    },
                }
            } else {
                turn_played(before, index as int, is_second, after) && next == after.next_hand(
                    index as int,
                    is_second,
                )
            }
        },
    }
}

/// The stage after the given hand has finished.
fn following(table: &Table, index: usize, is_second: bool) -> (next: Stage)
    requires
        table@.wf(),
        table@.in_play(index as int, is_second),
    ensures
        next == table@.next_hand(index as int, is_second),
        table@.admits(next),
{
    if index >= table.player_hands.len() {
        Stage::Over
    } else if !is_second && table.player_hands[index].1.is_some() {
        Stage::Turn(index, true)
    } else {
        Stage::Turn(index + 1, false)
    }
}

/// Opens a round on a table without bets: the first seat is to bet, or,
/// at a table without seats, the hands are dealt and the dealer plays.
pub fn open_round(table: &mut Table) -> (stage: Stage)
    requires
        old(table)@.wf(),
        old(table)@.roomy(),
        old(table)@.bets.len() == 0,
    ensures
        old(table)@.seats() > 0 ==> stage == Stage::Betting(0) && final(table)@ == old(table)@,
        old(table)@.seats() == 0 ==> stage == Stage::Turn(0, false) && dealt(
            old(table)@,
            final(table)@,
        ),
        final(table)@.wf(),
        final(table)@.admits(stage),
{
    if table.player_hands.len() > 0 {
        Stage::Betting(0)
    } else {
        deal(table);
        Stage::Turn(0, false)
    }
}

/// Makes the next move of the round and says where the round then stands.
/// `offered` is the bet and `wish` the action of the human whose move it is;
/// a move that is not a human's ignores them.
pub fn play_round(table: &mut Table, stage: Stage, offered: u32, wish: PlayerAction) -> (next:
    Stage)
    requires
        old(table)@.wf(),
        old(table)@.admits(stage),
    ensures
        round_moved(old(table)@, stage, offered, wish, final(table)@, next),
        final(table)@.wf(),
        final(table)@.admits(next),
{
    match stage {
        Stage::Over => stage,
        Stage::Betting(seat) => {
            let bet = pick_bet(&table.player_types[seat], table.bank[seat], offered);
            if place_bet(table, bet) {
                if seat + 1 < table.player_hands.len() {
                    Stage::Betting(seat + 1)
                } else {
                    deal(table);
                    Stage::Turn(0, false)
                }
            } else {
                stage
            }
        },
        Stage::Turn(index, is_second) => {
            match table.player_types[index] {
                PlayerType::Human => {
                    match play_step(table, index, is_second, wish) {
                        Progress::Ended => following(table, index, is_second),
                        _ => stage,
                    }
                },
                _ => {
                    play_turn(table, index, is_second);
                    following(table, index, is_second)
                },
            }
        },
    }
}

/// Clears the table after a round: every hand is emptied, second hands and
/// bets are removed. Banks, types and the pile stay.
pub fn clear_table(table: &mut Table)
    requires
        old(table)@.wf(),
    ensures
        final(table)@.hands == Seq::new(
            old(table)@.hands.len(),
            |i: int| (Seq::<Card>::empty(), None::<Seq<Card>>),
        ),
        final(table)@.dealer == Seq::<Card>::empty(),
        final(table)@.bets == Seq::<u32>::empty(),
        final(table)@.bank == old(table)@.bank,
        final(table)@.kinds == old(table)@.kinds,
        final(table)@.pack == old(table)@.pack,
        final(table)@.wf(),
        final(table)@.roomy(),
{
    let seats: usize = table.player_hands.len();
    let mut i: usize = 0;
    while i < seats
        invariant
            i <= seats,
            seats == old(table)@.hands.len(),
            table@.hands.len() == seats,
            forall|k: int|
                0 <= k < i ==> (#[trigger] table@.hands[k]).0.len() == 0 && table@.hands[k].1
                    is None,
            table.dealer_hand == old(table).dealer_hand,
            table.bets == old(table).bets,
            table.bank == old(table).bank,
            table.player_types == old(table).player_types,
            table.pack == old(table).pack,
        decreases seats - i,
    {
        let ghost prior = table.player_hands@;
        let ghost start = table@;
        table.player_hands[i].0.clear();
        table.player_hands[i].1 = None;
        proof {
            assert forall|k: int| 0 <= k < i implies (#[trigger] table@.hands[k]).0.len() == 0
                && table@.hands[k].1 is None by {
                assert(start.hands[k] == seat_view(prior[k]));
            }
        }
        i += 1;
    }
    table.dealer_hand.clear();
    table.bets.clear();
    assert forall|k: int| 0 <= k < seats implies (#[trigger] table@.hands[k]) == (
        Seq::<Card>::empty(),
        None::<Seq<Card>>,
    ) by {
        assert(table@.hands[k].0 =~= Seq::<Card>::empty());
    }
}

/// A seat that splits pays, at that moment, a second bet equal to its
/// first. The bet stays what it was, each of the two hands keeps one card of
/// the pair, the first hand plays on, and nothing else on the table changes.
pub proof fn lemma_split_pays_second_bet(before: TableView, index: int, after: TableView)
    requires
        before.wf(),
        before.can_split(index, false),
        stepped(before, index, false, PlayerAction::Split, after),
    ensures
        after.bank[index] == before.bank[index] - before.bets[index],
        after.bets == before.bets,
        after.hands[index].0 == seq![before.hands[index].0[0]],
        after.hands[index].1 == Some(seq![before.hands[index].0[1]]),
        forall|j: int|
            0 <= j < before.seats() && j != index ==> after.bank[j] == before.bank[j]
                && after.hands[j] == before.hands[j],
        after.dealer == before.dealer,
        after.pack == before.pack,
        plays_on(PlayerAction::Split),
        !after.can_split(index, false),
        after.wf(),
{
}

/// The dealer never doubles and never splits, and stakes nothing: on the
/// dealer's hand the only actions ever taken are a hit below 17 and a stand
/// from 17 on, and the dealer's turn leaves every seat's hands, bank and bet
/// as they were.
pub proof fn lemma_dealer_hits_or_stands(
    before: TableView,
    wish: PlayerAction,
    after: TableView,
)
    requires
        before.wf(),
        turn_played(before, before.seats(), false, after),
    ensures
        !before.can_double(before.seats(), false),
        !before.can_split(before.seats(), false),
        before.choice(before.seats(), false, wish) == Some(
            dealer_choice(hand_total(before.dealer) as int),
        ),
        after.hands == before.hands,
        after.bank == before.bank,
        after.bets == before.bets,
        hand_total(after.dealer) >= 17,
{
}

/// A seat that doubles draws exactly one card, pays its bet once more and
/// has its bet doubled, and the hand does not act again: the next to play is
/// another hand, or nobody.
pub proof fn lemma_double_draws_one_card(
    before: TableView,
    index: int,
    is_second: bool,
    after: TableView,
)
    requires
        before.wf(),
        before.in_play(index, is_second),
        before.can_double(index, is_second),
        stepped(before, index, is_second, PlayerAction::Double, after),
    ensures
        after.active(index, is_second).len() == before.active(index, is_second).len() + 1,
        after.active(index, is_second).drop_last() == before.active(index, is_second),
        drawn(before.pack, after.active(index, is_second).last(), after.pack),
        after.bets[index] == 2 * before.bets[index],
        after.bank[index] == before.bank[index] - before.bets[index],
        !plays_on(PlayerAction::Double),
        after.next_hand(index, is_second) != Stage::Turn(index as usize, is_second),
{
    let held = before.active(index, is_second);
    let hand = after.active(index, is_second);
    let card = hand.last();
    lemma_with_hand(before, index, is_second, held.push(card), after.pack, held, after.pack);
}

/// The longest hand whose value is sure to fit the machine integer.
pub const MAX_HAND: usize = 429_496_728;

/// Whether the hands of the first `upto` seats are of countable size, with
/// room for `spare` more cards in each first hand.
pub open spec fn hands_fit(hands: Seq<HandsView>, upto: int, spare: int) -> bool {
    forall|i: int|
        0 <= i < upto ==> (#[trigger] hands[i]).0.len() + spare <= MAX_HAND && (hands[i].1
            is Some ==> hands[i].1.unwrap().len() <= MAX_HAND)
}

/// Checks the sizes of all hands, asking for room for `spare` more cards in
/// every first hand and in the dealer's.
fn check_hands(table: &Table, spare: usize) -> (fit: bool)
    requires
        spare <= 2,
    ensures
        fit == (hands_fit(table@.hands, table@.seats(), spare as int) && table@.dealer.len() + spare
            <= MAX_HAND),
{
    if table.dealer_hand.len() > MAX_HAND - spare {
        return false;
    }
    let mut i: usize = 0;
    while i < table.player_hands.len()
        invariant
            i <= table.player_hands@.len(),
            spare <= 2,
            hands_fit(table@.hands, i as int, spare as int),
        decreases table.player_hands@.len() - i,
    {
        let seat = &table.player_hands[i];
        let second_fits = match &seat.1 {
            Some(hand) => hand.len() <= MAX_HAND,
            None => true,
        };
        assert(table@.hands[i as int] == seat_view(table.player_hands@[i as int]));
        if seat.0.len() > MAX_HAND - spare || !second_fits {
            return false;
        }
        i += 1;
    }
    true
}

/// Checks the invariant of a table.
pub fn is_sound(table: &Table) -> (sound: bool)
    ensures
        sound == table@.wf(),
{
    let seats: usize = table.player_hands.len();
    if seats == usize::MAX || table.player_types.len() != seats + 1 || table.bank.len() != seats
        || table.bets.len() > seats {
        return false;
    }
    if !check_hands(table, 0) {
        return false;
    }
    let mut i: usize = 0;
    while i <= seats
        invariant
            i <= seats + 1,
            seats < usize::MAX,
            table.player_types@.len() == seats + 1,
            forall|k: int|
                0 <= k < i ==> ((#[trigger] table.player_types@[k]) == PlayerType::Dealer <==> k
                    == seats),
        decreases seats + 1 - i,
    {
        let is_dealer = table.player_types[i] == PlayerType::Dealer;
        if is_dealer != (i == seats) {
            return false;
        }
        i += 1;
    }
    let mut j: usize = 0;
    while j < table.bets.len()
        invariant
            j <= table.bets@.len(),
            table.bets@.len() <= table.bank@.len(),
            forall|k: int|
                0 <= k < j ==> 0 < (#[trigger] table.bets@[k]) && table.bets@[k] + table.bank@[k]
                    <= u32::MAX,
        decreases table.bets@.len() - j,
    {
        if table.bets[j] == 0 || table.bets[j] > u32::MAX - table.bank[j] {
            return false;
        }
        j += 1;
    }
    true
}

/// Checks whether a round can be opened on the table: the table is sound,
/// no bet has been placed, and every hand has room for the two cards of the
/// deal.
pub fn can_open(table: &Table) -> (ready: bool)
    ensures
        ready == (table@.wf() && table@.roomy() && table@.bets.len() == 0),
{
    is_sound(table) && table.bets.len() == 0 && check_hands(table, 2)
}

} // verus!
