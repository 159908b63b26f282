//! Playing cards: suits, ranks and the 52-card pack.

use vstd::prelude::*;

verus! {

/// Cards in one full pack.
pub const PACK_SIZE: usize = 52;

/// The four suits of a classical card game.
#[derive(Clone, Copy, Debug, PartialEq, Eq, Structural)]
pub enum Suit {
    Spades,
    Hearts,
    Diamonds,
    Clubs,
}

/// The thirteen ranks of a classical card game, from two up to the ace.
#[derive(Clone, Copy, Debug, PartialEq, Eq, Structural)]
pub enum Rank {
    Two,
    Three,
    Four,
    Five,
    Six,
    Seven,
    Eight,
    Nine,
    Ten,
    Jack,
    Queen,
    King,
    Ace,
}

/// A playing card. Two cards are equal when rank and suit both agree.
#[derive(Clone, Copy, Debug, PartialEq, Eq, Structural)]
pub struct Card {
    pub suit: Suit,
    pub rank: Rank,
}

impl Suit {
    /// The suit numbered `n`, counting modulo four.
    pub open spec fn of(n: int) -> Suit {
        let k = n % 4;
        if k == 0 {
            Suit::Spades
        } else if k == 1 {
            Suit::Hearts
        } else if k == 2 {
            Suit::Diamonds
        } else {
            Suit::Clubs
        }
    }

    /// Maps any number to a suit, cycling through the four of them.
    pub fn from_int(a: u32) -> (suit: Suit)
        ensures
            suit == Suit::of(a as int),
    {
        match a % 4 {
            0 => Suit::Spades,
            1 => Suit::Hearts,
            2 => Suit::Diamonds,
            _ => Suit::Clubs,
        }
    }

    /// How a suit is written.
    pub open spec fn label(self) -> Seq<char> {
        match self {
            Suit::Spades => "♠"@,
            Suit::Hearts => "♥"@,
            Suit::Diamonds => "♦"@,
            Suit::Clubs => "♣"@,
        }
    }

    /// The symbol a suit is printed with.
    pub fn symbol(&self) -> (text: &'static str)
        ensures
            text@ == self.label(),
    {
        match self {
            Suit::Spades => "♠",
            Suit::Hearts => "♥",
            Suit::Diamonds => "♦",
            Suit::Clubs => "♣",
        }
    }
}

impl Rank {
    /// The rank numbered `n`, counting modulo thirteen from the two.
    pub open spec fn of(n: int) -> Rank {
        let k = n % 13;
        if k == 0 {
            Rank::Two
        } else if k == 1 {
            Rank::Three
        } else if k == 2 {
            Rank::Four
        } else if k == 3 {
            Rank::Five
        } else if k == 4 {
            Rank::Six
        } else if k == 5 {
            Rank::Seven
        } else if k == 6 {
            Rank::Eight
        } else if k == 7 {
            Rank::Nine
        } else if k == 8 {
            Rank::Ten
        } else if k == 9 {
            Rank::Jack
        } else if k == 10 {
            Rank::Queen
        } else if k == 11 {
            Rank::King
        } else {
            Rank::Ace
        }
    }

    /// Points a card of this rank adds to a hand before any ace is promoted:
    /// face value for two to ten, ten for a face card, one for an ace.
    pub open spec fn points(self) -> nat {
        match self {
            Rank::Two => 2,
            Rank::Three => 3,
            Rank::Four => 4,
            Rank::Five => 5,
            Rank::Six => 6,
            Rank::Seven => 7,
            Rank::Eight => 8,
            Rank::Nine => 9,
            Rank::Ace => 1,
            _ => 10,
        }
    }

    /// Whether a card of this rank counts ten.
    pub open spec fn is_ten_valued(self) -> bool {
        self == Rank::Ten || self == Rank::Jack || self == Rank::Queen || self == Rank::King
    }

    /// Maps any number to a rank, cycling through the thirteen of them.
    pub fn from_int(a: u32) -> (rank: Rank)
        ensures
            rank == Rank::of(a as int),
    {
        match a % 13 {
            0 => Rank::Two,
            1 => Rank::Three,
            2 => Rank::Four,
            3 => Rank::Five,
            4 => Rank::Six,
            5 => Rank::Seven,
            6 => Rank::Eight,
            7 => Rank::Nine,
            8 => Rank::Ten,
            9 => Rank::Jack,
            10 => Rank::Queen,
            11 => Rank::King,
            _ => Rank::Ace,
        }
    }

    /// How a rank is written.
    pub open spec fn label(self) -> Seq<char> {
        match self {
            Rank::Two => "2"@,
            Rank::Three => "3"@,
            Rank::Four => "4"@,
            Rank::Five => "5"@,
            Rank::Six => "6"@,
            Rank::Seven => "7"@,
            Rank::Eight => "8"@,
            Rank::Nine => "9"@,
            Rank::Ten => "10"@,
            Rank::Jack => "J"@,
            Rank::Queen => "Q"@,
            Rank::King => "K"@,
            Rank::Ace => "A"@,
        }
    }

    /// The label a rank is printed with.
    pub fn symbol(&self) -> (text: &'static str)
        ensures
            text@ == self.label(),
    {
        match self {
            Rank::Two => "2",
            Rank::Three => "3",
            Rank::Four => "4",
            Rank::Five => "5",
            Rank::Six => "6",
            Rank::Seven => "7",
            Rank::Eight => "8",
            Rank::Nine => "9",
            Rank::Ten => "10",
            Rank::Jack => "J",
            Rank::Queen => "Q",
            Rank::King => "K",
            Rank::Ace => "A",
        }
    }
}

impl Card {
    /// The card at position `i` of a fresh pack: suits in turn, each with its
    /// thirteen ranks in ascending order.
    pub open spec fn nth(i: int) -> Card {
        Card { suit: Suit::of(i / 13), rank: Rank::of(i % 13) }
    }

    /// A fresh pack as a sequence: all 52 combinations of suit and rank.
    pub open spec fn full_pack() -> Seq<Card> {
        Seq::new(PACK_SIZE as nat, |i: int| Card::nth(i))
    }

    /// Builds a fresh pack of 52 cards.
    pub fn card_pack() -> (pack: Vec<Card>)
        ensures
            pack@ == Card::full_pack(),
    {
        let mut pack: Vec<Card> = Vec::new();
        let mut s: u32 = 0;
        while s < 4
            invariant
                s <= 4,
                pack@.len() == 13 * s,
                forall|i: int| 0 <= i < pack@.len() ==> pack@[i] == Card::nth(i),
            decreases 4 - s,
        {
            let mut r: u32 = 0;
            while r < 13
                invariant
                    s < 4,
                    r <= 13,
                    pack@.len() == 13 * s + r,
                    forall|i: int| 0 <= i < pack@.len() ==> pack@[i] == Card::nth(i),
                decreases 13 - r,
            {
                pack.push(Card { rank: Rank::from_int(r), suit: Suit::from_int(s) });
                r += 1;
            }
            s += 1;
        }
        pack
    }
}

} // verus!
