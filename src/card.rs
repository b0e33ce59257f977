use vstd::prelude::*;
use vstd::string::StringExecFns;

verus! {

/// The four suits, plus `Blank` for the rank-0 placeholder card that a
/// renderer draws in an empty slot. Board cards never carry `Blank`.
#[derive(Copy, Clone, Debug, PartialEq, Eq, Structural)]
pub enum Suit {
    Spades,
    Hearts,
    Diamonds,
    Clubs,
    Blank,
}

/// A playing card: rank 1 (Ace) to 13 (King) and a suit.
#[derive(Copy, Clone, Debug, PartialEq, Eq, Structural)]
pub struct Card {
    pub rank: u8,
    pub suit: Suit,
}

/// Hearts and Diamonds are red; every other suit counts as black.
pub open spec fn red_suit(s: Suit) -> bool {
    s is Hearts || s is Diamonds
}

/// The foundation pile that collects a suit: Spades 0, Hearts 1,
/// Diamonds 2, Clubs 3 (the placeholder suit maps to 0).
pub open spec fn suit_slot(s: Suit) -> int {
    match s {
        Suit::Spades => 0,
        Suit::Hearts => 1,
        Suit::Diamonds => 2,
        Suit::Clubs => 3,
        Suit::Blank => 0,
    }
}

/// The three-character, right-aligned rank label of a rendered card:
/// A, 2-10, J, Q, K, and blanks for the rank-0 placeholder.
pub open spec fn rank_label(rank: u8) -> Seq<char> {
    if rank == 0 {
        "   "@
    } else if rank == 1 {
        "  A"@
    } else if rank == 2 {
        "  2"@
    } else if rank == 3 {
        "  3"@
    } else if rank == 4 {
        "  4"@
    } else if rank == 5 {
        "  5"@
    } else if rank == 6 {
        "  6"@
    } else if rank == 7 {
        "  7"@
    } else if rank == 8 {
        "  8"@
    } else if rank == 9 {
        "  9"@
    } else if rank == 10 {
        " 10"@
    } else if rank == 11 {
        "  J"@
    } else if rank == 12 {
        "  Q"@
    } else {
        "  K"@
    }
}

/// The symbol drawn for a suit; the placeholder suit draws a blank.
pub open spec fn suit_symbol(s: Suit) -> Seq<char> {
    match s {
        Suit::Spades => "\u{2660}"@,
        Suit::Hearts => "\u{2665}"@,
        Suit::Diamonds => "\u{2666}"@,
        Suit::Clubs => "\u{2663}"@,
        Suit::Blank => " "@,
    }
}

fn rank_text(rank: u8) -> (r: &'static str)
    requires
        rank <= 13,
    ensures
        r@ == rank_label(rank),
{
    match rank {
        0 => "   ",
        1 => "  A",
        2 => "  2",
        3 => "  3",
        4 => "  4",
        5 => "  5",
        6 => "  6",
        7 => "  7",
        8 => "  8",
        9 => "  9",
        10 => " 10",
        11 => "  J",
        12 => "  Q",
        _ => "  K",
    }
}

fn suit_text(s: Suit) -> (r: &'static str)
    ensures
        r@ == suit_symbol(s),
{
    match s {
        Suit::Spades => "\u{2660}",
        Suit::Hearts => "\u{2665}",
        Suit::Diamonds => "\u{2666}",
        Suit::Clubs => "\u{2663}",
        Suit::Blank => " ",
    }
}

impl Card {
    /// A card that can appear on the board: a real suit and a rank in 1..=13.
    pub open spec fn is_real(self) -> bool {
        &&& 1 <= self.rank <= 13
        &&& !(self.suit is Blank)
    }

    /// The stacking rule: colours alternate and the rank is one lower.
    pub open spec fn stacks_onto(self, other: Card) -> bool {
        &&& red_suit(self.suit) != red_suit(other.suit)
        &&& self.rank + 1 == other.rank
    }

    pub fn new(rank: u8, suit: Suit) -> (c: Card)
        ensures
            c == (Card { rank, suit }),
    {
        Card { rank, suit }
    }

    /// The colour classification a renderer needs.
    pub fn is_red(&self) -> (r: bool)
        ensures
            r == red_suit(self.suit),
    {
        match self.suit {
            Suit::Hearts | Suit::Diamonds => true,
            _ => false,
        }
    }

    /// Whether this card may be placed on `other` in a column. A rank-0
    /// placeholder below never accepts a card.
    pub fn can_stack_onto(&self, other: &Card) -> (r: bool)
        ensures
            r == self.stacks_onto(*other),
    {
        if self.is_red() == other.is_red() {
            return false;
        }
        other.rank >= 1 && self.rank == other.rank - 1
    }

    /// The card as a renderer prints it: the rank label, then the suit symbol.
    pub fn display_string(&self) -> (r: String)
        requires
            self.rank <= 13,
        ensures
            r@ == rank_label(self.rank) + suit_symbol(self.suit),
    {
        let label = String::from_str(rank_text(self.rank));
        label.concat(suit_text(self.suit))
    }
}

} // verus!
