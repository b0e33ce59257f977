use vstd::prelude::*;
use vstd::string::StringExecFns;

use crate::cli::LocationArg;

verus! {

/// The three kinds of zone a card can be in.
#[derive(Debug, Clone, Copy, PartialEq, Eq, Structural)]
pub enum LocationType {
    Column,
    Freecell,
    Foundation,
}

/// A requested transfer of one card between two zones.
#[derive(Debug, Clone, Copy, PartialEq, Eq, Structural)]
pub struct Move {
    pub from: LocationType,
    pub from_idx: usize,
    pub to: LocationType,
    pub to_idx: usize,
}

/// The zone and index that a location token names; the foundation token
/// carries index 0, which the engine replaces by the suit's pile.
pub open spec fn location_of(arg: LocationArg) -> (LocationType, usize) {
    match arg {
        LocationArg::C0 => (LocationType::Column, 0),
        LocationArg::C1 => (LocationType::Column, 1),
        LocationArg::C2 => (LocationType::Column, 2),
        LocationArg::C3 => (LocationType::Column, 3),
        LocationArg::C4 => (LocationType::Column, 4),
        LocationArg::C5 => (LocationType::Column, 5),
        LocationArg::C6 => (LocationType::Column, 6),
        LocationArg::C7 => (LocationType::Column, 7),
        LocationArg::F0 => (LocationType::Freecell, 0),
        LocationArg::F1 => (LocationType::Freecell, 1),
        LocationArg::F2 => (LocationType::Freecell, 2),
        LocationArg::F3 => (LocationType::Freecell, 3),
        LocationArg::Foundation => (LocationType::Foundation, 0),
    }
}

/// The move that two tokens describe, from the first to the second.
pub open spec fn move_between(from: LocationArg, to: LocationArg) -> Move {
    Move {
        from: location_of(from).0,
        from_idx: location_of(from).1,
        to: location_of(to).0,
        to_idx: location_of(to).1,
    }
}

pub fn convert_location_arg(arg: &LocationArg) -> (r: (LocationType, usize))
    ensures
        r == location_of(*arg),
{
    match arg {
        LocationArg::C0 => (LocationType::Column, 0),
        LocationArg::C1 => (LocationType::Column, 1),
        LocationArg::C2 => (LocationType::Column, 2),
        LocationArg::C3 => (LocationType::Column, 3),
        LocationArg::C4 => (LocationType::Column, 4),
        LocationArg::C5 => (LocationType::Column, 5),
        LocationArg::C6 => (LocationType::Column, 6),
        LocationArg::C7 => (LocationType::Column, 7),
        LocationArg::F0 => (LocationType::Freecell, 0),
        LocationArg::F1 => (LocationType::Freecell, 1),
        LocationArg::F2 => (LocationType::Freecell, 2),
        LocationArg::F3 => (LocationType::Freecell, 3),
        LocationArg::Foundation => (LocationType::Foundation, 0),
    }
}

/// The text of one decimal digit.
pub open spec fn digit_text(d: int) -> Seq<char> {
    if d == 0 {
        "0"@
    } else if d == 1 {
        "1"@
    } else if d == 2 {
        "2"@
    } else if d == 3 {
        "3"@
    } else if d == 4 {
        "4"@
    } else if d == 5 {
        "5"@
    } else if d == 6 {
        "6"@
    } else if d == 7 {
        "7"@
    } else if d == 8 {
        "8"@
    } else {
        "9"@
    }
}

/// A number written in decimal, without leading zeros.
pub open spec fn decimal(n: nat) -> Seq<char>
    decreases n,
{
    if n < 10 {
        digit_text(n as int)
    } else {
        decimal(n / 10) + digit_text((n % 10) as int)
    }
}

/// How a zone is named when a move is printed.
pub open spec fn zone_label(l: LocationType) -> Seq<char> {
    match l {
        LocationType::Column => "C"@,
        LocationType::Freecell => "Freecell "@,
        LocationType::Foundation => "Foundation "@,
    }
}

/// One end of a printed move: the zone and its index, or the foundations
/// alone, whose index is implied by the card.
pub open spec fn end_text(l: LocationType, idx: usize) -> Seq<char> {
    match l {
        LocationType::Foundation => zone_label(l),
        _ => zone_label(l) + decimal(idx as nat),
    }
}

/// A move as the history prints it, such as `C0 -> Freecell 1`.
pub open spec fn move_text(m: Move) -> Seq<char> {
    end_text(m.from, m.from_idx) + " -> "@ + end_text(m.to, m.to_idx)
}

fn digit_str(d: usize) -> (r: &'static str)
    requires
        d < 10,
    ensures
        r@ == digit_text(d as int),
{
    match d {
        0 => "0",
        1 => "1",
        2 => "2",
        3 => "3",
        4 => "4",
        5 => "5",
        6 => "6",
        7 => "7",
        8 => "8",
        _ => "9",
    }
}

fn decimal_string(n: usize) -> (r: String)
    ensures
        r@ == decimal(n as nat),
    decreases n,
{
    if n < 10 {
        String::from_str(digit_str(n))
    } else {
        decimal_string(n / 10).concat(digit_str(n % 10))
    }
}

fn zone_str(l: LocationType) -> (r: &'static str)
    ensures
        r@ == zone_label(l),
{
    match l {
        LocationType::Column => "C",
        LocationType::Freecell => "Freecell ",
        LocationType::Foundation => "Foundation ",
    }
}

fn end_string(l: LocationType, idx: usize) -> (r: String)
    ensures
        r@ == end_text(l, idx),
{
    match l {
        LocationType::Foundation => String::from_str(zone_str(l)),
        _ => {
            let name = String::from_str(zone_str(l));
            let digits = decimal_string(idx);
            name.concat(digits.as_str())
        },
    }
}

impl Move {
    /// Builds the move named by the location tokens: none for no token, a
    /// move for two, and an error for any other count.
    pub fn from_args(locations: &[LocationArg]) -> (r: Result<Option<Move>, String>)
        ensures
            locations@.len() == 0 ==> r == Ok::<Option<Move>, String>(None),
            locations@.len() == 2 ==> r == Ok::<Option<Move>, String>(
                Some(move_between(locations@[0], locations@[1])),
            ),
            locations@.len() != 0 && locations@.len() != 2 ==> (r matches Err(e)
                && e@ == "You must specify two move locations only."@),
    {
        if locations.len() == 0 {
            Ok(None)
        } else if locations.len() == 2 {
            let (from, from_idx) = convert_location_arg(&locations[0]);
            let (to, to_idx) = convert_location_arg(&locations[1]);
            Ok(Some(Move { from, from_idx, to, to_idx }))
        } else {
            Err(String::from_str("You must specify two move locations only."))
        }
    }

    /// The move as the history prints it, such as `C0 -> Freecell 1`.
    pub fn display_string(&self) -> (r: String)
        ensures
            r@ == move_text(*self),
    {
        let source = end_string(self.from, self.from_idx);
        let target = end_string(self.to, self.to_idx);
        source.concat(" -> ").concat(target.as_str())
    }
}

} // verus!
