use vstd::multiset::Multiset;
use vstd::prelude::*;

use crate::card::{suit_slot, Card, Suit};
use crate::deck::{lemma_ordered_deck_full, ordered_deck};
use crate::moves::{LocationType, Move};

verus! {

/// The board as a mathematical value: four freecells, the top card of each
/// of the four foundation piles, and eight columns whose last card is the
/// one that moves.
pub struct Board {
    pub freecells: Seq<Option<Card>>,
    pub foundations: Seq<Option<Card>>,
    pub columns: Seq<Seq<Card>>,
}

/// What a foundation pile shows once its top card is lifted off.
pub open spec fn card_below(c: Card) -> Option<Card> {
    if c.rank > 1 {
        Some(Card { rank: (c.rank - 1) as u8, suit: c.suit })
    } else {
        None
    }
}

/// Whether a foundation pile showing `top` takes `card` next: an Ace on an
/// empty pile, otherwise the rank one above the top.
pub open spec fn foundation_accepts(top: Option<Card>, card: Card) -> bool {
    match top {
        Some(t) => card.rank == t.rank + 1,
        None => card.rank == 1,
    }
}

/// The sum of a sequence of multisets.
pub open spec fn total(parts: Seq<Multiset<Card>>) -> Multiset<Card>
    decreases parts.len(),
{
    if parts.len() == 0 {
        Multiset::empty()
    } else {
        total(parts.drop_last()).add(parts.last())
    }
}

/// A sum of empty multisets is empty.
pub(crate) proof fn lemma_total_empty(parts: Seq<Multiset<Card>>)
    requires
        forall|i: int| 0 <= i < parts.len() ==> #[trigger] parts[i] == Multiset::<Card>::empty(),
    ensures
        total(parts) == Multiset::<Card>::empty(),
    decreases parts.len(),
{
    broadcast use vstd::multiset::group_multiset_axioms;

    if parts.len() > 0 {
        lemma_total_empty(parts.drop_last());
        assert(total(parts) =~= Multiset::<Card>::empty());
    }
}

/// The card a freecell holds, as a multiset.
pub open spec fn slot_cards(o: Option<Card>) -> Multiset<Card> {
    match o {
        Some(c) => Multiset::singleton(c),
        None => Multiset::empty(),
    }
}

/// The cards of a foundation pile showing `top`: every rank from the Ace up
/// to the top, in the top card's suit.
pub open spec fn pile(top: Option<Card>) -> Seq<Card> {
    match top {
        Some(c) => Seq::new(c.rank as nat, |k: int| Card { rank: (k + 1) as u8, suit: c.suit }),
        None => Seq::empty(),
    }
}

pub(crate) proof fn lemma_total_update(parts: Seq<Multiset<Card>>, i: int, x: Multiset<Card>)
    requires
        0 <= i < parts.len(),
    ensures
        total(parts.update(i, x)).add(parts[i]) == total(parts).add(x),
    decreases parts.len(),
{
    broadcast use vstd::multiset::group_multiset_axioms;

    let n = parts.len() - 1;
    let q = parts.update(i, x);
    assert(total(q) == total(q.drop_last()).add(q.last()));
    assert(total(parts) == total(parts.drop_last()).add(parts.last()));
    if i == n {
        assert(q.drop_last() =~= parts.drop_last());
        assert(q.last() == x);
    } else {
        lemma_total_update(parts.drop_last(), i, x);
        assert(q.drop_last() =~= parts.drop_last().update(i, x));
        assert(q.last() == parts.last());
        assert(total(q.drop_last()).add(parts[i]) == total(parts.drop_last()).add(x));
    }
    assert forall|v: Card| #[trigger] total(q).add(parts[i]).count(v) == total(parts).add(x).count(
        v,
    ) by {
        if i != n {
            assert(total(q.drop_last()).add(parts[i]).count(v) == total(parts.drop_last()).add(
                x,
            ).count(v));
        }
    }
    assert(total(q).add(parts[i]) =~= total(parts).add(x));
}

/// The move that undoes `m`: the same card travels back.
pub open spec fn reversed(m: Move) -> Move {
    Move { from: m.to, from_idx: m.to_idx, to: m.from, to_idx: m.from_idx }
}

impl Board {
    /// Four freecells, four foundations, eight columns.
    pub open spec fn shaped(self) -> bool {
        &&& self.freecells.len() == 4
        &&& self.foundations.len() == 4
        &&& self.columns.len() == 8
    }

    /// Each foundation shows a real card of the suit it collects, or nothing.
    pub open spec fn foundations_ordered(self) -> bool {
        forall|i: int|
            0 <= i < 4 && #[trigger] self.foundations[i] is Some ==> {
                &&& self.foundations[i]->0.is_real()
                &&& suit_slot(self.foundations[i]->0.suit) == i
            }
    }

    /// Every card on the board, the foundation piles counted in full.
    pub open spec fn cards(self) -> Multiset<Card> {
        total(self.columns.map_values(|s: Seq<Card>| s.to_multiset())).add(
            total(self.freecells.map_values(|o: Option<Card>| slot_cards(o))),
        ).add(total(self.foundations.map_values(|o: Option<Card>| pile(o).to_multiset())))
    }

    /// The invariant of a game: the zones have their sizes, each foundation
    /// shows a card of its own suit, and the board holds each of the 52
    /// cards exactly once.
    pub open spec fn consistent(self) -> bool {
        &&& self.shaped()
        &&& self.foundations_ordered()
        &&& self.cards() == ordered_deck().to_multiset()
    }

    /// The last card of column `i`, if it has one.
    pub open spec fn column_top(self, i: int) -> Option<Card> {
        if self.columns[i].len() > 0 {
            Some(self.columns[i].last())
        } else {
            None
        }
    }

    /// Lifts the movable card off a zone: the last card of a column, the
    /// card in a freecell, or the top of a foundation pile (which then shows
    /// the card below). `None` where the index is out of range or the zone
    /// is empty.
    pub open spec fn take(self, kind: LocationType, idx: int) -> Option<(Card, Board)> {
        match kind {
            LocationType::Column => if 0 <= idx < 8 && self.columns[idx].len() > 0 {
                Some(
                    (
                        self.columns[idx].last(),
                        Board {
                            columns: self.columns.update(idx, self.columns[idx].drop_last()),
                            ..self
                        },
                    ),
                )
            } else {
                None
            },
            LocationType::Freecell => if 0 <= idx < 4 && self.freecells[idx] is Some {
                Some((self.freecells[idx]->0, Board { freecells: self.freecells.update(idx, None), ..self }))
            } else {
                None
            },
            LocationType::Foundation => if 0 <= idx < 4 && self.foundations[idx] is Some {
                let c = self.foundations[idx]->0;
                Some((c, Board { foundations: self.foundations.update(idx, card_below(c)), ..self }))
            } else {
                None
            },
        }
    }

    /// Sets a card down on a zone with only the structural checks: onto any
    /// column, into an empty freecell, or onto the foundation of its suit
    /// when it comes next in rank (the index is not used there). `None`
    /// where the card cannot go.
    pub open spec fn put(self, card: Card, kind: LocationType, idx: int) -> Option<Board> {
        match kind {
            LocationType::Column => if 0 <= idx < 8 {
                Some(Board { columns: self.columns.update(idx, self.columns[idx].push(card)), ..self })
            } else {
                None
            },
            LocationType::Freecell => if 0 <= idx < 4 && self.freecells[idx] is None {
                Some(Board { freecells: self.freecells.update(idx, Some(card)), ..self })
            } else {
                None
            },
            LocationType::Foundation => {
                let s = suit_slot(card.suit);
                if foundation_accepts(self.foundations[s], card) {
                    Some(Board { foundations: self.foundations.update(s, Some(card)), ..self })
                } else {
                    None
                }
            },
        }
    }

    /// Carries one card from where `m` starts to where it ends, with the
    /// structural checks only; `None` where either step fails.
    pub open spec fn transfer(self, m: Move) -> Option<Board> {
        match self.take(m.from, m.from_idx as int) {
            Some((c, rest)) => rest.put(c, m.to, m.to_idx as int),
            None => None,
        }
    }

    /// What is left of the board once `take` has lifted its card.
    pub open spec fn after_take(self, kind: LocationType, idx: int) -> Board {
        match self.take(kind, idx) {
            Some((_, rest)) => rest,
            None => self,
        }
    }

    /// The card that `m` would move, if its source holds one.
    pub open spec fn moving_card(self, m: Move) -> Option<Card> {
        match self.take(m.from, m.from_idx as int) {
            Some((c, _)) => Some(c),
            None => None,
        }
    }

    /// Whether a card may end on the top of column `i`: any card on an empty
    /// column, otherwise one that stacks onto the last card.
    pub open spec fn column_accepts(self, i: int, card: Card) -> bool {
        match self.column_top(i) {
            Some(t) => card.stacks_onto(t),
            None => true,
        }
    }

    /// The rules of play for a requested move.
    pub open spec fn allows(self, m: Move) -> bool {
        let f = m.from_idx as int;
        let t = m.to_idx as int;
        match (m.from, m.to) {
            (LocationType::Column, LocationType::Column) => {
                &&& f < 8
                &&& t < 8
                &&& self.columns[f].len() > 0
                &&& self.column_accepts(t, self.columns[f].last())
            },
            (LocationType::Column, LocationType::Freecell) => {
                &&& t < 4
                &&& self.freecells[t] is None
                &&& f < 8
                &&& self.columns[f].len() > 0
            },
            (LocationType::Freecell, LocationType::Column) => {
                &&& f < 4
                &&& t < 8
                &&& self.freecells[f] is Some
                &&& self.column_accepts(t, self.freecells[f]->0)
            },
            (LocationType::Column, LocationType::Foundation) | (
                LocationType::Freecell,
                LocationType::Foundation,
            ) => match self.moving_card(m) {
                Some(c) => {
                    &&& !(c.suit is Blank)
                    &&& foundation_accepts(self.foundations[suit_slot(c.suit)], c)
                },
                None => false,
            },
            _ => false,
        }
    }

    /// The reason given for refusing `m`, checked in this order: indices,
    /// then the source, then the destination.
    pub open spec fn rejection(self, m: Move) -> Seq<char> {
        let f = m.from_idx as int;
        let t = m.to_idx as int;
        match (m.from, m.to) {
            (LocationType::Column, LocationType::Column) => if f >= 8 {
                "Invalid source column."@
            } else if t >= 8 {
                "Invalid destination column."@
            } else if self.columns[f].len() == 0 {
                "Source column is empty."@
            } else {
                "Illegal move, cannot stack."@
            },
            (LocationType::Column, LocationType::Freecell) => if t >= 4 {
                "Invalid freecell index."@
            } else if self.freecells[t] is Some {
                "Freecell is occupied!"@
            } else if f >= 8 {
                "Invalid source column."@
            } else {
                "Column is empty."@
            },
            (LocationType::Freecell, LocationType::Column) => if f >= 4 {
                "Invalid freecell"@
            } else if t >= 8 {
                "Invalid destination column."@
            } else if self.freecells[f] is None {
                "Freecell is empty."@
            } else {
                "Illegal move, cannot stack."@
            },
            (LocationType::Column, LocationType::Foundation) => if f >= 8 {
                "Invalid source column."@
            } else if self.columns[f].len() == 0 {
                "Source column is empty."@
            } else if self.columns[f].last().suit is Blank {
                "Invalid source location for a move to foundation"@
            } else {
                "Invalid foundation move!"@
            },
            (LocationType::Freecell, LocationType::Foundation) => if f >= 4 {
                "Invalid freecell index."@
            } else if self.freecells[f] is None {
                "Freecell is empty."@
            } else if self.freecells[f]->0.suit is Blank {
                "Invalid source location for a move to foundation"@
            } else {
                "Invalid foundation move!"@
            },
            _ => "Unsupported move type"@,
        }
    }

    /// The move as history records it: a move onto the foundations names
    /// the pile of the card's suit.
    pub open spec fn recorded(self, m: Move) -> Move {
        match (m.to, self.moving_card(m)) {
            (LocationType::Foundation, Some(c)) => Move { to_idx: suit_slot(c.suit) as usize, ..m },
            _ => m,
        }
    }

    /// No card is left in a column or a freecell.
    pub open spec fn cleared(self) -> bool {
        &&& forall|i: int| 0 <= i < 8 ==> (#[trigger] self.columns[i]).len() == 0
        &&& forall|i: int| 0 <= i < 4 ==> (#[trigger] self.freecells[i]) is None
    }
}

/// A suit other than the placeholder is fixed by the pile that collects it.
proof fn lemma_slot_fixes_suit(a: Suit, b: Suit)
    requires
        !(a is Blank),
        !(b is Blank),
        suit_slot(a) == suit_slot(b),
    ensures
        a == b,
{
}

/// A pile showing a real card is the pile below it with that card on top.
proof fn lemma_pile_top(c: Card)
    requires
        c.rank >= 1,
    ensures
        pile(Some(c)) =~= pile(card_below(c)).push(c),
{
}

/// Lifting a card off a board removes exactly that card, and keeps the
/// zones' sizes and the foundations' suits.
proof fn lemma_take_cards(b: Board, kind: LocationType, idx: int)
    requires
        b.shaped(),
        b.foundations_ordered(),
        b.take(kind, idx) is Some,
    ensures
        b.take(kind, idx) matches Some((c, rest)) && rest.shaped() && rest.foundations_ordered()
            && b.cards() == rest.cards().insert(c),
{
    broadcast use vstd::multiset::group_multiset_axioms;
    broadcast use vstd::seq_lib::group_to_multiset_ensures;

    let (c, rest) = b.take(kind, idx)->0;
    let cols = b.columns.map_values(|s: Seq<Card>| s.to_multiset());
    let cells = b.freecells.map_values(|o: Option<Card>| slot_cards(o));
    let piles = b.foundations.map_values(|o: Option<Card>| pile(o).to_multiset());
    let cols2 = rest.columns.map_values(|s: Seq<Card>| s.to_multiset());
    let cells2 = rest.freecells.map_values(|o: Option<Card>| slot_cards(o));
    let piles2 = rest.foundations.map_values(|o: Option<Card>| pile(o).to_multiset());
    match kind {
        LocationType::Column => {
            let s = b.columns[idx];
            assert(s.drop_last().push(s.last()) =~= s);
            assert(s.to_multiset() == s.drop_last().to_multiset().insert(c));
            assert(cols2 =~= cols.update(idx, s.drop_last().to_multiset()));
            lemma_total_update(cols, idx, s.drop_last().to_multiset());
            assert(cells2 =~= cells);
            assert(piles2 =~= piles);
            assert forall|v: Card| #[trigger] total(cols).count(v) == total(cols2).insert(c).count(v) by {
                assert(total(cols2).add(cols[idx]).count(v) == total(cols).add(
                    s.drop_last().to_multiset(),
                ).count(v));
            }
            assert(total(cols) =~= total(cols2).insert(c));
        },
        LocationType::Freecell => {
            assert(cells2 =~= cells.update(idx, Multiset::empty()));
            lemma_total_update(cells, idx, Multiset::empty());
            assert(cols2 =~= cols);
            assert(piles2 =~= piles);
            assert(total(cells) =~= total(cells2).insert(c));
        },
        LocationType::Foundation => {
            lemma_pile_top(c);
            let below = pile(card_below(c));
            assert(pile(Some(c)).to_multiset() == below.to_multiset().insert(c));
            assert(piles2 =~= piles.update(idx, below.to_multiset()));
            lemma_total_update(piles, idx, below.to_multiset());
            assert(cols2 =~= cols);
            assert(cells2 =~= cells);
            assert forall|v: Card| #[trigger] total(piles).count(v) == total(piles2).insert(c).count(v) by {
                assert(total(piles2).add(piles[idx]).count(v) == total(piles).add(
                    below.to_multiset(),
                ).count(v));
            }
            assert(total(piles) =~= total(piles2).insert(c));
            assert forall|i: int| 0 <= i < 4 && #[trigger] rest.foundations[i] is Some implies {
                &&& rest.foundations[i]->0.is_real()
                &&& suit_slot(rest.foundations[i]->0.suit) == i
            } by {
                if i != idx {
                    assert(b.foundations[i] is Some);
                }
            }
        },
    }
    assert(b.cards() =~= rest.cards().insert(c));
}

/// Setting a real card down on a board adds exactly that card, and keeps
/// the zones' sizes and the foundations' suits.
proof fn lemma_put_cards(b: Board, c: Card, kind: LocationType, idx: int)
    requires
        b.shaped(),
        b.foundations_ordered(),
        c.is_real(),
        b.put(c, kind, idx) is Some,
    ensures
        b.put(c, kind, idx) matches Some(nb) && nb.shaped() && nb.foundations_ordered()
            && nb.cards() == b.cards().insert(c),
{
    broadcast use vstd::multiset::group_multiset_axioms;
    broadcast use vstd::seq_lib::group_to_multiset_ensures;

    let nb = b.put(c, kind, idx)->0;
    let cols = b.columns.map_values(|s: Seq<Card>| s.to_multiset());
    let cells = b.freecells.map_values(|o: Option<Card>| slot_cards(o));
    let piles = b.foundations.map_values(|o: Option<Card>| pile(o).to_multiset());
    let cols2 = nb.columns.map_values(|s: Seq<Card>| s.to_multiset());
    let cells2 = nb.freecells.map_values(|o: Option<Card>| slot_cards(o));
    let piles2 = nb.foundations.map_values(|o: Option<Card>| pile(o).to_multiset());
    match kind {
        LocationType::Column => {
            let s = b.columns[idx];
            assert(s.push(c).to_multiset() == s.to_multiset().insert(c));
            assert(cols2 =~= cols.update(idx, s.push(c).to_multiset()));
            lemma_total_update(cols, idx, s.push(c).to_multiset());
            assert(cells2 =~= cells);
            assert(piles2 =~= piles);
            assert forall|v: Card| #[trigger] total(cols2).count(v) == total(cols).insert(c).count(v) by {
                assert(total(cols2).add(cols[idx]).count(v) == total(cols).add(
                    s.push(c).to_multiset(),
                ).count(v));
            }
            assert(total(cols2) =~= total(cols).insert(c));
        },
        LocationType::Freecell => {
            assert(cells2 =~= cells.update(idx, Multiset::singleton(c)));
            lemma_total_update(cells, idx, Multiset::singleton(c));
            assert(cols2 =~= cols);
            assert(piles2 =~= piles);
            assert(total(cells2) =~= total(cells).insert(c));
        },
        LocationType::Foundation => {
            let s = suit_slot(c.suit);
            let top = b.foundations[s];
            if let Some(t) = top {
                lemma_slot_fixes_suit(t.suit, c.suit);
                assert(card_below(c) == top);
            }
            lemma_pile_top(c);
            assert(pile(Some(c)).to_multiset() == pile(top).to_multiset().insert(c));
            assert(piles2 =~= piles.update(s, pile(Some(c)).to_multiset()));
            lemma_total_update(piles, s, pile(Some(c)).to_multiset());
            assert(cols2 =~= cols);
            assert(cells2 =~= cells);
            assert forall|v: Card| #[trigger] total(piles2).count(v) == total(piles).insert(c).count(v) by {
                assert(total(piles2).add(piles[s]).count(v) == total(piles).add(
                    pile(Some(c)).to_multiset(),
                ).count(v));
            }
            assert(total(piles2) =~= total(piles).insert(c));
        },
    }
    assert(nb.cards() =~= b.cards().insert(c));
}

/// Every move that can be carried out, legal or forced, keeps a consistent
/// board consistent: no card appears, none is lost, and each foundation
/// keeps to its suit.
pub proof fn lemma_transfer_consistent(b: Board, m: Move)
    requires
        b.consistent(),
        b.transfer(m) is Some,
    ensures
        b.transfer(m)->0.consistent(),
{
    broadcast use vstd::multiset::group_multiset_axioms;
    broadcast use vstd::seq_lib::group_to_multiset_ensures;

    lemma_take_cards(b, m.from, m.from_idx as int);
    let (c, rest) = b.take(m.from, m.from_idx as int)->0;
    lemma_ordered_deck_full();
    assert(ordered_deck().to_multiset().count(c) > 0);
    assert(ordered_deck().contains(c));
    let k = choose|k: int| 0 <= k < ordered_deck().len() && ordered_deck()[k] == c;
    assert(c.is_real());
    lemma_put_cards(rest, c, m.to, m.to_idx as int);
}

proof fn lemma_total_member(parts: Seq<Multiset<Card>>, v: Card)
    requires
        total(parts).count(v) > 0,
    ensures
        exists|j: int| 0 <= j < parts.len() && #[trigger] parts[j].count(v) > 0,
    decreases parts.len(),
{
    broadcast use vstd::multiset::group_multiset_axioms;

    if parts.len() > 0 {
        if parts.last().count(v) > 0 {
            assert(parts[parts.len() - 1].count(v) > 0);
        } else {
            lemma_total_member(parts.drop_last(), v);
            let j = choose|j: int| 0 <= j < parts.drop_last().len() && #[trigger] parts.drop_last()[j].count(v) > 0;
            assert(parts[j].count(v) > 0);
        }
    }
}

/// On a consistent board with no card left in a column or a freecell,
/// every foundation shows the King of its suit: the game is complete, so
/// win detection need not look at the foundations.
pub proof fn lemma_cleared_board_is_complete(b: Board)
    requires
        b.consistent(),
        b.cleared(),
    ensures
        forall|i: int|
            0 <= i < 4 ==> (#[trigger] b.foundations[i] matches Some(c) && c.rank == 13 && suit_slot(
                c.suit,
            ) == i),
{
    broadcast use vstd::multiset::group_multiset_axioms;
    broadcast use vstd::seq_lib::group_to_multiset_ensures;

    let cols = b.columns.map_values(|s: Seq<Card>| s.to_multiset());
    let cells = b.freecells.map_values(|o: Option<Card>| slot_cards(o));
    let piles = b.foundations.map_values(|o: Option<Card>| pile(o).to_multiset());
    assert forall|j: int| 0 <= j < cols.len() implies #[trigger] cols[j] == Multiset::<Card>::empty() by {
        assert(b.columns[j].len() == 0);
        assert(cols[j].len() == 0);
    }
    assert forall|j: int| 0 <= j < cells.len() implies #[trigger] cells[j] == Multiset::<Card>::empty() by {
        assert(b.freecells[j] is None);
    }
    lemma_total_empty(cols);
    lemma_total_empty(cells);
    assert(b.cards() =~= total(piles));
    lemma_ordered_deck_full();
    assert forall|i: int| 0 <= i < 4 implies (#[trigger] b.foundations[i] matches Some(c) && c.rank == 13
        && suit_slot(c.suit) == i) by {
        let s = if i == 0 {
            Suit::Spades
        } else if i == 1 {
            Suit::Hearts
        } else if i == 2 {
            Suit::Diamonds
        } else {
            Suit::Clubs
        };
        let king = Card { rank: 13, suit: s };
        assert(king.is_real());
        assert(ordered_deck().contains(king));
        assert(total(piles).count(king) > 0);
        lemma_total_member(piles, king);
        let j = choose|j: int| 0 <= j < piles.len() && #[trigger] piles[j].count(king) > 0;
        assert(pile(b.foundations[j]).contains(king));
        let t = b.foundations[j]->0;
        let k = choose|k: int| 0 <= k < pile(b.foundations[j]).len() && pile(b.foundations[j])[k] == king;
        assert(t.suit == s);
        assert(j == i);
    }
}

/// A legal move can always be carried out, and undoing it restores the
/// board: carrying the card back along the reversed recorded move gives the
/// board the move started from.
pub proof fn lemma_undo_restores(b: Board, m: Move)
    requires
        b.shaped(),
        b.foundations_ordered(),
        b.allows(m),
    ensures
        b.transfer(m) is Some,
        b.transfer(m)->0.transfer(reversed(b.recorded(m))) == Some(b),
{
    let f = m.from_idx as int;
    let t = m.to_idx as int;
    let after = b.transfer(m)->0;
    let back = reversed(b.recorded(m));
    match (m.from, m.to) {
        (LocationType::Column, LocationType::Column) => {
            assert(f != t);
            assert(after.columns[t].drop_last() =~= b.columns[t]);
            assert(after.columns[f].push(b.columns[f].last()) =~= b.columns[f]);
            assert(after.transfer(back)->0.columns =~= b.columns);
        },
        (LocationType::Column, LocationType::Freecell) => {
            assert(b.columns[f].drop_last().push(b.columns[f].last()) =~= b.columns[f]);
            assert(after.transfer(back)->0.columns =~= b.columns);
            assert(after.transfer(back)->0.freecells =~= b.freecells);
        },
        (LocationType::Freecell, LocationType::Column) => {
            assert(after.columns[t].drop_last() =~= b.columns[t]);
            assert(after.transfer(back)->0.columns =~= b.columns);
            assert(after.transfer(back)->0.freecells =~= b.freecells);
        },
        (LocationType::Column, LocationType::Foundation) | (
            LocationType::Freecell,
            LocationType::Foundation,
        ) => {
            let c = b.moving_card(m)->0;
            let s = suit_slot(c.suit);
            if let Some(top) = b.foundations[s] {
                lemma_slot_fixes_suit(top.suit, c.suit);
                assert(card_below(c) == b.foundations[s]);
            }
            if m.from is Column {
                assert(b.columns[f].drop_last().push(b.columns[f].last()) =~= b.columns[f]);
            }
            assert(after.transfer(back)->0.columns =~= b.columns);
            assert(after.transfer(back)->0.freecells =~= b.freecells);
            assert(after.transfer(back)->0.foundations =~= b.foundations);
        },
        _ => {},
    }
}

} // verus!
