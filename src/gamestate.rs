use vstd::multiset::Multiset;
use vstd::prelude::*;
use vstd::string::StringExecFns;

use rand::rngs::{OsRng, StdRng};
use rand::seq::SliceRandom;
use rand::{RngCore, SeedableRng};

use crate::board::{
    card_below, foundation_accepts, lemma_total_empty, lemma_total_update, lemma_transfer_consistent,
    pile, reversed, slot_cards, total, Board,
};
use crate::card::{suit_slot, Card, Suit};
use crate::deck::{is_full_deck, lemma_ordered_deck_full, lemma_reordered_deck_full, ordered_deck};
use crate::moves::{move_text, LocationType, Move};

verus! {

/// The order that a seeded shuffle puts `deck` in. It depends on the cards
/// and the seed alone.
pub uninterp spec fn seeded_shuffle(deck: Seq<Card>, seed: u64) -> Seq<Card>;

/// Relies on rand's `StdRng::seed_from_u64` and `SliceRandom::shuffle`: the
/// generator is fixed by the seed, and the shuffle only swaps elements.
#[verifier::external_body]
fn shuffle_with_seed(deck: &mut Vec<Card>, seed: u64)
    ensures
        final(deck)@ == seeded_shuffle(old(deck)@, seed),
        final(deck)@.to_multiset() == old(deck)@.to_multiset(),
{
    let mut rng = StdRng::seed_from_u64(seed);
    deck.shuffle(&mut rng);
}

/// Relies on rand's `OsRng` through `RngCore::try_fill_bytes`: eight bytes
/// from the operating system's entropy source, read as a `u64`, or `None`
/// where that source fails. Nothing is known of the value.
#[verifier::external_body]
fn entropy_seed() -> Option<u64> {
    let mut bytes = [0u8; 8];
    match OsRng.try_fill_bytes(&mut bytes) {
        Ok(()) => Some(u64::from_le_bytes(bytes)),
        Err(_) => None,
    }
}

/// The `j`-th column of a round-robin deal of `d` into eight columns: the
/// cards at positions `j`, `j + 8`, `j + 16`, ...
pub open spec fn dealt_column(d: Seq<Card>, j: int) -> Seq<Card> {
    Seq::new(((d.len() + 7 - j) / 8) as nat, |k: int| d[8 * k + j])
}

/// The board after dealing `d` round-robin: every freecell and foundation
/// empty, card `i` at the end of column `i % 8`.
pub open spec fn dealt_board(d: Seq<Card>) -> Board {
    Board {
        freecells: seq![None, None, None, None],
        foundations: seq![None, None, None, None],
        columns: Seq::new(8, |j: int| dealt_column(d, j)),
    }
}

/// The opening board of the game dealt from `seed`.
pub open spec fn initial_board(seed: u64) -> Board {
    dealt_board(seeded_shuffle(ordered_deck(), seed))
}

proof fn lemma_deal_step(i: int, j: int)
    requires
        0 <= i,
        0 <= j < 8,
    ensures
        j == i % 8 ==> (i + 8 - j) / 8 == (i + 7 - j) / 8 + 1 && 8 * ((i + 7 - j) / 8) + j == i,
        j != i % 8 ==> (i + 8 - j) / 8 == (i + 7 - j) / 8,
{
    let q = i / 8;
    let r = i % 8;
    assert(i == 8 * q + r && 0 <= r < 8);
    if r == j {
        assert((i + 8 - j) / 8 == q + 1) by (nonlinear_arith)
            requires
                i == 8 * q + r,
                r == j,
        ;
        assert((i + 7 - j) / 8 == q) by (nonlinear_arith)
            requires
                i == 8 * q + r,
                r == j,
        ;
    } else if r > j {
        assert((i + 8 - j) / 8 == q + 1) by (nonlinear_arith)
            requires
                i == 8 * q + r,
                j < r < 8,
                0 <= j,
        ;
        assert((i + 7 - j) / 8 == q + 1) by (nonlinear_arith)
            requires
                i == 8 * q + r,
                j < r < 8,
                0 <= j,
        ;
    } else {
        assert((i + 8 - j) / 8 == q) by (nonlinear_arith)
            requires
                i == 8 * q + r,
                0 <= r < j < 8,
        ;
        assert((i + 7 - j) / 8 == q) by (nonlinear_arith)
            requires
                i == 8 * q + r,
                0 <= r < j < 8,
        ;
    }
}

/// The foundation pile that collects the card's suit.
fn get_foundation_index(card: Card) -> (r: usize)
    ensures
        r == suit_slot(card.suit),
        r < 4,
{
    match card.suit {
        Suit::Spades => 0,
        Suit::Hearts => 1,
        Suit::Diamonds => 2,
        Suit::Clubs => 3,
        Suit::Blank => 0,
    }
}

fn fits_foundation(top: Option<Card>, card: Card) -> (r: bool)
    ensures
        r == foundation_accepts(top, card),
{
    match top {
        Some(t) => t.rank < 255 && card.rank == t.rank + 1,
        None => card.rank == 1,
    }
}

fn fits_column(col: &Vec<Card>, card: Card) -> (r: bool)
    ensures
        r == (col@.len() == 0 || card.stacks_onto(col@.last())),
{
    if col.len() == 0 {
        true
    } else {
        card.can_stack_onto(&col[col.len() - 1])
    }
}

fn text(s: &str) -> (r: String)
    ensures
        r@ == s@,
{
    String::from_str(s)
}

/// The card drawn for a slot: its card, or the rank-0 blank placeholder.
pub open spec fn shown(o: Option<Card>) -> Card {
    match o {
        Some(c) => c,
        None => Card { rank: 0, suit: Suit::Blank },
    }
}

fn slots_as_vec(slots: &[Option<Card>; 4]) -> (r: Vec<Card>)
    ensures
        r@ == slots@.map_values(|o: Option<Card>| shown(o)),
{
    let mut out: Vec<Card> = Vec::with_capacity(4);
    let mut i: usize = 0;
    while i < 4
        invariant
            0 <= i <= 4,
            out@ =~= slots@.take(i as int).map_values(|o: Option<Card>| shown(o)),
        decreases 4 - i,
    {
        let card = match slots[i] {
            Some(c) => c,
            None => Card { rank: 0, suit: Suit::Blank },
        };
        out.push(card);
        i += 1;
    }
    assert(slots@.take(4) =~= slots@);
    out
}

/// Two deals from the same seed are the same board.
pub proof fn lemma_same_seed_same_deal(a: u64, b: u64)
    requires
        a == b,
    ensures
        initial_board(a) == initial_board(b),
{
}

/// The whole game: the board, the history of applied moves, the seed of
/// the deal, and the message of the last refused move (feedback only).
#[derive(Debug, Clone)]
pub struct GameState {
    pub freecells: [Option<Card>; 4],
    pub foundations: [Option<Card>; 4],
    pub columns: [Vec<Card>; 8],
    pub history: Vec<Move>,
    pub seed: u64,
    pub last_move_error: Option<String>,
}

impl GameState {
    /// The board that the fields hold.
    pub open spec fn board(&self) -> Board {
        Board {
            freecells: self.freecells@,
            foundations: self.foundations@,
            columns: Seq::new(8, |i: int| self.columns@[i]@),
        }
    }

    /// The deck for `seed`: the fresh deck in its seeded shuffle, which is
    /// again a complete deck.
    pub fn generate_shuffled_deck(seed: u64) -> (r: Vec<Card>)
        ensures
            r@ == seeded_shuffle(ordered_deck(), seed),
            r@.to_multiset() == ordered_deck().to_multiset(),
            is_full_deck(r@),
    {
        let suits: [Suit; 4] = [Suit::Spades, Suit::Hearts, Suit::Clubs, Suit::Diamonds];
        let mut deck: Vec<Card> = Vec::with_capacity(52);
        let mut s: usize = 0;
        while s < 4
            invariant
                0 <= s <= 4,
                suits@ == seq![Suit::Spades, Suit::Hearts, Suit::Clubs, Suit::Diamonds],
                deck@ =~= ordered_deck().take(13 * s as int),
            decreases 4 - s,
        {
            let mut rank: u8 = 1;
            while rank <= 13
                invariant
                    0 <= s < 4,
                    1 <= rank <= 14,
                    suits@ == seq![Suit::Spades, Suit::Hearts, Suit::Clubs, Suit::Diamonds],
                    deck@ =~= ordered_deck().take(13 * s + rank - 1),
                decreases 14 - rank,
            {
                proof {
                    crate::deck::lemma_deck_index(s as int, rank - 1);
                }
                deck.push(Card { rank, suit: suits[s] });
                rank += 1;
            }
            s += 1;
        }
        proof {
            assert(deck@ =~= ordered_deck());
            lemma_ordered_deck_full();
        }
        let ghost fresh = deck@;
        shuffle_with_seed(&mut deck, seed);
        proof {
            lemma_reordered_deck_full(fresh, deck@);
        }
        deck
    }

    /// A new game with `deck` dealt round-robin into the columns (card `i`
    /// at the end of column `i % 8`), empty freecells and foundations, no
    /// history, and `seed` recorded as the seed of the deal.
    pub fn deal(deck: &Vec<Card>, seed: u64) -> (r: GameState)
        ensures
            r.board() == dealt_board(deck@),
            r.seed == seed,
            r.history@.len() == 0,
            r.last_move_error is None,
            r.board().cards() == deck@.to_multiset(),
            deck@.to_multiset() == ordered_deck().to_multiset() ==> r.board().consistent(),
    {
        let mut columns: [Vec<Card>; 8] = [
            Vec::new(),
            Vec::new(),
            Vec::new(),
            Vec::new(),
            Vec::new(),
            Vec::new(),
            Vec::new(),
            Vec::new(),
        ];
        let mut i: usize = 0;
        proof {
            broadcast use vstd::seq_lib::group_to_multiset_ensures;
            broadcast use vstd::multiset::group_multiset_axioms;

            let parts = Seq::new(8, |j: int| columns@[j]@.to_multiset());
            assert forall|j: int| 0 <= j < 8 implies #[trigger] parts[j] == Multiset::<Card>::empty() by {
                assert(columns@[j]@.to_multiset().len() == 0);
            }
            lemma_total_empty(parts);
            assert(deck@.take(0).to_multiset().len() == 0);
        }
        while i < deck.len()
            invariant
                0 <= i <= deck@.len(),
                                forall|j: int| 0 <= j < 8 ==> (#[trigger] columns@[j])@ =~= dealt_column(deck@.take(i as int), j),
                total(Seq::new(8, |j: int| columns@[j]@.to_multiset())) == deck@.take(i as int).to_multiset(),
            decreases deck@.len() - i,
        {
            let ghost parts = Seq::new(8, |j: int| columns@[j]@.to_multiset());
            let card = deck[i];
            columns[i % 8].push(card);
            proof {
                broadcast use vstd::seq_lib::group_to_multiset_ensures;
                broadcast use vstd::multiset::group_multiset_axioms;

                let k = (i % 8) as int;
                let grown = Seq::new(8, |j: int| columns@[j]@.to_multiset());
                assert(grown =~= parts.update(k, parts[k].insert(card)));
                lemma_total_update(parts, k, parts[k].insert(card));
                assert(deck@.take(i + 1) =~= deck@.take(i as int).push(card));
                assert(deck@.take(i + 1).to_multiset() == deck@.take(i as int).to_multiset().insert(card));
                assert forall|v: Card| #[trigger] total(grown).count(v) == deck@.take(i + 1).to_multiset().count(v) by {
                    assert(total(grown).add(parts[k]).count(v) == total(parts).add(parts[k].insert(card)).count(v));
                }
                assert(total(grown) =~= deck@.take(i + 1).to_multiset());
                assert forall|j: int| 0 <= j < 8 implies (#[trigger] columns@[j])@ =~= dealt_column(
                    deck@.take(i + 1),
                    j,
                ) by {
                    lemma_deal_step(i as int, j);
                }
            }
            i += 1;
        }
        let ghost dealt = Seq::new(8, |j: int| columns@[j]@.to_multiset());
        let r = GameState {
            freecells: [None, None, None, None],
            foundations: [None, None, None, None],
            columns,
            history: Vec::new(),
            seed,
            last_move_error: None,
        };
        proof {
            assert(deck@.take(deck@.len() as int) =~= deck@);
            assert(r.board().freecells =~= dealt_board(deck@).freecells);
            assert(r.board().foundations =~= dealt_board(deck@).foundations);
            assert(r.board().columns =~= dealt_board(deck@).columns);
            let b = r.board();
            assert(b.columns.map_values(|c: Seq<Card>| c.to_multiset()) =~= dealt);
            broadcast use vstd::seq_lib::group_to_multiset_ensures;
            broadcast use vstd::multiset::group_multiset_axioms;

            lemma_total_empty(b.freecells.map_values(|o: Option<Card>| slot_cards(o)));
            let piles = b.foundations.map_values(|o: Option<Card>| pile(o).to_multiset());
            assert forall|j: int| 0 <= j < 4 implies #[trigger] piles[j] == Multiset::<Card>::empty() by {
                assert(pile(b.foundations[j]).to_multiset().len() == 0);
            }
            lemma_total_empty(piles);
            assert(b.cards() =~= deck@.to_multiset());
        }
        r
    }

    /// A new game dealt from `seed`, or from a seed drawn from the operating
    /// system when none is given; the seed is recorded either way. Fails only
    /// when no seed is given and the operating system cannot supply one.
    pub fn reset(seed: Option<u64>) -> (r: Result<GameState, String>)
        ensures
            seed is Some ==> r is Ok,
            r matches Err(e) ==> seed is None && e@ == "The operating system could not supply a seed."@,
            r matches Ok(g) ==> {
                &&& (seed matches Some(s) ==> g.seed == s)
                &&& g.board() == initial_board(g.seed)
                &&& g.board().consistent()
                &&& forall|j: int| 0 <= j < 8 ==> (#[trigger] g.board().columns[j]).len() == if j < 4 {
                    7int
                } else {
                    6int
                }
                &&& forall|i: int| 0 <= i < 4 ==> (#[trigger] g.freecells@[i]) is None && g.foundations@[i] is None
                &&& g.history@.len() == 0
                &&& g.last_move_error is None
            },
    {
        let seed = match seed {
            Some(s) => s,
            None => match entropy_seed() {
                Some(s) => s,
                None => {
                    return Err(text("The operating system could not supply a seed."));
                },
            },
        };
        let deck = Self::generate_shuffled_deck(seed);
        Ok(Self::deal(&deck, seed))
    }

    /// The history, the seed and the feedback message agree.
    pub open spec fn same_record(self, other: GameState) -> bool {
        &&& self.history == other.history
        &&& self.seed == other.seed
        &&& self.last_move_error == other.last_move_error
    }

    /// No card is left in a column or a freecell. The foundations are not
    /// looked at: with no move that discards a card, every card is then on
    /// the foundations.
    pub fn is_win(&self) -> (r: bool)
        ensures
            r == self.board().cleared(),
    {
        let mut i: usize = 0;
        while i < 8
            invariant
                0 <= i <= 8,
                forall|j: int| 0 <= j < i ==> (#[trigger] self.columns@[j])@.len() == 0,
            decreases 8 - i,
        {
            if self.columns[i].len() != 0 {
                assert(self.board().columns[i as int].len() != 0);
                return false;
            }
            i += 1;
        }
        let mut k: usize = 0;
        while k < 4
            invariant
                0 <= k <= 4,
                forall|j: int| 0 <= j < 8 ==> (#[trigger] self.columns@[j])@.len() == 0,
                forall|j: int| 0 <= j < k ==> (#[trigger] self.freecells@[j]) is None,
            decreases 4 - k,
        {
            if self.freecells[k].is_some() {
                assert(self.board().freecells[k as int] is Some);
                return false;
            }
            k += 1;
        }
        assert(forall|j: int| 0 <= j < 8 ==> (#[trigger] self.board().columns[j]).len() == 0);
        true
    }

    /// The last applied move, if any.
    pub fn get_last_move(&self) -> (r: Option<&Move>)
        ensures
            self.history@.len() == 0 ==> r is None,
            self.history@.len() > 0 ==> (r matches Some(m) && *m == self.history@.last()),
    {
        let n = self.history.len();
        if n == 0 {
            None
        } else {
            Some(&self.history[n - 1])
        }
    }

    /// Appends a move to the history as it stands.
    pub fn record_move(&mut self, mv: &Move) -> (r: Result<(), String>)
        ensures
            r is Ok,
            final(self).history@ == old(self).history@.push(*mv),
            final(self).freecells == old(self).freecells,
            final(self).foundations == old(self).foundations,
            final(self).columns == old(self).columns,
            final(self).seed == old(self).seed,
            final(self).last_move_error == old(self).last_move_error,
    {
        self.history.push(*mv);
        Ok(())
    }

    /// Removes and returns the last card of column `idx`.
    pub fn pop_card_from_column(&mut self, idx: usize) -> (r: Result<Card, String>)
        ensures
            match old(self).board().take(LocationType::Column, idx as int) {
                Some((c, b)) => {
                    &&& r == Ok::<Card, String>(c)
                    &&& final(self).board() == b
                    &&& final(self).same_record(*old(self))
                },
                None => {
                    &&& *final(self) == *old(self)
                    &&& r matches Err(e)
                    &&& e@ == if idx >= 8 {
                        "Invalid source column"@
                    } else {
                        "Source column is empty."@
                    }
                },
            },
    {
        if idx >= 8 {
            return Err(text("Invalid source column"));
        }
        if self.columns[idx].len() == 0 {
            return Err(text("Source column is empty."));
        }
        let ghost prev = self.board();
        let card = match self.columns[idx].pop() {
            Some(c) => c,
            None => {
                return Err(text("Source column is empty."));
            },
        };
        proof {
            assert(self.board().columns =~= prev.after_take(LocationType::Column, idx as int).columns);
        }
        Ok(card)
    }

    /// Removes and returns the card in freecell `idx`.
    pub fn take_card_from_freecell(&mut self, idx: usize) -> (r: Result<Card, String>)
        ensures
            match old(self).board().take(LocationType::Freecell, idx as int) {
                Some((c, b)) => {
                    &&& r == Ok::<Card, String>(c)
                    &&& final(self).board() == b
                    &&& final(self).same_record(*old(self))
                },
                None => {
                    &&& *final(self) == *old(self)
                    &&& r matches Err(e)
                    &&& e@ == if idx >= 4 {
                        "Invalid freecell index."@
                    } else {
                        "Freecell is empty."@
                    }
                },
            },
    {
        if idx >= 4 {
            return Err(text("Invalid freecell index."));
        }
        match self.freecells[idx] {
            Some(c) => {
                let ghost prev = self.board();
                self.freecells[idx] = None;
                proof {
                    assert(self.board().freecells =~= prev.after_take(LocationType::Freecell, idx as int).freecells);
                    assert(self.board().columns =~= prev.columns);
                }
                Ok(c)
            },
            None => Err(text("Freecell is empty.")),
        }
    }

    /// Lifts the top card off foundation `idx`; the pile then shows the card below.
    fn take_card_from_foundation(&mut self, idx: usize) -> (r: Result<Card, String>)
        ensures
            match old(self).board().take(LocationType::Foundation, idx as int) {
                Some((c, b)) => {
                    &&& r == Ok::<Card, String>(c)
                    &&& final(self).board() == b
                    &&& final(self).same_record(*old(self))
                },
                None => *final(self) == *old(self) && r is Err,
            },
    {
        if idx >= 4 {
            return Err(text("Invalid foundation index."));
        }
        match self.foundations[idx] {
            Some(c) => {
                let ghost prev = self.board();
                let below = if c.rank > 1 {
                    Some(Card { rank: c.rank - 1, suit: c.suit })
                } else {
                    None
                };
                self.foundations[idx] = below;
                proof {
                    assert(below == card_below(c));
                    assert(self.board().foundations =~= prev.after_take(LocationType::Foundation, idx as int).foundations);
                    assert(self.board().columns =~= prev.columns);
                }
                Ok(c)
            },
            None => Err(text("Foundation is empty.")),
        }
    }

    /// Lifts the movable card off the zone `kind` at `idx`.
    fn lift_card(&mut self, kind: LocationType, idx: usize) -> (r: Result<Card, String>)
        ensures
            match old(self).board().take(kind, idx as int) {
                Some((c, b)) => {
                    &&& r == Ok::<Card, String>(c)
                    &&& final(self).board() == b
                    &&& final(self).same_record(*old(self))
                },
                None => *final(self) == *old(self) && r is Err,
            },
    {
        match kind {
            LocationType::Column => self.pop_card_from_column(idx),
            LocationType::Freecell => self.take_card_from_freecell(idx),
            LocationType::Foundation => self.take_card_from_foundation(idx),
        }
    }

    /// Places a card on the foundation of its suit if it comes next there.
    fn place_in_foundation(&mut self, card: Card) -> (r: Result<(), String>)
        ensures
            match old(self).board().put(card, LocationType::Foundation, 0) {
                Some(b) => r is Ok && final(self).board() == b && final(self).same_record(*old(self)),
                None => *final(self) == *old(self) && r is Err,
            },
    {
        let index = get_foundation_index(card);
        if !fits_foundation(self.foundations[index], card) {
            return Err(text("Invalid foundation move!"));
        }
        let ghost prev = self.board();
        self.foundations[index] = Some(card);
        proof {
            assert(self.board().foundations =~= prev.put(card, LocationType::Foundation, 0)->0.foundations);
            assert(self.board().columns =~= prev.columns);
        }
        Ok(())
    }

    /// Sets a card down on the zone `kind` at `idx`, with the structural
    /// checks only.
    fn set_down(&mut self, card: Card, kind: LocationType, idx: usize) -> (r: Result<(), String>)
        ensures
            match old(self).board().put(card, kind, idx as int) {
                Some(b) => r is Ok && final(self).board() == b && final(self).same_record(*old(self)),
                None => *final(self) == *old(self) && r is Err,
            },
    {
        let ghost prev = self.board();
        match kind {
            LocationType::Column => {
                if idx >= 8 {
                    return Err(text("Invalid destination column"));
                }
                self.columns[idx].push(card);
                proof {
                    assert(self.board().columns =~= prev.put(card, kind, idx as int)->0.columns);
                }
                Ok(())
            },
            LocationType::Freecell => {
                if idx >= 4 {
                    return Err(text("Invalid target freecell."));
                }
                if self.freecells[idx].is_some() {
                    return Err(text("Freecell is already occupied."));
                }
                self.freecells[idx] = Some(card);
                proof {
                    assert(self.board().freecells =~= prev.put(card, kind, idx as int)->0.freecells);
                    assert(self.board().columns =~= prev.columns);
                }
                Ok(())
            },
            LocationType::Foundation => self.place_in_foundation(card),
        }
    }

    /// Decides whether `mv` is legal, without touching the game. A refused
    /// move comes back with its reason.
    pub fn check_move(&self, mv: &Move) -> (r: Result<(), String>)
        ensures
            r is Ok <==> self.board().allows(*mv),
            r matches Err(e) ==> e@ == self.board().rejection(*mv),
    {
        let f = mv.from_idx;
        let t = mv.to_idx;
        match (mv.from, mv.to) {
            (LocationType::Column, LocationType::Column) => {
                if f >= 8 {
                    return Err(text("Invalid source column."));
                }
                if t >= 8 {
                    return Err(text("Invalid destination column."));
                }
                let src = &self.columns[f];
                if src.len() == 0 {
                    return Err(text("Source column is empty."));
                }
                if !fits_column(&self.columns[t], src[src.len() - 1]) {
                    return Err(text("Illegal move, cannot stack."));
                }
                Ok(())
            },
            (LocationType::Column, LocationType::Freecell) => {
                if t >= 4 {
                    return Err(text("Invalid freecell index."));
                }
                if self.freecells[t].is_some() {
                    return Err(text("Freecell is occupied!"));
                }
                if f >= 8 {
                    return Err(text("Invalid source column."));
                }
                if self.columns[f].len() == 0 {
                    return Err(text("Column is empty."));
                }
                Ok(())
            },
            (LocationType::Freecell, LocationType::Column) => {
                if f >= 4 {
                    return Err(text("Invalid freecell"));
                }
                if t >= 8 {
                    return Err(text("Invalid destination column."));
                }
                match self.freecells[f] {
                    Some(c) => {
                        if !fits_column(&self.columns[t], c) {
                            return Err(text("Illegal move, cannot stack."));
                        }
                        Ok(())
                    },
                    None => Err(text("Freecell is empty.")),
                }
            },
            (LocationType::Column, LocationType::Foundation) | (
                LocationType::Freecell,
                LocationType::Foundation,
            ) => {
                let card = if mv.from == LocationType::Column {
                    if f >= 8 {
                        return Err(text("Invalid source column."));
                    }
                    let src = &self.columns[f];
                    if src.len() == 0 {
                        return Err(text("Source column is empty."));
                    }
                    src[src.len() - 1]
                } else {
                    if f >= 4 {
                        return Err(text("Invalid freecell index."));
                    }
                    match self.freecells[f] {
                        Some(c) => c,
                        None => {
                            return Err(text("Freecell is empty."));
                        },
                    }
                };
                if card.suit == Suit::Blank {
                    return Err(text("Invalid source location for a move to foundation"));
                }
                if !fits_foundation(self.foundations[get_foundation_index(card)], card) {
                    return Err(text("Invalid foundation move!"));
                }
                Ok(())
            },
            _ => Err(text("Unsupported move type")),
        }
    }

    /// Applies `mv` if it is legal: the card leaves its source, lands on its
    /// destination, and the move joins the history (a move onto the
    /// foundations naming the pile of the card's suit). A refused move
    /// leaves the game exactly as it was.
    pub fn apply_move(&mut self, mv: Move) -> (r: Result<(), String>)
        ensures
            r is Ok <==> old(self).board().allows(mv),
            r matches Err(e) ==> e@ == old(self).board().rejection(mv) && *final(self) == *old(self),
            r is Ok ==> {
                &&& final(self).board() == old(self).board().transfer(mv)->0
                &&& old(self).board().consistent() ==> final(self).board().consistent()
                &&& final(self).history@ == old(self).history@.push(old(self).board().recorded(mv))
                &&& final(self).seed == old(self).seed
                &&& final(self).last_move_error == old(self).last_move_error
            },
    {
        match self.check_move(&mv) {
            Ok(()) => {},
            Err(e) => {
                return Err(e);
            },
        }
        let card = match self.lift_card(mv.from, mv.from_idx) {
            Ok(c) => c,
            Err(e) => {
                return Err(e);
            },
        };
        match self.set_down(card, mv.to, mv.to_idx) {
            Ok(()) => {},
            Err(e) => {
                return Err(e);
            },
        }
        proof {
            if old(self).board().consistent() {
                lemma_transfer_consistent(old(self).board(), mv);
            }
        }
        let mut entry = mv;
        if mv.to == LocationType::Foundation {
            entry.to_idx = get_foundation_index(card);
        }
        self.record_move(&entry)
    }

    /// The card that lifting from the zone `kind` at `idx` would give.
    fn peek_card(&self, kind: LocationType, idx: usize) -> (r: Result<Card, String>)
        ensures
            match self.board().take(kind, idx as int) {
                Some((c, _)) => r == Ok::<Card, String>(c),
                None => r is Err,
            },
    {
        match kind {
            LocationType::Column => {
                if idx >= 8 {
                    return Err(text("Invalid source column"));
                }
                let col = &self.columns[idx];
                if col.len() == 0 {
                    return Err(text("Source column is empty."));
                }
                Ok(col[col.len() - 1])
            },
            LocationType::Freecell => {
                if idx >= 4 {
                    return Err(text("Invalid freecell index."));
                }
                match self.freecells[idx] {
                    Some(c) => Ok(c),
                    None => Err(text("Freecell is empty.")),
                }
            },
            LocationType::Foundation => {
                if idx >= 4 {
                    return Err(text("Invalid foundation index."));
                }
                match self.foundations[idx] {
                    Some(c) => Ok(c),
                    None => Err(text("Foundation is empty.")),
                }
            },
        }
    }

    /// Decides whether the forced move `u` can be carried out, without
    /// touching the game.
    fn check_forced(&self, u: &Move) -> (r: Result<(), String>)
        ensures
            r is Ok <==> self.board().transfer(*u) is Some,
    {
        let card = match self.peek_card(u.from, u.from_idx) {
            Ok(c) => c,
            Err(e) => {
                return Err(e);
            },
        };
        match u.to {
            LocationType::Column => {
                if u.to_idx >= 8 {
                    return Err(text("Invalid destination column"));
                }
                Ok(())
            },
            LocationType::Freecell => {
                if u.to_idx >= 4 {
                    return Err(text("Invalid target freecell."));
                }
                let vacated = u.from == LocationType::Freecell && u.from_idx == u.to_idx;
                if self.freecells[u.to_idx].is_some() && !vacated {
                    return Err(text("Freecell is already occupied."));
                }
                Ok(())
            },
            LocationType::Foundation => {
                let slot = get_foundation_index(card);
                let top = if u.from == LocationType::Foundation && u.from_idx == slot {
                    if card.rank > 1 {
                        Some(Card { rank: card.rank - 1, suit: card.suit })
                    } else {
                        None
                    }
                } else {
                    self.foundations[slot]
                };
                proof {
                    assert(top == self.board().after_take(u.from, u.from_idx as int).foundations[slot as int]);
                }
                if !fits_foundation(top, card) {
                    return Err(text("Invalid foundation move!"));
                }
                Ok(())
            },
        }
    }

    /// Carries a card from where `u` starts to where it ends with only the
    /// structural checks (an existing source card, a free freecell, the next
    /// rank on a foundation), as undoing a move needs. Either the whole move
    /// happens or nothing does.
    pub fn force_move(&mut self, u: Move) -> (r: Result<(), String>)
        ensures
            match old(self).board().transfer(u) {
                Some(b) => r is Ok && final(self).board() == b && final(self).same_record(*old(self)),
                None => r is Err && *final(self) == *old(self),
            },
            old(self).board().consistent() ==> final(self).board().consistent(),
    {
        proof {
            if old(self).board().consistent() && old(self).board().transfer(u) is Some {
                lemma_transfer_consistent(old(self).board(), u);
            }
        }
        match self.check_forced(&u) {
            Ok(()) => {},
            Err(e) => {
                return Err(e);
            },
        }
        let card = match self.lift_card(u.from, u.from_idx) {
            Ok(c) => c,
            Err(e) => {
                return Err(e);
            },
        };
        self.set_down(card, u.to, u.to_idx)
    }

    /// Takes back the last move of the history: its card travels back along
    /// the reversed move, and the entry leaves the history. Gives the move
    /// undone, or `None` when the history is empty. Where the reversed move
    /// cannot be carried out, nothing changes.
    pub fn undo(&mut self) -> (r: Result<Option<Move>, String>)
        ensures
            old(self).history@.len() == 0 ==> {
                &&& r == Ok::<Option<Move>, String>(None)
                &&& *final(self) == *old(self)
            },
            old(self).history@.len() > 0 ==> {
                let m = old(self).history@.last();
                match old(self).board().transfer(reversed(m)) {
                    Some(b) => {
                        &&& r == Ok::<Option<Move>, String>(Some(m))
                        &&& final(self).board() == b
                        &&& final(self).history@ == old(self).history@.drop_last()
                        &&& final(self).seed == old(self).seed
                        &&& final(self).last_move_error == old(self).last_move_error
                    },
                    None => r is Err && *final(self) == *old(self),
                }
            },
            old(self).board().consistent() ==> final(self).board().consistent(),
    {
        let n = self.history.len();
        if n == 0 {
            return Ok(None);
        }
        let m = self.history[n - 1];
        let u = Move { from: m.to, from_idx: m.to_idx, to: m.from, to_idx: m.from_idx };
        match self.force_move(u) {
            Ok(()) => {},
            Err(e) => {
                return Err(e);
            },
        }
        self.history.pop();
        Ok(Some(m))
    }

    /// The freecells as a renderer draws them: a rank-0 blank card for an
    /// empty cell.
    pub fn freecells_as_vec(&self) -> (r: Vec<Card>)
        ensures
            r@ == self.freecells@.map_values(|o: Option<Card>| shown(o)),
    {
        slots_as_vec(&self.freecells)
    }

    /// The foundation tops as a renderer draws them: a rank-0 blank card for
    /// an empty pile.
    pub fn foundation_as_vec(&self) -> (r: Vec<Card>)
        ensures
            r@ == self.foundations@.map_values(|o: Option<Card>| shown(o)),
    {
        slots_as_vec(&self.foundations)
    }

    /// The feedback line: the last refusal if there is one, otherwise the
    /// last applied move, otherwise nothing.
    pub fn str_last_move(&self) -> (r: String)
        ensures
            r@ == match self.last_move_error {
                Some(e) => e@,
                None => if self.history@.len() == 0 {
                    Seq::<char>::empty()
                } else {
                    "Last Move: "@ + move_text(self.history@.last())
                },
            },
    {
        match &self.last_move_error {
            Some(e) => e.clone(),
            None => match self.get_last_move() {
                Some(m) => {
                    let shown_move = m.display_string();
                    text("Last Move: ").concat(shown_move.as_str())
                },
                None => String::new(),
            },
        }
    }
}

} // verus!
