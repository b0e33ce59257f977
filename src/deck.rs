use vstd::prelude::*;

use crate::card::{Card, Suit};

verus! {

/// The order in which the fresh deck lays out its suits.
pub open spec fn deck_suit(k: int) -> Suit {
    if k == 0 {
        Suit::Spades
    } else if k == 1 {
        Suit::Hearts
    } else if k == 2 {
        Suit::Clubs
    } else {
        Suit::Diamonds
    }
}

/// Where a suit's run of thirteen cards starts in the fresh deck, divided by 13.
pub open spec fn deck_position(s: Suit) -> int {
    match s {
        Suit::Spades => 0,
        Suit::Hearts => 1,
        Suit::Clubs => 2,
        _ => 3,
    }
}

/// The fresh deck: Spades, Hearts, Clubs, Diamonds, each from Ace to King.
pub open spec fn ordered_deck() -> Seq<Card> {
    Seq::new(52, |i: int| Card { rank: (i % 13 + 1) as u8, suit: deck_suit(i / 13) })
}

/// A complete deck: 52 real cards, no card twice, every real card present.
pub open spec fn is_full_deck(d: Seq<Card>) -> bool {
    &&& d.len() == 52
    &&& d.no_duplicates()
    &&& forall|i: int| 0 <= i < d.len() ==> (#[trigger] d[i]).is_real()
    &&& forall|c: Card| c.is_real() ==> #[trigger] d.contains(c)
}

pub(crate) proof fn lemma_deck_index(s: int, k: int)
    requires
        0 <= s < 4,
        0 <= k < 13,
    ensures
        (13 * s + k) / 13 == s,
        (13 * s + k) % 13 == k,
{
    assert((13 * s + k) / 13 == s) by (nonlinear_arith)
        requires
            0 <= s < 4,
            0 <= k < 13,
    ;
    assert((13 * s + k) % 13 == k) by (nonlinear_arith)
        requires
            0 <= s < 4,
            0 <= k < 13,
    ;
}

proof fn lemma_deck_split(i: int)
    requires
        0 <= i < 52,
    ensures
        0 <= i / 13 < 4,
        0 <= i % 13 < 13,
        i == 13 * (i / 13) + i % 13,
{
}

/// The fresh deck is complete.
pub proof fn lemma_ordered_deck_full()
    ensures
        is_full_deck(ordered_deck()),
{
    let d = ordered_deck();
    assert forall|i: int, j: int| 0 <= i < d.len() && 0 <= j < d.len() && i != j implies d[i]
        != d[j] by {
        lemma_deck_split(i);
        lemma_deck_split(j);
        if d[i] == d[j] {
            assert(i % 13 == j % 13);
            assert(deck_suit(i / 13) == deck_suit(j / 13));
            assert(i / 13 == j / 13);
        }
    }
    assert forall|c: Card| c.is_real() implies #[trigger] d.contains(c) by {
        let s = deck_position(c.suit);
        let k = c.rank - 1;
        lemma_deck_index(s, k);
        assert(d[13 * s + k] == c);
    }
}

/// Reordering a complete deck keeps it complete.
pub proof fn lemma_reordered_deck_full(d: Seq<Card>, e: Seq<Card>)
    requires
        is_full_deck(d),
        e.to_multiset() == d.to_multiset(),
    ensures
        is_full_deck(e),
{
    broadcast use vstd::seq_lib::group_to_multiset_ensures;

    assert(e.len() == e.to_multiset().len());
    assert(d.len() == d.to_multiset().len());
    d.lemma_multiset_has_no_duplicates();
    e.lemma_multiset_has_no_duplicates_conv();
    assert forall|i: int| 0 <= i < e.len() implies (#[trigger] e[i]).is_real() by {
        assert(e.contains(e[i]));
        assert(d.to_multiset().count(e[i]) > 0);
        let j = choose|j: int| 0 <= j < d.len() && d[j] == e[i];
    }
    assert forall|c: Card| c.is_real() implies #[trigger] e.contains(c) by {
        assert(d.contains(c));
        assert(e.to_multiset().count(c) > 0);
    }
}

} // verus!
