use crate::card::{all_cards, canonical_cards, lemma_card_at_index, Card, ACE, DECK_SIZE, KING};
use rand::seq::SliceRandom;
use vstd::prelude::*;

verus! {

/// An ordered sequence of cards, bottom of the pile first. A deck fit for
/// dealing holds each of the 52 catalog cards exactly once.
pub struct Deck {
    pub cards: Vec<Card>,
}

/// The deck holds exactly the 52 catalog cards, each once.
pub open spec fn is_complete(cards: Seq<Card>) -> bool {
    &&& cards.len() == DECK_SIZE
    &&& forall|i: int| 0 <= i < cards.len() ==> (#[trigger] cards[i]).is_valid()
    &&& cards.no_duplicates()
}

/// `glyphs`, a table of glyphs in catalog order, gives `card` the glyph `ch`.
pub open spec fn has_glyph(glyphs: Seq<char>, card: Card, ch: char) -> bool {
    &&& card.is_valid()
    &&& card.index() < glyphs.len()
    &&& glyphs[card.index()] == ch
}

/// Relies on rand's `SliceRandom::shuffle` with the thread-local generator,
/// which permutes the slice in place by swaps.
#[verifier::external_body]
fn shuffle_cards(cards: &mut Vec<Card>)
    ensures
        final(cards)@.to_multiset() == old(cards)@.to_multiset(),
{
    cards.shuffle(&mut rand::thread_rng());
}

impl Deck {
    /// A deck holding the catalog in canonical order.
    pub fn new() -> (r: Deck)
        ensures
            r.cards@ == canonical_cards(),
    {
        Deck { cards: all_cards() }
    }

    /// The same cards in an order drawn at random.
    pub fn shuffle(self) -> (r: Deck)
        ensures
            r.cards@.to_multiset() == self.cards@.to_multiset(),
    {
        let mut cards = self.cards;
        shuffle_cards(&mut cards);
        Deck { cards }
    }

    /// Whether the deck holds each of the 52 catalog cards exactly once.
    pub fn is_complete(&self) -> (r: bool)
        ensures
            r == is_complete(self.cards@),
    {
        let n = self.cards.len();
        if n != DECK_SIZE {
            return false;
        }
        let mut seen: Vec<bool> = Vec::new();
        let mut k: usize = 0;
        while k < DECK_SIZE
            invariant
                k <= DECK_SIZE,
                seen@.len() == k,
                forall|j: int| 0 <= j < k ==> !seen@[j],
            decreases DECK_SIZE - k,
        {
            seen.push(false);
            k = k + 1;
        }
        let mut i: usize = 0;
        while i < n
            invariant
                n == self.cards@.len() == DECK_SIZE,
                i <= n,
                seen@.len() == DECK_SIZE,
                forall|j: int| 0 <= j < i ==> (#[trigger] self.cards@[j]).is_valid(),
                forall|j: int|
                    0 <= j < i ==> #[trigger] seen@[self.cards@[j].index()],
                forall|k: int|
                    0 <= k < DECK_SIZE && #[trigger] seen@[k] ==> exists|j: int|
                        0 <= j < i && (#[trigger] self.cards@[j]).index() == k,
                forall|j1: int, j2: int|
                    0 <= j1 < i && 0 <= j2 < i && j1 != j2 ==> self.cards@[j1]
                        != self.cards@[j2],
            decreases n - i,
        {
            let c = self.cards[i];
            if c.rank < ACE || c.rank > KING {
                return false;
            }
            proof {
                lemma_card_at_index(c);
            }
            let idx = c.catalog_index();
            if seen[idx] {
                proof {
                    let j = choose|j: int| 0 <= j < i && (#[trigger] self.cards@[j]).index() == idx;
                    lemma_card_at_index(self.cards@[j]);
                    assert(self.cards@[j] == self.cards@[i as int]);
                }
                return false;
            }
            proof {
                assert forall|j: int| 0 <= j < i implies self.cards@[j] != c by {
                    if self.cards@[j] == c {
                        assert(seen@[self.cards@[j].index()]);
                    }
                }
            }
            seen.set(idx, true);
            i = i + 1;
            proof {
                assert forall|k: int|
                    0 <= k < DECK_SIZE && #[trigger] seen@[k] implies exists|j: int|
                        0 <= j < i && (#[trigger] self.cards@[j]).index() == k by {
                    if k == idx {
                        assert(self.cards@[i - 1].index() == k);
                    } else {
                        let j = choose|j: int|
                            0 <= j < i - 1 && (#[trigger] self.cards@[j]).index() == k;
                        assert(self.cards@[j].index() == k);
                    }
                }
            }
        }
        true
    }

    /// The first card of the deck whose glyph, looked up in `glyphs` (one
    /// glyph per catalog card, in catalog order), is `card_char`.
    pub fn card_from_char(&self, glyphs: &Vec<char>, card_char: char) -> (r: Option<Card>)
        ensures
            match r {
                Some(c) => exists|i: int|
                    0 <= i < self.cards@.len() && self.cards@[i] == c && has_glyph(
                        glyphs@,
                        c,
                        card_char,
                    ) && forall|j: int|
                        0 <= j < i ==> !has_glyph(glyphs@, #[trigger] self.cards@[j], card_char),
                None => forall|i: int|
                    0 <= i < self.cards@.len() ==> !has_glyph(
                        glyphs@,
                        #[trigger] self.cards@[i],
                        card_char,
                    ),
            },
    {
        let mut i: usize = 0;
        while i < self.cards.len()
            invariant
                i <= self.cards@.len(),
                forall|j: int|
                    0 <= j < i ==> !has_glyph(glyphs@, #[trigger] self.cards@[j], card_char),
            decreases self.cards@.len() - i,
        {
            let c = self.cards[i];
            if ACE <= c.rank && c.rank <= KING {
                let idx = c.catalog_index();
                if idx < glyphs.len() && glyphs[idx] == card_char {
                    return Some(c);
                }
            }
            i = i + 1;
        }
        None
    }
}

} // verus!
