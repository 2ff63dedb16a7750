//! Properties of the engine that hold over every input and every sequence of
//! moves, stated over the specification functions and proved.
use crate::card::{
    canonical_cards, lemma_card_at_index, lemma_index_card_at, spec_can_place, Card, DECK_SIZE,
};
use crate::deck::is_complete;
use crate::engine::{
    after_move, extended, lemma_accepted_move_distinct, lifted, spec_apply_move, spec_check_move, Move,
    MoveError,
};
use crate::tableau::{spec_deal, tableau_wf, triangular, ColumnView, COLUMN_COUNT};
use vstd::multiset::Multiset;
use vstd::prelude::*;
use vstd::seq_lib::lemma_multiset_commutative;

verus! {

/// Number of cards a deal lays out; the rest of the deck stays undealt.
pub const DEALT_CARDS: usize = 28;

/// All the cards lying in the columns of `t`, counted with multiplicity.
pub open spec fn cards_in(t: Seq<ColumnView>) -> Multiset<Card>
    decreases t.len(),
{
    if t.len() == 0 {
        Multiset::empty()
    } else {
        cards_in(t.drop_last()).add(t.last().cards.to_multiset())
    }
}

/// The tableau reached from `t` by the moves of `moves` in turn, or `None`
/// if one of them is refused.
pub open spec fn play(t: Seq<ColumnView>, moves: Seq<Move>) -> Option<Seq<ColumnView>>
    decreases moves.len(),
{
    if moves.len() == 0 {
        Some(t)
    } else {
        let m = moves[0];
        match spec_apply_move(
            t,
            m.source_column as int,
            m.source_row as int,
            m.destination_column as int,
        ) {
            Ok(next) => play(next, moves.drop_first()),
            Err(_) => None,
        }
    }
}

/// Replacing one column changes the cards of the tableau by exactly the
/// cards of the old and the new column.
pub proof fn lemma_cards_in_update(t: Seq<ColumnView>, i: int, c: ColumnView)
    requires
        0 <= i < t.len(),
    ensures
        cards_in(t.update(i, c)).add(t[i].cards.to_multiset()) =~= cards_in(t).add(
            c.cards.to_multiset(),
        ),
    decreases t.len(),
{
    broadcast use vstd::multiset::group_multiset_axioms;

    let u = t.update(i, c);
    assert(cards_in(u) == cards_in(u.drop_last()).add(u.last().cards.to_multiset()));
    assert(cards_in(t) == cards_in(t.drop_last()).add(t.last().cards.to_multiset()));
    let lhs = cards_in(u).add(t[i].cards.to_multiset());
    let rhs = cards_in(t).add(c.cards.to_multiset());
    if i == t.len() - 1 {
        assert(u.drop_last() =~= t.drop_last());
        assert(u.last() == c);
        assert forall|v: Card| #[trigger] lhs.count(v) == rhs.count(v) by {}
    } else {
        let p = t.drop_last();
        assert(u.drop_last() =~= p.update(i, c));
        lemma_cards_in_update(p, i, c);
        assert(u.last() == t.last());
        assert(p[i] == t[i]);
        assert forall|v: Card| #[trigger] lhs.count(v) == rhs.count(v) by {
            assert(cards_in(p.update(i, c)).add(p[i].cards.to_multiset()).count(v) == cards_in(
                p,
            ).add(c.cards.to_multiset()).count(v));
        }
    }
}

/// The catalog in canonical order is a complete deck.
pub proof fn lemma_canonical_complete()
    ensures
        is_complete(canonical_cards()),
{
    let c = canonical_cards();
    assert forall|i: int| 0 <= i < c.len() implies (#[trigger] c[i]).is_valid() by {
        lemma_index_card_at(i);
    }
    assert forall|i: int, j: int| 0 <= i < c.len() && 0 <= j < c.len() && i != j implies c[i]
        != c[j] by {
        lemma_index_card_at(i);
        lemma_index_card_at(j);
    }
}

/// A complete deck holds exactly the cards of the catalog: as a multiset it
/// equals the canonical 52 cards.
pub proof fn lemma_complete_is_catalog(deck: Seq<Card>)
    requires
        is_complete(deck),
    ensures
        deck.to_multiset() == canonical_cards().to_multiset(),
{
    broadcast use vstd::seq_lib::seq_to_set_is_finite;

    let c = canonical_cards();
    lemma_canonical_complete();
    deck.unique_seq_to_set();
    c.unique_seq_to_set();
    assert forall|x: Card| deck.to_set().contains(x) implies c.to_set().contains(x) by {
        let i = choose|i: int| 0 <= i < deck.len() && deck[i] == x;
        assert(deck[i].is_valid());
        lemma_card_at_index(x);
        assert(c[x.index()] == x);
    }
    vstd::set_lib::lemma_subset_equality(deck.to_set(), c.to_set());
    deck.to_multiset_ensures();
    c.to_multiset_ensures();
    deck.lemma_multiset_has_no_duplicates();
    c.lemma_multiset_has_no_duplicates();
    assert forall|x: Card| deck.to_multiset().count(x) == c.to_multiset().count(x) by {
        assert(deck.to_set().contains(x) == c.to_set().contains(x));
        assert(deck.contains(x) == deck.to_set().contains(x));
        assert(c.contains(x) == c.to_set().contains(x));
    }
    assert(deck.to_multiset() =~= c.to_multiset());
}

/// Reordering a complete deck, as a shuffle does, leaves it complete.
pub proof fn lemma_permutation_keeps_complete(a: Seq<Card>, b: Seq<Card>)
    requires
        is_complete(a),
        a.to_multiset() == b.to_multiset(),
    ensures
        is_complete(b),
{
    a.to_multiset_ensures();
    b.to_multiset_ensures();
    assert forall|i: int| 0 <= i < b.len() implies (#[trigger] b[i]).is_valid() by {
        assert(b.contains(b[i]));
        assert(b.to_multiset().count(b[i]) > 0);
        assert(a.to_multiset().count(b[i]) > 0);
        assert(a.contains(b[i]));
        let j = choose|j: int| 0 <= j < a.len() && a[j] == b[i];
        assert(a[j].is_valid());
    }
    a.lemma_multiset_has_no_duplicates();
    b.lemma_multiset_has_no_duplicates_conv();
}

/// The placement rule is directional: if `a` may be laid on `b`, then `b`
/// may not be laid on `a`.
pub proof fn lemma_can_place_not_symmetric(a: Card, b: Card)
    requires
        spec_can_place(a, b),
    ensures
        !spec_can_place(b, a),
{
}

/// Dealing a complete deck gives seven well-formed columns; column `i` holds
/// `i + 1` cards, of which `i` lie face down.
pub proof fn lemma_deal_layout(deck: Seq<Card>)
    requires
        is_complete(deck),
    ensures
        spec_deal(deck).len() == COLUMN_COUNT,
        forall|i: int|
            0 <= i < COLUMN_COUNT ==> (#[trigger] spec_deal(deck)[i]).cards.len() == i + 1
                && spec_deal(deck)[i].hidden == i,
        tableau_wf(spec_deal(deck)),
{
    assert forall|i: int| 0 <= i < COLUMN_COUNT implies (#[trigger] spec_deal(deck)[i]).cards.len()
        == i + 1 && spec_deal(deck)[i].hidden == i by {
        lemma_triangular_bound(i as nat);
        assert(triangular((i + 1) as nat) == triangular(i as nat) + i + 1);
    }
}

proof fn lemma_triangular_bound(n: nat)
    requires
        n < COLUMN_COUNT,
    ensures
        triangular(n + 1) <= DEALT_CARDS,
        triangular(n) <= triangular(n + 1),
{
    reveal_with_fuel(triangular, 8);
}

/// A deal lays out the first 28 cards of the deck.
pub proof fn lemma_deal_cards(deck: Seq<Card>)
    requires
        deck.len() == DECK_SIZE,
    ensures
        cards_in(spec_deal(deck)) == deck.subrange(0, DEALT_CARDS as int).to_multiset(),
{
    let d = spec_deal(deck);
    assert forall|n: nat| n <= COLUMN_COUNT implies cards_in(#[trigger] d.take(n as int))
        == deck.subrange(0, triangular(n) as int).to_multiset() by {
        lemma_deal_prefix(deck, n);
    }
    assert(d.take(COLUMN_COUNT as int) =~= d);
    assert(triangular(COLUMN_COUNT as nat) == DEALT_CARDS) by {
        reveal_with_fuel(triangular, 8);
    }
}

proof fn lemma_deal_prefix(deck: Seq<Card>, n: nat)
    requires
        deck.len() == DECK_SIZE,
        n <= COLUMN_COUNT,
    ensures
        cards_in(spec_deal(deck).take(n as int)) == deck.subrange(0, triangular(n) as int).to_multiset(),
    decreases n,
{
    let d = spec_deal(deck);
    if n == 0 {
        let e = deck.subrange(0, 0);
        assert(triangular(0) == 0);
        e.to_multiset_ensures();
        vstd::multiset::lemma_multiset_empty_len(e.to_multiset());
        assert(d.take(0).len() == 0);
    } else {
        let m = (n - 1) as nat;
        lemma_deal_prefix(deck, m);
        lemma_triangular_bound(m);
        assert(d.take(n as int).drop_last() =~= d.take(m as int));
        let lo = deck.subrange(0, triangular(m) as int);
        let col = deck.subrange(triangular(m) as int, triangular(n) as int);
        assert(d.take(n as int).last().cards == col);
        assert(deck.subrange(0, triangular(n) as int) =~= lo + col);
        lemma_multiset_commutative(lo, col);
        assert(cards_in(d.take(n as int)) == cards_in(d.take(n as int).drop_last()).add(
            d.take(n as int).last().cards.to_multiset(),
        ));
    }
}

/// A move that passes its checks keeps every card of the tableau, each as
/// many times as before.
pub proof fn lemma_move_conserves_cards(t: Seq<ColumnView>, src: int, row: int, dst: int)
    requires
        spec_check_move(t, src, row, dst) is Ok,
    ensures
        cards_in(after_move(t, src, row, dst)) =~= cards_in(t),
{
    broadcast use vstd::multiset::group_multiset_axioms;

    lemma_accepted_move_distinct(t, src, row, dst);
    let s = t[src];
    let d = t[dst];
    let low = s.cards.subrange(0, row);
    let run = s.cards.subrange(row, s.cards.len() as int);
    let a = t.update(src, lifted(s, row));
    lemma_cards_in_update(t, src, lifted(s, row));
    lemma_cards_in_update(a, dst, extended(d, run));
    assert(s.cards =~= low + run);
    lemma_multiset_commutative(low, run);
    lemma_multiset_commutative(d.cards, run);
    assert(a[dst] == d);
    let t2 = after_move(t, src, row, dst);
    assert(t2 == a.update(dst, extended(d, run)));
    assert forall|v: Card| #[trigger] cards_in(t2).count(v) == cards_in(t).count(v) by {
        assert(cards_in(a).add(s.cards.to_multiset()).count(v) == cards_in(t).add(
            low.to_multiset(),
        ).count(v));
        assert(cards_in(t2).add(d.cards.to_multiset()).count(v) == cards_in(a).add(
            (d.cards + run).to_multiset(),
        ).count(v));
        assert(s.cards.to_multiset().count(v) == low.to_multiset().count(v) + run.to_multiset().count(v));
        assert((d.cards + run).to_multiset().count(v) == d.cards.to_multiset().count(v)
            + run.to_multiset().count(v));
    }
}

/// A move that passes its checks keeps every column well formed.
pub proof fn lemma_move_preserves_wf(t: Seq<ColumnView>, src: int, row: int, dst: int)
    requires
        tableau_wf(t),
        spec_check_move(t, src, row, dst) is Ok,
    ensures
        tableau_wf(after_move(t, src, row, dst)),
{
    lemma_accepted_move_distinct(t, src, row, dst);
    let t2 = after_move(t, src, row, dst);
    assert forall|i: int| 0 <= i < t2.len() implies (#[trigger] t2[i]).wf() by {
        assert(t[i].wf());
    }
}

/// Empty-column acceptance: a move onto an empty column is never refused
/// for its placement, and a face-up top card alone may always move there.
pub proof fn lemma_empty_column_accepts(t: Seq<ColumnView>, src: int, row: int, dst: int)
    requires
        0 <= src < t.len(),
        0 <= dst < t.len(),
        t[dst].cards.len() == 0,
    ensures
        spec_apply_move(t, src, row, dst) != Err::<Seq<ColumnView>, _>(
            MoveError::IllegalPlacement,
        ),
        t[src].is_face_up(row) && row == t[src].cards.len() - 1 ==> spec_apply_move(
            t,
            src,
            row,
            dst,
        ) is Ok,
{
}

/// Reveal on empty: when a move leaves only face-down cards in its source
/// column, exactly one of them, the new top card, is turned face up; when it
/// leaves face-up cards behind, the face-down count stays. The destination
/// keeps its face-down count.
pub proof fn lemma_reveal_on_empty(t: Seq<ColumnView>, src: int, row: int, dst: int)
    requires
        spec_check_move(t, src, row, dst) is Ok,
    ensures
        ({
            let t2 = after_move(t, src, row, dst);
            &&& row == t[src].hidden && t[src].hidden > 0 ==> t2[src].hidden == t[src].hidden - 1
            &&& row > t[src].hidden ==> t2[src].hidden == t[src].hidden
            &&& t2[src].cards.len() == row
            &&& t2[dst].hidden == t[dst].hidden
        }),
{
    lemma_accepted_move_distinct(t, src, row, dst);
}

/// A move that is refused leaves no tableau behind it, and one that passes
/// its checks yields the tableau after the move.
pub proof fn lemma_apply_move_outcome(t: Seq<ColumnView>, src: int, row: int, dst: int)
    ensures
        spec_apply_move(t, src, row, dst) is Err <==> spec_check_move(t, src, row, dst) is Err,
        spec_check_move(t, src, row, dst) is Ok ==> spec_apply_move(t, src, row, dst) == Ok::<
            Seq<ColumnView>,
            MoveError,
        >(after_move(t, src, row, dst)),
{
}

/// Along any sequence of accepted moves the tableau keeps its cards and its
/// columns stay well formed.
pub proof fn lemma_play_invariants(t: Seq<ColumnView>, moves: Seq<Move>)
    requires
        tableau_wf(t),
        play(t, moves) is Some,
    ensures
        cards_in(play(t, moves)->0) == cards_in(t),
        tableau_wf(play(t, moves)->0),
        play(t, moves)->0.len() == t.len(),
    decreases moves.len(),
{
    if moves.len() > 0 {
        let m = moves[0];
        let (s, r, d) = (m.source_column as int, m.source_row as int, m.destination_column as int);
        lemma_move_conserves_cards(t, s, r, d);
        lemma_move_preserves_wf(t, s, r, d);
        lemma_play_invariants(after_move(t, s, r, d), moves.drop_first());
    }
}

/// Card conservation: after any sequence of accepted moves from a deal of a
/// complete deck, the cards in the columns together with the undealt rest of
/// the deck are exactly the deck's cards, that is the 52 catalog cards, each
/// once; and every column stays well formed.
pub proof fn lemma_card_conservation(deck: Seq<Card>, moves: Seq<Move>)
    requires
        is_complete(deck),
        play(spec_deal(deck), moves) is Some,
    ensures
        cards_in(play(spec_deal(deck), moves)->0).add(
            deck.subrange(DEALT_CARDS as int, DECK_SIZE as int).to_multiset(),
        ) == deck.to_multiset(),
        deck.to_multiset() == canonical_cards().to_multiset(),
        tableau_wf(play(spec_deal(deck), moves)->0),
{
    lemma_complete_is_catalog(deck);
    lemma_deal_layout(deck);
    lemma_deal_cards(deck);
    lemma_play_invariants(spec_deal(deck), moves);
    let lo = deck.subrange(0, DEALT_CARDS as int);
    let hi = deck.subrange(DEALT_CARDS as int, DECK_SIZE as int);
    assert(deck =~= lo + hi);
    lemma_multiset_commutative(lo, hi);
}

} // verus!
