use crate::card::{Card, DECK_SIZE};
use crate::deck::{is_complete, Deck};
use crate::laws::{lemma_canonical_complete, lemma_permutation_keeps_complete};
use vstd::prelude::*;

verus! {

/// Number of columns of a Klondike tableau.
pub const COLUMN_COUNT: usize = 7;

/// A column as a mathematical value: its cards, bottom first, and how many of
/// them, from the bottom, lie face down.
pub struct ColumnView {
    pub cards: Seq<Card>,
    pub hidden: nat,
}

/// A pile of the tableau. `cards` runs from the bottom to the playable top;
/// the first `hidden_count` of them lie face down.
pub struct Column {
    pub cards: Vec<Card>,
    pub hidden_count: usize,
}

/// The columns of the tableau, left to right.
pub struct Tableau {
    pub columns: Vec<Column>,
}

/// The deck handed to the deal is not the 52 catalog cards, each once.
#[derive(Clone, Copy, Debug, PartialEq, Eq, Structural)]
pub struct DeckIntegrityError;

impl View for Column {
    type V = ColumnView;

    open spec fn view(&self) -> ColumnView {
        ColumnView { cards: self.cards@, hidden: self.hidden_count as nat }
    }
}

impl View for Tableau {
    type V = Seq<ColumnView>;

    open spec fn view(&self) -> Seq<ColumnView> {
        self.columns@.map_values(|c: Column| c@)
    }
}

impl ColumnView {
    /// The face-down prefix fits in the column and, unless the column is
    /// empty, leaves its top card face up.
    pub open spec fn wf(self) -> bool {
        &&& self.hidden <= self.cards.len()
        &&& self.cards.len() > 0 ==> self.hidden < self.cards.len()
    }

    /// The card at `row` lies face up.
    pub open spec fn is_face_up(self, row: int) -> bool {
        self.hidden <= row < self.cards.len()
    }

    /// The face-up suffix of the column.
    pub open spec fn face_up_run(self) -> Seq<Card> {
        if self.hidden <= self.cards.len() {
            self.cards.subrange(self.hidden as int, self.cards.len() as int)
        } else {
            Seq::empty()
        }
    }

    /// The top card, if any.
    pub open spec fn top(self) -> Option<Card> {
        if self.cards.len() == 0 {
            None
        } else {
            Some(self.cards.last())
        }
    }
}

/// Every column of the tableau is well formed.
pub open spec fn tableau_wf(t: Seq<ColumnView>) -> bool {
    forall|i: int| 0 <= i < t.len() ==> (#[trigger] t[i]).wf()
}

/// The `n`-th triangular number, `n * (n + 1) / 2`.
pub open spec fn triangular(n: nat) -> nat
    decreases n,
{
    if n == 0 {
        0
    } else {
        triangular((n - 1) as nat) + n
    }
}

/// The layout a deal produces from `cards`: column `i` takes the cards from
/// `triangular(i)` up to `triangular(i + 1)`, all but its top one face down.
pub open spec fn spec_deal(cards: Seq<Card>) -> Seq<ColumnView> {
    Seq::new(
        COLUMN_COUNT as nat,
        |i: int|
            ColumnView {
                cards: cards.subrange(triangular(i as nat) as int, triangular((i + 1) as nat) as int),
                hidden: i as nat,
            },
    )
}

/// The cards of `v` from `lo` up to `hi`, as a new vector.
pub(crate) fn copy_range(v: &Vec<Card>, lo: usize, hi: usize) -> (r: Vec<Card>)
    requires
        lo <= hi <= v@.len(),
    ensures
        r@ == v@.subrange(lo as int, hi as int),
{
    let mut r: Vec<Card> = Vec::new();
    let mut i: usize = lo;
    while i < hi
        invariant
            lo <= i <= hi <= v@.len(),
            r@ == v@.subrange(lo as int, i as int),
        decreases hi - i,
    {
        r.push(v[i]);
        i = i + 1;
        assert(r@ =~= v@.subrange(lo as int, i as int));
    }
    r
}

impl Column {
    /// An independent copy of the column.
    pub fn copy(&self) -> (r: Column)
        ensures
            r@ == self@,
    {
        let cards = copy_range(&self.cards, 0, self.cards.len());
        assert(cards@ =~= self.cards@);
        Column { cards, hidden_count: self.hidden_count }
    }
}

/// Deals `deck` into the seven columns of a fresh tableau: column `i`
/// receives the next `i + 1` cards, of which all but the top one lie face
/// down. The remaining cards stay undealt. Fails unless the deck holds each
/// catalog card exactly once.
pub fn deal_into_columns(deck: &Deck) -> (r: Result<Tableau, DeckIntegrityError>)
    ensures
        r is Ok <==> is_complete(deck.cards@),
        r matches Ok(t) ==> t@ == spec_deal(deck.cards@),
{
    if !deck.is_complete() {
        return Err(DeckIntegrityError);
    }
    let mut columns: Vec<Column> = Vec::new();
    let mut start: usize = 0;
    let mut i: usize = 0;
    while i < COLUMN_COUNT
        invariant
            i <= COLUMN_COUNT,
            deck.cards@.len() == DECK_SIZE,
            start == triangular(i as nat),
            columns@.len() == i,
            forall|j: int| 0 <= j < i ==> (#[trigger] columns@[j])@ == spec_deal(deck.cards@)[j],
        decreases COLUMN_COUNT - i,
    {
        assert(triangular((i + 1) as nat) == start + i + 1);
        assert(triangular((i + 1) as nat) <= 28) by {
            reveal_with_fuel(triangular, 8);
        }
        let cards = copy_range(&deck.cards, start, start + i + 1);
        columns.push(Column { cards, hidden_count: i });
        start = start + i + 1;
        i = i + 1;
    }
    let t = Tableau { columns };
    assert(t@ =~= spec_deal(deck.cards@));
    Ok(t)
}

/// Starts a game: shuffles a fresh deck and deals it. Returns the shuffled
/// deck, whose first 28 cards lie in the columns, and the tableau.
pub fn new_game() -> (r: (Deck, Tableau))
    ensures
        is_complete(r.0.cards@),
        r.1@ == spec_deal(r.0.cards@),
{
    let fresh = Deck::new();
    let deck = fresh.shuffle();
    proof {
        lemma_canonical_complete();
        lemma_permutation_keeps_complete(fresh.cards@, deck.cards@);
    }
    let dealt = deal_into_columns(&deck);
    let t = dealt.unwrap();
    (deck, t)
}

impl Tableau {
    /// The top card of a column, or `None` if it is empty or does not exist.
    pub fn top_card(&self, column: usize) -> (r: Option<Card>)
        ensures
            r == if column < self@.len() {
                self@[column as int].top()
            } else {
                None
            },
    {
        if column >= self.columns.len() {
            return None;
        }
        let cards = &self.columns[column].cards;
        if cards.len() == 0 {
            None
        } else {
            Some(cards[cards.len() - 1])
        }
    }

    /// Whether the card at `row` of a column exists and lies face up.
    pub fn is_face_up(&self, column: usize, row: usize) -> (r: bool)
        ensures
            r == (column < self@.len() && self@[column as int].is_face_up(row as int)),
    {
        if column >= self.columns.len() {
            return false;
        }
        let c = &self.columns[column];
        c.hidden_count <= row && row < c.cards.len()
    }

    /// The face-up cards of a column, bottom first; none if the column does
    /// not exist.
    pub fn face_up_run(&self, column: usize) -> (r: Vec<Card>)
        ensures
            r@ == if column < self@.len() {
                self@[column as int].face_up_run()
            } else {
                Seq::empty()
            },
    {
        if column >= self.columns.len() {
            return Vec::new();
        }
        let c = &self.columns[column];
        if c.hidden_count <= c.cards.len() {
            copy_range(&c.cards, c.hidden_count, c.cards.len())
        } else {
            Vec::new()
        }
    }
    /// Where `card` lies: the first column holding it, left to right, and its
    /// row there, or `None` if no column holds it.
    pub fn find_card(&self, card: &Card) -> (r: Option<(usize, usize)>)
        ensures
            match r {
                Some((c, row)) => c < self@.len() && row < self@[c as int].cards.len()
                    && self@[c as int].cards[row as int] == *card && (forall|k: int|
                    0 <= k < row ==> self@[c as int].cards[k] != *card) && forall|j: int|
                    0 <= j < c ==> !(#[trigger] self@[j]).cards.contains(*card),
                None => forall|j: int|
                    0 <= j < self@.len() ==> !(#[trigger] self@[j]).cards.contains(*card),
            },
    {
        let n = self.columns.len();
        let mut c: usize = 0;
        while c < n
            invariant
                n == self@.len(),
                c <= n,
                forall|j: int| 0 <= j < c ==> !(#[trigger] self@[j]).cards.contains(*card),
            decreases n - c,
        {
            let cards = &self.columns[c].cards;
            let mut row: usize = 0;
            while row < cards.len()
                invariant
                    n == self@.len(),
                    c < n,
                    forall|j: int| 0 <= j < c ==> !(#[trigger] self@[j]).cards.contains(*card),
                    row <= cards@.len(),
                    cards@ == self@[c as int].cards,
                    forall|k: int| 0 <= k < row ==> cards@[k] != *card,
                decreases cards@.len() - row,
            {
                if cards[row] == *card {
                    return Some((c, row));
                }
                row = row + 1;
            }
            c = c + 1;
        }
        None
    }
}

} // verus!
