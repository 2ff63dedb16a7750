use crate::card::{can_place, color_of, spec_can_place, spec_color_of, Card};
use crate::tableau::{copy_range, Column, ColumnView, Tableau};
use vstd::prelude::*;

verus! {

/// Why a move was refused.
#[derive(Clone, Copy, Debug, PartialEq, Eq, Structural)]
pub enum MoveError {
    /// A column index lies outside the tableau.
    InvalidColumn,
    /// The source row is out of range or lies face down.
    SourceNotFaceUp,
    /// The cards from the source row up do not fall strictly in rank with
    /// alternating colours.
    InvalidRun,
    /// The destination's top card does not take the run's bottom card.
    IllegalPlacement,
}

/// A move request: lift the cards of `source_column` from `source_row` up and
/// lay them on top of `destination_column`.
#[derive(Clone, Copy, Debug, PartialEq, Eq, Structural)]
pub struct Move {
    pub source_column: usize,
    pub source_row: usize,
    pub destination_column: usize,
}

/// Card `upper` may lie directly above `lower` within a run: strictly lower in
/// rank and of the other colour.
pub open spec fn follows_in_run(upper: Card, lower: Card) -> bool {
    &&& upper.rank < lower.rank
    &&& spec_color_of(upper.suit) != spec_color_of(lower.suit)
}

/// The cards of `cards` from `from` up form a run: ranks fall strictly and
/// colours alternate from each card to the next.
pub open spec fn spec_is_run(cards: Seq<Card>, from: int) -> bool {
    forall|k: int| from < k < cards.len() ==> follows_in_run(#[trigger] cards[k], cards[k - 1])
}

/// The column takes `card` on top: it is empty, or its top card takes it.
pub open spec fn accepts(c: ColumnView, card: Card) -> bool {
    c.cards.len() == 0 || spec_can_place(card, c.cards.last())
}

/// The column is a target for `card`: it is empty, or its top card lies face
/// up and takes it.
pub open spec fn is_target(c: ColumnView, card: Card) -> bool {
    c.cards.len() == 0 || (c.hidden < c.cards.len() && spec_can_place(card, c.cards.last()))
}

/// The column the run leaves: cut below `row`, turning the new top card face
/// up when only face-down cards would remain.
pub open spec fn lifted(c: ColumnView, row: int) -> ColumnView {
    ColumnView {
        cards: c.cards.subrange(0, row),
        hidden: if row == c.hidden && c.hidden > 0 {
            (c.hidden - 1) as nat
        } else {
            c.hidden
        },
    }
}

/// The column that receives `run` on top.
pub open spec fn extended(c: ColumnView, run: Seq<Card>) -> ColumnView {
    ColumnView { cards: c.cards + run, hidden: c.hidden }
}

/// The tableau after the run from `row` of column `src` has been laid on
/// column `dst`.
pub open spec fn after_move(t: Seq<ColumnView>, src: int, row: int, dst: int) -> Seq<ColumnView> {
    let s = t[src];
    t.update(src, lifted(s, row)).update(
        dst,
        extended(t[dst], s.cards.subrange(row, s.cards.len() as int)),
    )
}

/// The first precondition of a move that fails, if any.
pub open spec fn spec_check_move(t: Seq<ColumnView>, src: int, row: int, dst: int) -> Result<
    (),
    MoveError,
> {
    if !(0 <= src < t.len() && 0 <= dst < t.len()) {
        Err(MoveError::InvalidColumn)
    } else if !t[src].is_face_up(row) {
        Err(MoveError::SourceNotFaceUp)
    } else if !spec_is_run(t[src].cards, row) {
        Err(MoveError::InvalidRun)
    } else if !accepts(t[dst], t[src].cards[row]) {
        Err(MoveError::IllegalPlacement)
    } else {
        Ok(())
    }
}

/// What a move does to the tableau: the first failed precondition, or the
/// tableau after the move.
pub open spec fn spec_apply_move(t: Seq<ColumnView>, src: int, row: int, dst: int) -> Result<
    Seq<ColumnView>,
    MoveError,
> {
    match spec_check_move(t, src, row, dst) {
        Ok(_) => Ok(after_move(t, src, row, dst)),
        Err(e) => Err(e),
    }
}

/// The top card of column `i` is face up and some other column takes it.
pub open spec fn top_is_movable(t: Seq<ColumnView>, i: int) -> bool {
    &&& t[i].hidden < t[i].cards.len()
    &&& exists|j: int| 0 <= j < t.len() && j != i && is_target(t[j], t[i].cards.last())
}

/// The movable top cards of the first `n` columns, left to right.
pub open spec fn movable_prefix(t: Seq<ColumnView>, n: int) -> Seq<Card>
    decreases n,
{
    if n <= 0 {
        Seq::empty()
    } else if top_is_movable(t, n - 1) {
        movable_prefix(t, n - 1).push(t[n - 1].cards.last())
    } else {
        movable_prefix(t, n - 1)
    }
}

/// The face-up cards of column `c` that could be laid on `last`, unless `c`
/// holds `last` itself.
pub open spec fn column_next_cards(c: ColumnView, last: Card) -> Seq<Card> {
    if c.cards.contains(last) {
        Seq::empty()
    } else {
        c.face_up_run().filter(placeable_on(last))
    }
}

/// The cards that could be laid on `last`.
pub open spec fn placeable_on(last: Card) -> spec_fn(Card) -> bool {
    |x: Card| spec_can_place(x, last)
}

/// The cards of the first `n` columns that could be laid on `last`.
pub open spec fn next_cards_prefix(t: Seq<ColumnView>, last: Card, n: int) -> Seq<Card>
    decreases n,
{
    if n <= 0 {
        Seq::empty()
    } else {
        next_cards_prefix(t, last, n - 1) + column_next_cards(t[n - 1], last)
    }
}

/// The move passes every check on `t`.
pub open spec fn is_legal(t: Seq<ColumnView>, m: Move) -> bool {
    spec_check_move(t, m.source_column as int, m.source_row as int, m.destination_column as int) is Ok
}

/// `m` comes before the position (`s`, `row`, `d`) in lexicographic order.
pub open spec fn before(m: Move, s: int, row: int, d: int) -> bool {
    ||| m.source_column < s
    ||| m.source_column == s && m.source_row < row
    ||| m.source_column == s && m.source_row == row && m.destination_column < d
}

/// `a` comes strictly before `b` in lexicographic order.
pub open spec fn move_lt(a: Move, b: Move) -> bool {
    before(a, b.source_column as int, b.source_row as int, b.destination_column as int)
}

/// Along a run, no card ranks above the run's bottom card.
pub proof fn lemma_run_ranks(cards: Seq<Card>, from: int, k: int)
    requires
        spec_is_run(cards, from),
        0 <= from <= k < cards.len(),
    ensures
        cards[k].rank <= cards[from].rank,
    decreases k - from,
{
    if k > from {
        lemma_run_ranks(cards, from, k - 1);
        assert(follows_in_run(cards[k], cards[k - 1]));
    }
}

/// A move that passes its checks goes from one column to another.
pub proof fn lemma_accepted_move_distinct(t: Seq<ColumnView>, src: int, row: int, dst: int)
    requires
        spec_check_move(t, src, row, dst) is Ok,
    ensures
        src != dst,
{
    if src == dst {
        let cards = t[src].cards;
        lemma_run_ranks(cards, row, cards.len() - 1);
    }
}

/// Whether the cards of `cards` from `from` up form a run.
pub fn is_run(cards: &Vec<Card>, from: usize) -> (r: bool)
    ensures
        r == spec_is_run(cards@, from as int),
{
    if from >= cards.len() {
        return true;
    }
    let mut k: usize = from + 1;
    while k < cards.len()
        invariant
            from < cards@.len(),
            from + 1 <= k <= cards@.len(),
            forall|j: int| from < j < k ==> follows_in_run(#[trigger] cards@[j], cards@[j - 1]),
        decreases cards@.len() - k,
    {
        let upper = &cards[k];
        let lower = &cards[k - 1];
        if !(upper.rank < lower.rank && color_of(upper.suit) != color_of(lower.suit)) {
            return false;
        }
        k = k + 1;
    }
    true
}

impl Tableau {
    /// Whether column `column` exists and is a target for `card`: it is empty,
    /// or its top card lies face up and takes `card`.
    pub fn is_target(&self, column: usize, card: &Card) -> (r: bool)
        ensures
            r == (column < self@.len() && is_target(self@[column as int], *card)),
    {
        if column >= self.columns.len() {
            return false;
        }
        let c = &self.columns[column];
        c.cards.len() == 0 || (c.hidden_count < c.cards.len() && self.accepts(column, card))
    }

    /// Whether column `column` exists and takes `card` on top.
    pub fn accepts(&self, column: usize, card: &Card) -> (r: bool)
        ensures
            r == (column < self@.len() && accepts(self@[column as int], *card)),
    {
        if column >= self.columns.len() {
            return false;
        }
        match self.top_card(column) {
            Some(top) => can_place(card, &top),
            None => true,
        }
    }

    /// Checks the preconditions of a move in order, reporting the first that
    /// fails: both columns exist, the source row is face up, the cards from it
    /// up form a run, and the destination takes the run's bottom card.
    pub fn check_move(&self, source_column: usize, source_row: usize, destination_column: usize) -> (r:
        Result<(), MoveError>)
        ensures
            r == spec_check_move(
                self@,
                source_column as int,
                source_row as int,
                destination_column as int,
            ),
    {
        let n = self.columns.len();
        if source_column >= n || destination_column >= n {
            return Err(MoveError::InvalidColumn);
        }
        if !self.is_face_up(source_column, source_row) {
            return Err(MoveError::SourceNotFaceUp);
        }
        let cards = &self.columns[source_column].cards;
        if !is_run(cards, source_row) {
            return Err(MoveError::InvalidRun);
        }
        if !self.accepts(destination_column, &cards[source_row]) {
            return Err(MoveError::IllegalPlacement);
        }
        Ok(())
    }

    /// Moves the cards of `source_column` from `source_row` up, in order, onto
    /// `destination_column`, and returns the resulting tableau; `self` is left
    /// as it was. If the source column is left with face-down cards only, its
    /// new top card is turned face up. Fails, changing nothing, with the first
    /// precondition of `check_move` that does not hold.
    pub fn apply_move(&self, source_column: usize, source_row: usize, destination_column: usize) -> (r:
        Result<Tableau, MoveError>)
        ensures
            match r {
                Ok(t) => spec_apply_move(
                    self@,
                    source_column as int,
                    source_row as int,
                    destination_column as int,
                ) == Ok::<Seq<ColumnView>, MoveError>(t@),
                Err(e) => spec_apply_move(
                    self@,
                    source_column as int,
                    source_row as int,
                    destination_column as int,
                ) == Err::<Seq<ColumnView>, MoveError>(e),
            },
    {
        match self.check_move(source_column, source_row, destination_column) {
            Err(e) => {
                return Err(e);
            },
            Ok(_) => {},
        }
        proof {
            lemma_accepted_move_distinct(
                self@,
                source_column as int,
                source_row as int,
                destination_column as int,
            );
        }
        let ghost target = after_move(
            self@,
            source_column as int,
            source_row as int,
            destination_column as int,
        );
        let n = self.columns.len();
        let mut columns: Vec<Column> = Vec::new();
        let mut i: usize = 0;
        while i < n
            invariant
                n == self@.len(),
                source_column < n,
                destination_column < n,
                source_column != destination_column,
                self@[source_column as int].is_face_up(source_row as int),
                target == after_move(
                    self@,
                    source_column as int,
                    source_row as int,
                    destination_column as int,
                ),
                i <= n,
                columns@.len() == i,
                forall|j: int| 0 <= j < i ==> (#[trigger] columns@[j])@ == target[j],
            decreases n - i,
        {
            let c = &self.columns[i];
            if i == source_column {
                let hidden = if source_row == c.hidden_count && c.hidden_count > 0 {
                    c.hidden_count - 1
                } else {
                    c.hidden_count
                };
                columns.push(Column { cards: copy_range(&c.cards, 0, source_row), hidden_count: hidden });
            } else if i == destination_column {
                let src = &self.columns[source_column].cards;
                let mut cards = copy_range(&c.cards, 0, c.cards.len());
                let mut k: usize = source_row;
                assert(cards@ =~= c.cards@);
                while k < src.len()
                    invariant
                        source_row <= k <= src@.len(),
                        cards@ == c.cards@ + src@.subrange(source_row as int, k as int),
                    decreases src@.len() - k,
                {
                    cards.push(src[k]);
                    k = k + 1;
                    assert(cards@ =~= c.cards@ + src@.subrange(source_row as int, k as int));
                }
                columns.push(Column { cards, hidden_count: c.hidden_count });
            } else {
                columns.push(c.copy());
            }
            i = i + 1;
        }
        let t = Tableau { columns };
        assert(t@ =~= target);
        Ok(t)
    }

    /// The columns that take `card` on top, in increasing order: every empty
    /// column and every column whose top card lies face up and takes it.
    pub fn legal_targets_for(&self, card: &Card) -> (r: Vec<usize>)
        ensures
            forall|k: int| 0 <= k < r@.len() ==> (#[trigger] r@[k]) < self@.len(),
            forall|k1: int, k2: int| 0 <= k1 < k2 < r@.len() ==> r@[k1] < r@[k2],
            forall|j: int|
                0 <= j < self@.len() ==> (is_target(#[trigger] self@[j], *card) <==> r@.contains(
                    j as usize,
                )),
    {
        let n = self.columns.len();
        let mut r: Vec<usize> = Vec::new();
        let mut j: usize = 0;
        while j < n
            invariant
                n == self@.len(),
                j <= n,
                forall|k: int| 0 <= k < r@.len() ==> (#[trigger] r@[k]) < j,
                forall|k1: int, k2: int| 0 <= k1 < k2 < r@.len() ==> r@[k1] < r@[k2],
                forall|i: int|
                    0 <= i < j ==> (is_target(#[trigger] self@[i], *card) <==> r@.contains(
                        i as usize,
                    )),
            decreases n - j,
        {
            let ghost old_r = r@;
            if self.is_target(j, card) {
                r.push(j);
                assert(r@[r@.len() - 1] == j);
            }
            proof {
                assert forall|i: int|
                    0 <= i <= j implies (is_target(#[trigger] self@[i], *card) <==> r@.contains(
                        i as usize,
                    )) by {
                    if i < j {
                        if old_r.contains(i as usize) {
                            let k = choose|k: int| 0 <= k < old_r.len() && old_r[k] == i as usize;
                            assert(r@[k] == i as usize);
                        }
                        if r@.contains(i as usize) {
                            let k = choose|k: int| 0 <= k < r@.len() && r@[k] == i as usize;
                            assert(k < old_r.len());
                            assert(old_r[k] == i as usize);
                        }
                    } else {
                        if r@.contains(i as usize) {
                            let k = choose|k: int| 0 <= k < r@.len() && r@[k] == i as usize;
                            assert(k >= old_r.len());
                        }
                    }
                }
            }
            j = j + 1;
        }
        r
    }

    /// The top cards, left to right, that lie face up and for which some other
    /// column is a target.
    pub fn movable_cards(&self) -> (r: Vec<Card>)
        ensures
            r@ == movable_prefix(self@, self@.len() as int),
    {
        let n = self.columns.len();
        let mut r: Vec<Card> = Vec::new();
        let mut i: usize = 0;
        while i < n
            invariant
                n == self@.len(),
                i <= n,
                r@ == movable_prefix(self@, i as int),
            decreases n - i,
        {
            let c = &self.columns[i];
            if c.hidden_count < c.cards.len() {
                let top = c.cards[c.cards.len() - 1];
                let targets = self.legal_targets_for(&top);
                let mut found = false;
                let mut k: usize = 0;
                while k < targets.len()
                    invariant
                        k <= targets@.len(),
                        found ==> exists|j: int|
                            0 <= j < n && j != i && is_target(self@[j], top),
                        !found ==> forall|m: int| 0 <= m < k ==> targets@[m] == i,
                        forall|m: int| 0 <= m < targets@.len() ==> (#[trigger] targets@[m]) < n,
                        forall|j: int|
                            0 <= j < n ==> (is_target(#[trigger] self@[j], top)
                                <==> targets@.contains(j as usize)),
                    decreases targets@.len() - k,
                {
                    if targets[k] != i {
                        found = true;
                        assert(is_target(self@[targets@[k as int] as int], top));
                    }
                    k = k + 1;
                }
                proof {
                    if !found {
                        assert forall|j: int|
                            0 <= j < n && j != i implies !is_target(self@[j], top) by {
                            if is_target(self@[j], top) {
                                assert(targets@.contains(j as usize));
                            }
                        }
                    }
                }
                if found {
                    r.push(top);
                }
            }
            i = i + 1;
        }
        r
    }

    /// The face-up cards, column by column, bottom first, that could be laid
    /// on `last_card`, leaving out the column that holds `last_card` itself.
    pub fn next_cards(&self, last_card: &Card) -> (r: Vec<Card>)
        ensures
            r@ == next_cards_prefix(self@, *last_card, self@.len() as int),
    {
        let n = self.columns.len();
        let mut r: Vec<Card> = Vec::new();
        let mut i: usize = 0;
        while i < n
            invariant
                n == self@.len(),
                i <= n,
                r@ == next_cards_prefix(self@, *last_card, i as int),
            decreases n - i,
        {
            let c = &self.columns[i];
            let mut holds = false;
            let mut k: usize = 0;
            while k < c.cards.len()
                invariant
                    k <= c.cards@.len(),
                    holds <==> c.cards@.subrange(0, k as int).contains(*last_card),
                decreases c.cards@.len() - k,
            {
                proof {
                    assert(c.cards@.subrange(0, k + 1) =~= c.cards@.subrange(0, k as int).push(
                        c.cards@[k as int],
                    ));
                }
                if c.cards[k] == *last_card {
                    holds = true;
                    assert(c.cards@.subrange(0, k + 1)[k as int] == *last_card);
                }
                k = k + 1;
            }
            assert(c.cards@.subrange(0, c.cards@.len() as int) =~= c.cards@);
            let ghost base = r@;
            if !holds && c.hidden_count <= c.cards.len() {
                let ghost pred = placeable_on(*last_card);
                let mut k: usize = c.hidden_count;
                while k < c.cards.len()
                    invariant
                        c.hidden_count <= k <= c.cards@.len(),
                        pred == placeable_on(*last_card),
                        r@ == base + c.cards@.subrange(c.hidden_count as int, k as int).filter(
                            pred,
                        ),
                    decreases c.cards@.len() - k,
                {
                    let ghost prefix = c.cards@.subrange(c.hidden_count as int, k as int);
                    proof {
                        assert(c.cards@.subrange(c.hidden_count as int, k + 1) =~= prefix.push(
                            c.cards@[k as int],
                        ));
                        prefix.lemma_filter_push(c.cards@[k as int], pred);
                    }
                    if can_place(&c.cards[k], last_card) {
                        r.push(c.cards[k]);
                    }
                    k = k + 1;
                    assert(r@ =~= base + c.cards@.subrange(c.hidden_count as int, k as int).filter(
                        pred,
                    ));
                }
            }
            proof {
                if !holds && c.hidden_count <= c.cards.len() {
                } else if holds {
                    assert(r@ =~= base + Seq::<Card>::empty());
                } else {
                    assert(c@.face_up_run() == Seq::<Card>::empty());
                    assert(r@ =~= base + Seq::<Card>::empty().filter(placeable_on(*last_card)));
                }
            }
            i = i + 1;
        }
        r
    }
    /// Every move that passes its checks, in lexicographic order of source
    /// column, source row and destination column.
    pub fn legal_moves(&self) -> (r: Vec<Move>)
        ensures
            forall|k: int| 0 <= k < r@.len() ==> is_legal(self@, #[trigger] r@[k]),
            forall|k1: int, k2: int| 0 <= k1 < k2 < r@.len() ==> move_lt(r@[k1], r@[k2]),
            forall|m: Move| is_legal(self@, m) ==> #[trigger] r@.contains(m),
    {
        let n = self.columns.len();
        let mut r: Vec<Move> = Vec::new();
        let mut s: usize = 0;
        while s < n
            invariant
                n == self@.len(),
                s <= n,
                forall|k: int|
                    0 <= k < r@.len() ==> is_legal(self@, #[trigger] r@[k]) && before(
                        r@[k],
                        s as int,
                        0,
                        0,
                    ),
                forall|k1: int, k2: int| 0 <= k1 < k2 < r@.len() ==> move_lt(r@[k1], r@[k2]),
                forall|m: Move|
                    is_legal(self@, m) && before(m, s as int, 0, 0) ==> #[trigger] r@.contains(m),
            decreases n - s,
        {
            let len = self.columns[s].cards.len();
            let mut row: usize = 0;
            while row < len
                invariant
                    n == self@.len(),
                    s < n,
                    len == self@[s as int].cards.len(),
                    row <= len,
                    forall|k: int|
                        0 <= k < r@.len() ==> is_legal(self@, #[trigger] r@[k]) && before(
                            r@[k],
                            s as int,
                            row as int,
                            0,
                        ),
                    forall|k1: int, k2: int| 0 <= k1 < k2 < r@.len() ==> move_lt(r@[k1], r@[k2]),
                    forall|m: Move|
                        is_legal(self@, m) && before(m, s as int, row as int, 0)
                            ==> #[trigger] r@.contains(m),
                decreases len - row,
            {
                let mut d: usize = 0;
                while d < n
                    invariant
                        n == self@.len(),
                        s < n,
                        row < len,
                        d <= n,
                        forall|k: int|
                            0 <= k < r@.len() ==> is_legal(self@, #[trigger] r@[k]) && before(
                                r@[k],
                                s as int,
                                row as int,
                                d as int,
                            ),
                        forall|k1: int, k2: int|
                            0 <= k1 < k2 < r@.len() ==> move_lt(r@[k1], r@[k2]),
                        forall|m: Move|
                            is_legal(self@, m) && before(m, s as int, row as int, d as int)
                                ==> #[trigger] r@.contains(m),
                    decreases n - d,
                {
                    let m = Move { source_column: s, source_row: row, destination_column: d };
                    let ghost old_r = r@;
                    if self.check_move(s, row, d).is_ok() {
                        r.push(m);
                        proof {
                            assert(r@[r@.len() - 1] == m);
                            assert forall|x: Move| old_r.contains(x) implies r@.contains(x) by {
                                let k = choose|k: int| 0 <= k < old_r.len() && old_r[k] == x;
                                assert(r@[k] == x);
                            }
                        }
                    }
                    proof {
                        assert forall|x: Move|
                            is_legal(self@, x) && before(x, s as int, row as int, d + 1)
                                implies #[trigger] r@.contains(x) by {
                            if before(x, s as int, row as int, d as int) {
                                assert(old_r.contains(x));
                                let k = choose|k: int| 0 <= k < old_r.len() && old_r[k] == x;
                                assert(r@[k] == x);
                            } else {
                                assert(x == m);
                                assert(r@[r@.len() - 1] == m);
                            }
                        }
                    }
                    d = d + 1;
                }
                row = row + 1;
            }
            s = s + 1;
        }
        r
    }
}

} // verus!
