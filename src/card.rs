use vstd::prelude::*;
use vstd::string::StringExecFns;

verus! {

/// The four suits, in catalog order.
#[derive(Clone, Copy, Debug, PartialEq, Eq, Structural)]
pub enum Suit {
    Club,
    Diamond,
    Heart,
    Spade,
}

/// The colour a suit is printed in.
#[derive(Clone, Copy, Debug, PartialEq, Eq, Structural)]
pub enum Color {
    Black,
    Red,
}

/// A playing card: a suit and a rank, 1 (ace) to 13 (king) for the cards of
/// the catalog.
#[derive(Clone, Copy, Debug, PartialEq, Eq, Structural)]
pub struct Card {
    pub suit: Suit,
    pub rank: u8,
}

/// Rank of an ace, the lowest card.
pub const ACE: u8 = 1;

/// Rank of a king, the highest card.
pub const KING: u8 = 13;

/// Number of cards in the catalog.
pub const DECK_SIZE: usize = 52;

/// Clubs and spades are black, diamonds and hearts red.
pub open spec fn spec_color_of(suit: Suit) -> Color {
    match suit {
        Suit::Club | Suit::Spade => Color::Black,
        Suit::Diamond | Suit::Heart => Color::Red,
    }
}

/// Position of a suit in catalog order.
pub open spec fn suit_index(suit: Suit) -> int {
    match suit {
        Suit::Club => 0,
        Suit::Diamond => 1,
        Suit::Heart => 2,
        Suit::Spade => 3,
    }
}

/// The suit at position `i` of catalog order.
pub open spec fn suit_at(i: int) -> Suit {
    if i == 0 {
        Suit::Club
    } else if i == 1 {
        Suit::Diamond
    } else if i == 2 {
        Suit::Heart
    } else {
        Suit::Spade
    }
}

impl Card {
    /// A card of the catalog: its rank lies between ace and king.
    pub open spec fn is_valid(self) -> bool {
        ACE <= self.rank <= KING
    }

    /// Position of the card in the canonical order (suit-major, rank-minor).
    pub open spec fn index(self) -> int {
        suit_index(self.suit) * 13 + self.rank - 1
    }
}

/// The `i`-th card of the canonical order.
pub open spec fn card_at(i: int) -> Card {
    Card { suit: suit_at(i / 13), rank: (i % 13 + 1) as u8 }
}

/// The 52 cards of the catalog in canonical order.
pub open spec fn canonical_cards() -> Seq<Card> {
    Seq::new(DECK_SIZE as nat, |i: int| card_at(i))
}

/// Whether `moving` may be laid on `target`: one rank lower and of the other
/// colour.
pub open spec fn spec_can_place(moving: Card, target: Card) -> bool {
    &&& moving.rank + 1 == target.rank
    &&& spec_color_of(moving.suit) != spec_color_of(target.suit)
}

/// A catalog card sits at its own index of the canonical order.
pub proof fn lemma_card_at_index(c: Card)
    requires
        c.is_valid(),
    ensures
        0 <= c.index() < DECK_SIZE,
        card_at(c.index()) == c,
{
}

/// Each position of the canonical order holds a catalog card whose index is
/// that position.
pub proof fn lemma_index_card_at(i: int)
    requires
        0 <= i < DECK_SIZE,
    ensures
        card_at(i).is_valid(),
        card_at(i).index() == i,
{
}

/// The colour of a suit: clubs and spades are black, diamonds and hearts red.
pub fn color_of(suit: Suit) -> (r: Color)
    ensures
        r == spec_color_of(suit),
{
    match suit {
        Suit::Club | Suit::Spade => Color::Black,
        Suit::Diamond | Suit::Heart => Color::Red,
    }
}

/// The rank of a card as an integer, 1 for an ace up to 13 for a king.
pub fn rank_value(card: &Card) -> (r: u8)
    ensures
        r == card.rank,
{
    card.rank
}

/// The single legality rule of the tableau: `moving` may be laid on `target`
/// exactly when it is one rank lower and of the other colour.
pub fn can_place(moving: &Card, target: &Card) -> (r: bool)
    ensures
        r == spec_can_place(*moving, *target),
{
    moving.rank < 255 && moving.rank + 1 == target.rank && color_of(moving.suit) != color_of(
        target.suit,
    )
}

fn suit_from_index(i: usize) -> (r: Suit)
    requires
        i < 4,
    ensures
        r == suit_at(i as int),
{
    if i == 0 {
        Suit::Club
    } else if i == 1 {
        Suit::Diamond
    } else if i == 2 {
        Suit::Heart
    } else {
        Suit::Spade
    }
}

/// All 52 cards of the catalog: clubs, diamonds, hearts, spades, each from
/// ace to king.
pub fn all_cards() -> (r: Vec<Card>)
    ensures
        r@ == canonical_cards(),
{
    let mut cards: Vec<Card> = Vec::new();
    let mut s: usize = 0;
    while s < 4
        invariant
            s <= 4,
            cards@.len() == 13 * s,
            forall|i: int| 0 <= i < cards@.len() ==> cards@[i] == card_at(i),
        decreases 4 - s,
    {
        let suit = suit_from_index(s);
        let mut rank: u8 = ACE;
        while rank <= KING
            invariant
                s < 4,
                suit == suit_at(s as int),
                ACE <= rank <= KING + 1,
                cards@.len() == 13 * s + rank - 1,
                forall|i: int| 0 <= i < cards@.len() ==> cards@[i] == card_at(i),
            decreases KING + 1 - rank,
        {
            proof {
                let i = 13 * s + rank - 1;
                assert(i / 13 == s && i % 13 == rank - 1) by (nonlinear_arith)
                    requires
                        i == 13 * s + rank - 1,
                        1 <= rank <= 13,
                ;
            }
            cards.push(Card { suit, rank });
            rank = rank + 1;
        }
        s = s + 1;
    }
    assert(cards@ =~= canonical_cards());
    cards
}

/// Upper-case English name of a rank, as Unicode names the cards.
pub open spec fn spec_rank_name(rank: u8) -> Seq<char> {
    if rank == 1 {
        "ACE"@
    } else if rank == 2 {
        "TWO"@
    } else if rank == 3 {
        "THREE"@
    } else if rank == 4 {
        "FOUR"@
    } else if rank == 5 {
        "FIVE"@
    } else if rank == 6 {
        "SIX"@
    } else if rank == 7 {
        "SEVEN"@
    } else if rank == 8 {
        "EIGHT"@
    } else if rank == 9 {
        "NINE"@
    } else if rank == 10 {
        "TEN"@
    } else if rank == 11 {
        "JACK"@
    } else if rank == 12 {
        "QUEEN"@
    } else {
        "KING"@
    }
}

/// Upper-case English name of a suit, in the singular.
pub open spec fn spec_suit_name(suit: Suit) -> Seq<char> {
    match suit {
        Suit::Club => "CLUB"@,
        Suit::Diamond => "DIAMOND"@,
        Suit::Heart => "HEART"@,
        Suit::Spade => "SPADE"@,
    }
}

/// The name Unicode gives the glyph of a card, e.g. `PLAYING CARD ACE OF SPADES`.
pub open spec fn spec_unicode_name(card: Card) -> Seq<char> {
    "PLAYING CARD "@ + spec_rank_name(card.rank) + " OF "@ + spec_suit_name(card.suit) + "S"@
}

/// The name of a rank, `ACE` to `KING`.
pub fn rank_name(rank: u8) -> (r: &'static str)
    requires
        ACE <= rank <= KING,
    ensures
        r@ == spec_rank_name(rank),
{
    if rank == 1 {
        "ACE"
    } else if rank == 2 {
        "TWO"
    } else if rank == 3 {
        "THREE"
    } else if rank == 4 {
        "FOUR"
    } else if rank == 5 {
        "FIVE"
    } else if rank == 6 {
        "SIX"
    } else if rank == 7 {
        "SEVEN"
    } else if rank == 8 {
        "EIGHT"
    } else if rank == 9 {
        "NINE"
    } else if rank == 10 {
        "TEN"
    } else if rank == 11 {
        "JACK"
    } else if rank == 12 {
        "QUEEN"
    } else {
        "KING"
    }
}

/// The name of a suit, `CLUB` to `SPADE`.
pub fn suit_name(suit: Suit) -> (r: &'static str)
    ensures
        r@ == spec_suit_name(suit),
{
    match suit {
        Suit::Club => "CLUB",
        Suit::Diamond => "DIAMOND",
        Suit::Heart => "HEART",
        Suit::Spade => "SPADE",
    }
}

impl Card {
    /// Position of a catalog card in the canonical order.
    pub fn catalog_index(&self) -> (r: usize)
        requires
            self.is_valid(),
        ensures
            r == self.index(),
            r < DECK_SIZE,
    {
        let base: usize = match self.suit {
            Suit::Club => 0,
            Suit::Diamond => 13,
            Suit::Heart => 26,
            Suit::Spade => 39,
        };
        base + (self.rank - 1) as usize
    }

    /// The Unicode name of this card's glyph, under which a character table
    /// can look it up.
    pub fn unicode_name(&self) -> (r: String)
        requires
            self.is_valid(),
        ensures
            r@ == spec_unicode_name(*self),
    {
        let mut name = String::from_str("PLAYING CARD ");
        name.append(rank_name(self.rank));
        name.append(" OF ");
        name.append(suit_name(self.suit));
        name.append("S");
        name
    }
}

} // verus!
