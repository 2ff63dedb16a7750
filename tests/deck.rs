use klondike::card::{all_cards, Card, Suit};
use klondike::deck::Deck;

fn card(suit: Suit, rank: u8) -> Card {
    Card { suit, rank }
}

fn sort_key(c: &Card) -> usize {
    c.catalog_index()
}

/// The glyphs of the Unicode playing-card block, in catalog order.
fn glyph_table() -> Vec<char> {
    let mut glyphs = vec![];
    for c in all_cards() {
        let base: u32 = match c.suit {
            Suit::Spade => 0x1F0A0,
            Suit::Heart => 0x1F0B0,
            Suit::Diamond => 0x1F0C0,
            Suit::Club => 0x1F0D0,
        };
        let offset = if c.rank >= 12 { c.rank as u32 + 1 } else { c.rank as u32 };
        glyphs.push(char::from_u32(base + offset).unwrap());
    }
    glyphs
}

#[test]
fn new_deck_is_canonical_and_complete() {
    let deck = Deck::new();
    assert_eq!(deck.cards, all_cards());
    assert!(deck.is_complete());
}

#[test]
fn shuffle_permutes_the_deck() {
    let mut moved = false;
    for _ in 0..5 {
        let deck = Deck::new().shuffle();
        assert_eq!(deck.cards.len(), 52);
        assert!(deck.is_complete());
        let mut sorted = deck.cards.clone();
        sorted.sort_by_key(sort_key);
        assert_eq!(sorted, all_cards());
        if deck.cards != all_cards() {
            moved = true;
        }
    }
    assert!(moved);
}

#[test]
fn incomplete_decks_are_detected() {
    let mut short = Deck::new();
    short.cards.pop();
    assert!(!short.is_complete());

    let mut duplicated = Deck::new();
    duplicated.cards[51] = duplicated.cards[0];
    assert!(!duplicated.is_complete());

    let mut bad_rank = Deck::new();
    bad_rank.cards[10] = card(Suit::Club, 14);
    assert!(!bad_rank.is_complete());

    let mut zero_rank = Deck::new();
    zero_rank.cards[3] = card(Suit::Heart, 0);
    assert!(!zero_rank.is_complete());

    let mut long = Deck::new();
    long.cards.push(card(Suit::Club, 1));
    assert!(!long.is_complete());

    let mut reversed = Deck::new();
    reversed.cards.reverse();
    assert!(reversed.is_complete());
}

#[test]
fn card_from_char_finds_card_by_glyph() {
    let deck = Deck::new();
    let glyphs = glyph_table();
    assert_eq!(deck.card_from_char(&glyphs, '\u{1F0A1}'), Some(card(Suit::Spade, 1)));
    assert_eq!(deck.card_from_char(&glyphs, '\u{1F0BD}'), Some(card(Suit::Heart, 12)));
    assert_eq!(deck.card_from_char(&glyphs, '\u{1F0DE}'), Some(card(Suit::Club, 13)));
    assert_eq!(deck.card_from_char(&glyphs, 'x'), None);
    assert_eq!(deck.card_from_char(&vec![], '\u{1F0A1}'), None);
}
