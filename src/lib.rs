//! A Klondike solitaire tableau: the card catalog, the deck, the seven
//! columns with their face-down prefixes, and the rules that decide which
//! face-up runs may move where.
pub mod card;
pub mod deck;
pub mod engine;
pub mod laws;
pub mod tableau;
