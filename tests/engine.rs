use klondike::card::{Card, Suit};
use klondike::deck::Deck;
use klondike::engine::{is_run, Move, MoveError};
use klondike::tableau::{deal_into_columns, new_game, Column, DeckIntegrityError, Tableau};

fn card(suit: Suit, rank: u8) -> Card {
    Card { suit, rank }
}

fn canonical_deal() -> Tableau {
    deal_into_columns(&Deck::new()).unwrap()
}

fn column(cards: Vec<Card>, hidden_count: usize) -> Column {
    Column { cards, hidden_count }
}

fn snapshot(t: &Tableau) -> Vec<(Vec<Card>, usize)> {
    t.columns.iter().map(|c| (c.cards.clone(), c.hidden_count)).collect()
}

fn all_cards_sorted(t: &Tableau, rest: &[Card]) -> Vec<usize> {
    let mut keys: Vec<usize> = t
        .columns
        .iter()
        .flat_map(|c| c.cards.iter().map(|x| x.catalog_index()))
        .chain(rest.iter().map(|x| x.catalog_index()))
        .collect();
    keys.sort();
    keys
}

#[test]
fn deal_layout_is_triangular() {
    let t = canonical_deal();
    assert_eq!(t.columns.len(), 7);
    let lens: Vec<usize> = t.columns.iter().map(|c| c.cards.len()).collect();
    let hidden: Vec<usize> = t.columns.iter().map(|c| c.hidden_count).collect();
    assert_eq!(lens, vec![1, 2, 3, 4, 5, 6, 7]);
    assert_eq!(hidden, vec![0, 1, 2, 3, 4, 5, 6]);
    assert_eq!(t.columns[0].cards, vec![card(Suit::Club, 1)]);
    assert_eq!(t.columns[1].cards, vec![card(Suit::Club, 2), card(Suit::Club, 3)]);
    assert_eq!(t.columns[4].cards[4], card(Suit::Diamond, 2));
}

#[test]
fn deal_rejects_broken_decks() {
    let mut short = Deck::new();
    short.cards.pop();
    assert!(matches!(deal_into_columns(&short), Err(DeckIntegrityError)));
    let mut duplicated = Deck::new();
    duplicated.cards[5] = duplicated.cards[6];
    assert!(matches!(deal_into_columns(&duplicated), Err(DeckIntegrityError)));
    let shuffled = Deck::new().shuffle();
    assert!(deal_into_columns(&shuffled).is_ok());
}

#[test]
fn structural_queries() {
    let t = canonical_deal();
    assert_eq!(t.top_card(6), Some(card(Suit::Heart, 2)));
    assert_eq!(t.top_card(5), Some(card(Suit::Diamond, 8)));
    assert!(t.is_face_up(6, 6));
    assert!(!t.is_face_up(6, 5));
    assert!(!t.is_face_up(6, 7));
    assert_eq!(t.face_up_run(3), vec![card(Suit::Club, 10)]);
    let empty = Tableau { columns: vec![column(vec![], 0)] };
    assert_eq!(empty.top_card(0), None);
    assert_eq!(empty.face_up_run(0), vec![]);
}

#[test]
fn end_to_end_same_colour_placement_is_refused() {
    let t = canonical_deal();
    assert_eq!(t.top_card(6), Some(card(Suit::Heart, 2)));
    assert_eq!(t.top_card(5), Some(card(Suit::Diamond, 8)));
    let before = snapshot(&t);
    assert!(matches!(t.apply_move(6, 6, 5), Err(MoveError::IllegalPlacement)));
    assert_eq!(snapshot(&t), before);
}

#[test]
fn move_errors_in_order() {
    let t = canonical_deal();
    assert!(matches!(t.apply_move(7, 0, 0), Err(MoveError::InvalidColumn)));
    assert!(matches!(t.apply_move(0, 0, 9), Err(MoveError::InvalidColumn)));
    assert!(matches!(t.apply_move(6, 5, 1), Err(MoveError::SourceNotFaceUp)));
    assert!(matches!(t.apply_move(6, 7, 1), Err(MoveError::SourceNotFaceUp)));
    assert!(matches!(t.apply_move(4, 4, 0), Err(MoveError::IllegalPlacement)));
    let same_colour = Tableau {
        columns: vec![
            column(vec![card(Suit::Spade, 9), card(Suit::Club, 5)], 0),
            column(vec![], 0),
        ],
    };
    assert!(matches!(same_colour.apply_move(0, 0, 1), Err(MoveError::InvalidRun)));
    assert!(same_colour.apply_move(0, 1, 1).is_ok());
    assert_eq!(same_colour.check_move(0, 0, 1), Err(MoveError::InvalidRun));
    assert_eq!(same_colour.check_move(0, 1, 1), Ok(()));
    let rising = Tableau {
        columns: vec![
            column(vec![card(Suit::Spade, 5), card(Suit::Heart, 9)], 0),
            column(vec![], 0),
        ],
    };
    assert_eq!(rising.check_move(0, 0, 1), Err(MoveError::InvalidRun));
    let equal_ranks = Tableau {
        columns: vec![
            column(vec![card(Suit::Spade, 9), card(Suit::Heart, 9)], 0),
            column(vec![], 0),
        ],
    };
    assert_eq!(equal_ranks.check_move(0, 0, 1), Err(MoveError::InvalidRun));
}

#[test]
fn failed_move_leaves_tableau_unchanged() {
    let t = canonical_deal();
    let before = snapshot(&t);
    assert!(t.apply_move(3, 3, 0).is_err());
    assert!(t.apply_move(2, 0, 0).is_err());
    assert_eq!(snapshot(&t), before);
}

#[test]
fn move_reveals_new_top_card() {
    let t = canonical_deal();
    let t2 = t.apply_move(4, 4, 1).unwrap();
    assert_eq!(t2.columns[4].cards.len(), 4);
    assert_eq!(t2.columns[4].hidden_count, 3);
    assert!(t2.is_face_up(4, 3));
    assert_eq!(
        t2.columns[1].cards,
        vec![card(Suit::Club, 2), card(Suit::Club, 3), card(Suit::Diamond, 2)]
    );
    assert_eq!(t2.columns[1].hidden_count, 1);
    assert_eq!(t.columns[4].cards.len(), 5);
    assert_eq!(t.columns[4].hidden_count, 4);
}

#[test]
fn move_leaving_face_up_cards_keeps_hidden_count() {
    let t = Tableau {
        columns: vec![
            column(
                vec![card(Suit::Club, 1), card(Suit::Heart, 9), card(Suit::Spade, 8)],
                1,
            ),
            column(vec![card(Suit::Heart, 9)], 0),
        ],
    };
    let t2 = t.apply_move(0, 2, 1).unwrap();
    assert_eq!(t2.columns[0].cards.len(), 2);
    assert_eq!(t2.columns[0].hidden_count, 1);
    assert_eq!(t2.columns[1].cards, vec![card(Suit::Heart, 9), card(Suit::Spade, 8)]);
}

#[test]
fn empty_column_takes_any_face_up_card() {
    let t = canonical_deal();
    let t2 = t.apply_move(4, 4, 1).unwrap();
    let t3 = t2.apply_move(0, 0, 1).unwrap();
    assert_eq!(t3.columns[0].cards, vec![]);
    assert_eq!(t3.columns[0].hidden_count, 0);
    for source in 1..7 {
        let top = t3.columns[source].cards.len() - 1;
        assert!(t3.apply_move(source, top, 0).is_ok());
    }
    let t4 = t3.apply_move(1, 1, 0).unwrap();
    assert_eq!(
        t4.columns[0].cards,
        vec![card(Suit::Club, 3), card(Suit::Diamond, 2), card(Suit::Club, 1)]
    );
    assert_eq!(t4.columns[1].cards, vec![card(Suit::Club, 2)]);
    assert_eq!(t4.columns[1].hidden_count, 0);
}

#[test]
fn moves_conserve_cards() {
    let deck = Deck::new();
    let t = deal_into_columns(&deck).unwrap();
    let rest = &deck.cards[28..];
    let expected: Vec<usize> = (0..52).collect();
    assert_eq!(all_cards_sorted(&t, rest), expected);
    let t2 = t.apply_move(4, 4, 1).unwrap();
    let t3 = t2.apply_move(0, 0, 1).unwrap();
    let t4 = t3.apply_move(1, 1, 0).unwrap();
    for s in [&t2, &t3, &t4] {
        assert_eq!(all_cards_sorted(s, rest), expected);
    }
}

#[test]
fn legal_targets_and_movable_cards() {
    let t = canonical_deal();
    assert_eq!(t.legal_targets_for(&card(Suit::Club, 1)), vec![4, 6]);
    assert_eq!(t.legal_targets_for(&card(Suit::Diamond, 2)), vec![1]);
    assert_eq!(t.legal_targets_for(&card(Suit::Spade, 13)), Vec::<usize>::new());
    assert_eq!(
        t.movable_cards(),
        vec![card(Suit::Club, 1), card(Suit::Diamond, 2), card(Suit::Heart, 2)]
    );
    assert!(t.accepts(1, &card(Suit::Heart, 2)));
    assert!(!t.accepts(1, &card(Suit::Spade, 2)));
}

#[test]
fn empty_columns_are_targets_for_everything() {
    let t = Tableau {
        columns: vec![
            column(vec![card(Suit::Spade, 13)], 0),
            column(vec![], 0),
            column(vec![card(Suit::Heart, 4)], 0),
        ],
    };
    assert_eq!(t.legal_targets_for(&card(Suit::Spade, 3)), vec![1, 2]);
    assert_eq!(t.movable_cards(), vec![card(Suit::Spade, 13), card(Suit::Heart, 4)]);
}

#[test]
fn next_cards_lists_cards_for_a_target() {
    let t = canonical_deal();
    assert_eq!(
        t.next_cards(&card(Suit::Club, 3)),
        vec![card(Suit::Diamond, 2), card(Suit::Heart, 2)]
    );
    assert_eq!(t.next_cards(&card(Suit::Diamond, 2)), vec![card(Suit::Club, 1)]);
    assert_eq!(t.next_cards(&card(Suit::Club, 1)), vec![]);
}

#[test]
fn legal_moves_of_the_canonical_deal() {
    let t = canonical_deal();
    let m = |s, r, d| Move { source_column: s, source_row: r, destination_column: d };
    assert_eq!(t.legal_moves(), vec![m(0, 0, 4), m(0, 0, 6), m(4, 4, 1), m(6, 6, 1)]);
    for mv in t.legal_moves() {
        assert!(t.apply_move(mv.source_column, mv.source_row, mv.destination_column).is_ok());
    }
}

#[test]
fn runs_descend_and_alternate() {
    let run = vec![card(Suit::Spade, 9), card(Suit::Heart, 8), card(Suit::Club, 7)];
    assert!(is_run(&run, 0));
    assert!(is_run(&run, 2));
    assert!(is_run(&run, 5));
    let broken = vec![card(Suit::Spade, 9), card(Suit::Club, 8), card(Suit::Heart, 7)];
    assert!(!is_run(&broken, 0));
    assert!(is_run(&broken, 1));
    let gapped = vec![card(Suit::Spade, 9), card(Suit::Heart, 7), card(Suit::Club, 2)];
    assert!(is_run(&gapped, 0));
    let rising = vec![card(Suit::Spade, 7), card(Suit::Heart, 9)];
    assert!(!is_run(&rising, 0));
    let level = vec![card(Suit::Spade, 7), card(Suit::Heart, 7)];
    assert!(!is_run(&level, 0));
}

#[test]
fn column_copy_is_equal() {
    let c = column(vec![card(Suit::Spade, 9), card(Suit::Heart, 8)], 1);
    let d = c.copy();
    assert_eq!(d.cards, c.cards);
    assert_eq!(d.hidden_count, 1);
}

#[test]
fn find_card_locates_cards() {
    let t = canonical_deal();
    assert_eq!(t.find_card(&card(Suit::Club, 1)), Some((0, 0)));
    assert_eq!(t.find_card(&card(Suit::Heart, 2)), Some((6, 6)));
    assert_eq!(t.find_card(&card(Suit::Diamond, 5)), Some((5, 2)));
    assert_eq!(t.find_card(&card(Suit::Spade, 13)), None);
}

#[test]
fn new_game_deals_a_shuffled_complete_deck() {
    let (deck, t) = new_game();
    assert!(deck.is_complete());
    assert_eq!(t.columns.len(), 7);
    let mut start = 0;
    for (i, c) in t.columns.iter().enumerate() {
        assert_eq!(c.hidden_count, i);
        assert_eq!(c.cards, deck.cards[start..start + i + 1].to_vec());
        start += i + 1;
    }
}

#[test]
fn queries_on_missing_columns() {
    let t = canonical_deal();
    assert_eq!(t.top_card(7), None);
    assert!(!t.is_face_up(7, 0));
    assert_eq!(t.face_up_run(9), vec![]);
    assert!(!t.accepts(7, &card(Suit::Heart, 2)));
}

#[test]
fn run_with_rank_gaps_moves_onto_empty_column() {
    let t = Tableau {
        columns: vec![
            column(vec![card(Suit::Spade, 9), card(Suit::Heart, 7)], 0),
            column(vec![], 0),
        ],
    };
    let t2 = t.apply_move(0, 0, 1).unwrap();
    assert_eq!(t2.columns[0].cards, vec![]);
    assert_eq!(t2.columns[0].hidden_count, 0);
    assert_eq!(t2.columns[1].cards, vec![card(Suit::Spade, 9), card(Suit::Heart, 7)]);
    assert_eq!(t2.columns[1].hidden_count, 0);
}

#[test]
fn run_leaving_only_hidden_cards_reveals_one() {
    let t = Tableau {
        columns: vec![
            column(vec![card(Suit::Club, 2), card(Suit::Spade, 9), card(Suit::Heart, 7)], 1),
            column(vec![], 0),
        ],
    };
    let t2 = t.apply_move(0, 1, 1).unwrap();
    assert_eq!(t2.columns[0].cards, vec![card(Suit::Club, 2)]);
    assert_eq!(t2.columns[0].hidden_count, 0);
    assert_eq!(t2.columns[1].cards, vec![card(Suit::Spade, 9), card(Suit::Heart, 7)]);
}

#[test]
fn run_leaving_face_up_cards_keeps_hidden_count() {
    let t = Tableau {
        columns: vec![
            column(vec![card(Suit::Diamond, 10), card(Suit::Spade, 9), card(Suit::Heart, 7)], 0),
            column(vec![], 0),
        ],
    };
    let t2 = t.apply_move(0, 1, 1).unwrap();
    assert_eq!(t2.columns[0].cards, vec![card(Suit::Diamond, 10)]);
    assert_eq!(t2.columns[0].hidden_count, 0);
}

#[test]
fn valid_run_onto_wrong_top_is_illegal_placement() {
    let t = Tableau {
        columns: vec![
            column(vec![card(Suit::Spade, 9), card(Suit::Heart, 7)], 0),
            column(vec![card(Suit::Club, 2)], 0),
        ],
    };
    let before = snapshot(&t);
    assert!(matches!(t.apply_move(0, 0, 1), Err(MoveError::IllegalPlacement)));
    assert_eq!(snapshot(&t), before);
}

#[test]
fn face_down_top_is_no_target() {
    let t = Tableau {
        columns: vec![
            column(vec![card(Suit::Heart, 4)], 1),
            column(vec![card(Suit::Diamond, 4)], 0),
            column(vec![card(Suit::Spade, 3)], 0),
        ],
    };
    assert_eq!(t.legal_targets_for(&card(Suit::Spade, 3)), vec![1]);
    assert!(t.accepts(0, &card(Suit::Spade, 3)));
    assert!(!t.is_target(0, &card(Suit::Spade, 3)));
    assert!(t.is_target(1, &card(Suit::Spade, 3)));
    assert_eq!(t.movable_cards(), vec![card(Suit::Spade, 3)]);
}
