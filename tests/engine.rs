use freecli::card::{Card, Suit};
use freecli::gamestate::GameState;
use freecli::moves::{LocationType, Move};

fn card(rank: u8, suit: Suit) -> Card {
    Card::new(rank, suit)
}

fn empty_game() -> GameState {
    GameState {
        freecells: [None; 4],
        foundations: [None; 4],
        columns: Default::default(),
        history: Vec::new(),
        seed: 0,
        last_move_error: None,
    }
}

fn mv(from: LocationType, from_idx: usize, to: LocationType, to_idx: usize) -> Move {
    Move { from, from_idx, to, to_idx }
}

fn same_board(a: &GameState, b: &GameState) -> bool {
    a.freecells == b.freecells && a.foundations == b.foundations && a.columns == b.columns
}

fn same_game(a: &GameState, b: &GameState) -> bool {
    same_board(a, b)
        && a.history == b.history
        && a.seed == b.seed
        && a.last_move_error == b.last_move_error
}

#[test]
fn stacking_red_five_on_black_six() {
    assert!(card(5, Suit::Hearts).can_stack_onto(&card(6, Suit::Spades)));
}

#[test]
fn stacking_same_colour_refused() {
    assert!(!card(5, Suit::Hearts).can_stack_onto(&card(6, Suit::Diamonds)));
}

#[test]
fn stacking_rank_gap_refused() {
    assert!(!card(5, Suit::Hearts).can_stack_onto(&card(7, Suit::Spades)));
}

#[test]
fn stacking_black_on_black_refused() {
    assert!(!card(5, Suit::Clubs).can_stack_onto(&card(6, Suit::Spades)));
}

#[test]
fn stacking_onto_placeholder_refused() {
    assert!(!card(0, Suit::Hearts).can_stack_onto(&card(0, Suit::Blank)));
    assert!(!card(255, Suit::Hearts).can_stack_onto(&card(0, Suit::Spades)));
}

#[test]
fn colour_classification() {
    assert!(card(1, Suit::Hearts).is_red());
    assert!(card(1, Suit::Diamonds).is_red());
    assert!(!card(1, Suit::Spades).is_red());
    assert!(!card(1, Suit::Clubs).is_red());
}

#[test]
fn display_labels() {
    assert_eq!(card(1, Suit::Spades).display_string(), "  A\u{2660}");
    assert_eq!(card(10, Suit::Hearts).display_string(), " 10\u{2665}");
    assert_eq!(card(12, Suit::Diamonds).display_string(), "  Q\u{2666}");
    assert_eq!(card(7, Suit::Clubs).display_string(), "  7\u{2663}");
    assert_eq!(card(0, Suit::Blank).display_string(), "    ");
}

#[test]
fn shuffled_deck_is_complete() {
    for seed in [0u64, 1, 42, u64::MAX] {
        let deck = GameState::generate_shuffled_deck(seed);
        assert_eq!(deck.len(), 52);
        for suit in [Suit::Spades, Suit::Hearts, Suit::Diamonds, Suit::Clubs] {
            for rank in 1..=13u8 {
                let n = deck.iter().filter(|c| c.rank == rank && c.suit == suit).count();
                assert_eq!(n, 1);
            }
        }
    }
}

#[test]
fn shuffled_deck_is_reordered() {
    let mut fresh = Vec::new();
    for suit in [Suit::Spades, Suit::Hearts, Suit::Clubs, Suit::Diamonds] {
        for rank in 1..=13u8 {
            fresh.push(card(rank, suit));
        }
    }
    assert_ne!(GameState::generate_shuffled_deck(7), fresh);
}

#[test]
fn shuffled_deck_differs_between_seeds() {
    assert_ne!(GameState::generate_shuffled_deck(1), GameState::generate_shuffled_deck(2));
}

#[test]
fn reset_deals_seven_and_six() {
    let g = GameState::reset(Some(1234)).unwrap();
    let sizes: Vec<usize> = g.columns.iter().map(|c| c.len()).collect();
    assert_eq!(sizes, vec![7, 7, 7, 7, 6, 6, 6, 6]);
    assert!(g.freecells.iter().all(|c| c.is_none()));
    assert!(g.foundations.iter().all(|c| c.is_none()));
    assert!(g.history.is_empty());
    assert_eq!(g.seed, 1234);
    assert!(g.last_move_error.is_none());
}

#[test]
fn reset_deals_round_robin() {
    let g = GameState::reset(Some(99)).unwrap();
    let deck = GameState::generate_shuffled_deck(99);
    for (i, c) in deck.iter().enumerate() {
        assert_eq!(g.columns[i % 8][i / 8], *c);
    }
}

#[test]
fn reset_is_deterministic() {
    let a = GameState::reset(Some(2024)).unwrap();
    let b = GameState::reset(Some(2024)).unwrap();
    assert!(same_board(&a, &b));
}

#[test]
fn reset_without_seed_records_one() {
    let g = GameState::reset(None).unwrap();
    let again = GameState::reset(Some(g.seed)).unwrap();
    assert!(same_board(&g, &again));
}

#[test]
fn foundation_takes_ace_on_empty() {
    let mut g = empty_game();
    g.freecells[0] = Some(card(1, Suit::Hearts));
    assert_eq!(g.apply_move(mv(LocationType::Freecell, 0, LocationType::Foundation, 0)), Ok(()));
    assert_eq!(g.foundations[1], Some(card(1, Suit::Hearts)));
    assert_eq!(g.freecells[0], None);
    assert_eq!(g.history, vec![mv(LocationType::Freecell, 0, LocationType::Foundation, 1)]);
}

#[test]
fn foundation_refuses_three_on_empty() {
    let mut g = empty_game();
    g.columns[2].push(card(3, Suit::Clubs));
    let r = g.apply_move(mv(LocationType::Column, 2, LocationType::Foundation, 0));
    assert_eq!(r, Err("Invalid foundation move!".to_string()));
    assert_eq!(g.columns[2], vec![card(3, Suit::Clubs)]);
}

#[test]
fn foundation_takes_two_on_ace() {
    let mut g = empty_game();
    g.foundations[0] = Some(card(1, Suit::Spades));
    g.columns[0].push(card(2, Suit::Spades));
    assert_eq!(g.apply_move(mv(LocationType::Column, 0, LocationType::Foundation, 3)), Ok(()));
    assert_eq!(g.foundations[0], Some(card(2, Suit::Spades)));
    assert_eq!(g.history[0].to_idx, 0);
}

#[test]
fn foundation_piles_are_per_suit() {
    let mut g = empty_game();
    g.foundations[0] = Some(card(1, Suit::Spades));
    g.columns[0].push(card(2, Suit::Hearts));
    let r = g.apply_move(mv(LocationType::Column, 0, LocationType::Foundation, 0));
    assert_eq!(r, Err("Invalid foundation move!".to_string()));
    g.foundations[1] = Some(card(1, Suit::Hearts));
    assert_eq!(g.apply_move(mv(LocationType::Column, 0, LocationType::Foundation, 0)), Ok(()));
    assert_eq!(g.foundations[0], Some(card(1, Suit::Spades)));
    assert_eq!(g.foundations[1], Some(card(2, Suit::Hearts)));
}

#[test]
fn illegal_move_leaves_game_unchanged() {
    let mut g = GameState::reset(Some(5)).unwrap();
    g.last_move_error = Some("earlier".to_string());
    let before = g.clone();
    let r = g.apply_move(mv(LocationType::Freecell, 0, LocationType::Column, 0));
    assert_eq!(r, Err("Freecell is empty.".to_string()));
    assert!(same_game(&g, &before));
    let r = g.apply_move(mv(LocationType::Foundation, 0, LocationType::Column, 0));
    assert_eq!(r, Err("Unsupported move type".to_string()));
    assert!(same_game(&g, &before));
}

#[test]
fn check_move_reasons() {
    let mut g = empty_game();
    g.columns[0].push(card(9, Suit::Spades));
    g.columns[1].push(card(9, Suit::Hearts));
    g.freecells[1] = Some(card(4, Suit::Clubs));
    let cases = [
        (mv(LocationType::Column, 8, LocationType::Column, 0), "Invalid source column."),
        (mv(LocationType::Column, 0, LocationType::Column, 9), "Invalid destination column."),
        (mv(LocationType::Column, 3, LocationType::Column, 0), "Source column is empty."),
        (mv(LocationType::Column, 0, LocationType::Column, 1), "Illegal move, cannot stack."),
        (mv(LocationType::Column, 0, LocationType::Freecell, 4), "Invalid freecell index."),
        (mv(LocationType::Column, 0, LocationType::Freecell, 1), "Freecell is occupied!"),
        (mv(LocationType::Column, 8, LocationType::Freecell, 0), "Invalid source column."),
        (mv(LocationType::Column, 5, LocationType::Freecell, 0), "Column is empty."),
        (mv(LocationType::Freecell, 4, LocationType::Column, 0), "Invalid freecell"),
        (mv(LocationType::Freecell, 1, LocationType::Column, 8), "Invalid destination column."),
        (mv(LocationType::Freecell, 0, LocationType::Column, 0), "Freecell is empty."),
        (mv(LocationType::Freecell, 1, LocationType::Column, 0), "Illegal move, cannot stack."),
        (mv(LocationType::Column, 9, LocationType::Foundation, 0), "Invalid source column."),
        (mv(LocationType::Column, 4, LocationType::Foundation, 0), "Source column is empty."),
        (mv(LocationType::Column, 0, LocationType::Foundation, 0), "Invalid foundation move!"),
        (mv(LocationType::Freecell, 7, LocationType::Foundation, 0), "Invalid freecell index."),
        (mv(LocationType::Freecell, 2, LocationType::Foundation, 0), "Freecell is empty."),
        (mv(LocationType::Freecell, 1, LocationType::Foundation, 0), "Invalid foundation move!"),
        (mv(LocationType::Freecell, 1, LocationType::Freecell, 0), "Unsupported move type"),
        (mv(LocationType::Foundation, 0, LocationType::Column, 0), "Unsupported move type"),
    ];
    for (m, reason) in cases {
        assert_eq!(g.check_move(&m), Err(reason.to_string()));
    }
    g.columns[2].push(card(1, Suit::Blank));
    assert_eq!(
        g.check_move(&mv(LocationType::Column, 2, LocationType::Foundation, 0)),
        Err("Invalid source location for a move to foundation".to_string())
    );
}

#[test]
fn legal_moves_of_each_kind() {
    let mut g = empty_game();
    g.columns[0].push(card(9, Suit::Spades));
    g.columns[1].push(card(8, Suit::Hearts));
    assert_eq!(g.check_move(&mv(LocationType::Column, 1, LocationType::Column, 0)), Ok(()));
    assert_eq!(g.apply_move(mv(LocationType::Column, 1, LocationType::Column, 0)), Ok(()));
    assert_eq!(g.columns[0], vec![card(9, Suit::Spades), card(8, Suit::Hearts)]);
    assert!(g.columns[1].is_empty());
    assert_eq!(g.apply_move(mv(LocationType::Column, 0, LocationType::Freecell, 3)), Ok(()));
    assert_eq!(g.freecells[3], Some(card(8, Suit::Hearts)));
    assert_eq!(g.apply_move(mv(LocationType::Freecell, 3, LocationType::Column, 6)), Ok(()));
    assert_eq!(g.columns[6], vec![card(8, Suit::Hearts)]);
    assert_eq!(g.history.len(), 3);
    assert_eq!(g.get_last_move(), Some(&mv(LocationType::Freecell, 3, LocationType::Column, 6)));
}

#[test]
fn undo_restores_each_kind_of_move() {
    let mut g = empty_game();
    g.columns[0].push(card(9, Suit::Spades));
    g.columns[1].push(card(8, Suit::Hearts));
    g.columns[2].push(card(1, Suit::Clubs));
    g.columns[3].push(card(2, Suit::Clubs));
    let moves = [
        mv(LocationType::Column, 1, LocationType::Column, 0),
        mv(LocationType::Column, 0, LocationType::Freecell, 2),
        mv(LocationType::Freecell, 2, LocationType::Column, 5),
        mv(LocationType::Column, 2, LocationType::Foundation, 0),
        mv(LocationType::Column, 3, LocationType::Foundation, 0),
    ];
    let mut states = vec![g.clone()];
    for m in moves {
        assert_eq!(g.apply_move(m), Ok(()));
        states.push(g.clone());
    }
    assert_eq!(g.foundations[3], Some(card(2, Suit::Clubs)));
    for k in (0..moves.len()).rev() {
        let undone = g.undo().unwrap().unwrap();
        assert_eq!(undone.from, moves[k].from);
        assert!(same_board(&g, &states[k]));
        assert_eq!(g.history, states[k].history);
    }
    assert_eq!(g.undo(), Ok(None));
    assert!(same_board(&g, &states[0]));
}

#[test]
fn undo_on_empty_history_changes_nothing() {
    let mut g = GameState::reset(Some(3)).unwrap();
    let before = g.clone();
    assert_eq!(g.undo(), Ok(None));
    assert!(same_game(&g, &before));
}

#[test]
fn undo_refused_keeps_history() {
    let mut g = empty_game();
    g.history.push(mv(LocationType::Column, 0, LocationType::Column, 1));
    let before = g.clone();
    assert!(g.undo().is_err());
    assert!(same_game(&g, &before));
}

#[test]
fn force_move_ignores_stacking() {
    let mut g = empty_game();
    g.columns[0].push(card(2, Suit::Hearts));
    g.columns[1].push(card(9, Suit::Hearts));
    assert_eq!(g.force_move(mv(LocationType::Column, 1, LocationType::Column, 0)), Ok(()));
    assert_eq!(g.columns[0], vec![card(2, Suit::Hearts), card(9, Suit::Hearts)]);
    assert!(g.history.is_empty());
}

#[test]
fn force_move_keeps_structure() {
    let mut g = empty_game();
    g.columns[0].push(card(2, Suit::Hearts));
    g.freecells[1] = Some(card(5, Suit::Clubs));
    let before = g.clone();
    assert!(g.force_move(mv(LocationType::Column, 0, LocationType::Freecell, 1)).is_err());
    assert!(g.force_move(mv(LocationType::Column, 3, LocationType::Freecell, 0)).is_err());
    assert!(g.force_move(mv(LocationType::Column, 0, LocationType::Column, 8)).is_err());
    assert!(g.force_move(mv(LocationType::Column, 0, LocationType::Foundation, 0)).is_err());
    assert!(same_game(&g, &before));
}

#[test]
fn pop_and_take_report_empty_sources() {
    let mut g = empty_game();
    assert_eq!(g.pop_card_from_column(0), Err("Source column is empty.".to_string()));
    assert_eq!(g.pop_card_from_column(8), Err("Invalid source column".to_string()));
    assert_eq!(g.take_card_from_freecell(0), Err("Freecell is empty.".to_string()));
    assert_eq!(g.take_card_from_freecell(4), Err("Invalid freecell index.".to_string()));
    g.columns[4].push(card(6, Suit::Diamonds));
    g.freecells[2] = Some(card(7, Suit::Spades));
    assert_eq!(g.pop_card_from_column(4), Ok(card(6, Suit::Diamonds)));
    assert_eq!(g.take_card_from_freecell(2), Ok(card(7, Suit::Spades)));
    assert!(g.columns[4].is_empty());
    assert_eq!(g.freecells[2], None);
}

#[test]
fn win_needs_empty_columns_and_freecells() {
    let mut g = empty_game();
    assert!(g.is_win());
    g.foundations[2] = Some(card(4, Suit::Diamonds));
    assert!(g.is_win());
    g.freecells[3] = Some(card(1, Suit::Clubs));
    assert!(!g.is_win());
    g.freecells[3] = None;
    g.columns[7].push(card(1, Suit::Clubs));
    assert!(!g.is_win());
    assert!(!GameState::reset(Some(11)).unwrap().is_win());
}

#[test]
fn slots_render_with_placeholders() {
    let mut g = empty_game();
    g.freecells[1] = Some(card(3, Suit::Hearts));
    g.foundations[0] = Some(card(2, Suit::Spades));
    let blank = card(0, Suit::Blank);
    assert_eq!(g.freecells_as_vec(), vec![blank, card(3, Suit::Hearts), blank, blank]);
    assert_eq!(g.foundation_as_vec(), vec![card(2, Suit::Spades), blank, blank, blank]);
}

#[test]
fn record_move_appends() {
    let mut g = empty_game();
    let m = mv(LocationType::Column, 1, LocationType::Freecell, 2);
    assert_eq!(g.record_move(&m), Ok(()));
    assert_eq!(g.history, vec![m]);
    assert_eq!(g.get_last_move(), Some(&m));
}

fn all_cards(g: &GameState) -> Vec<Card> {
    let mut out: Vec<Card> = Vec::new();
    for col in &g.columns {
        out.extend(col.iter().copied());
    }
    for c in g.freecells.iter().flatten() {
        out.push(*c);
    }
    for top in g.foundations.iter().flatten() {
        for rank in 1..=top.rank {
            out.push(card(rank, top.suit));
        }
    }
    out
}

fn holds_full_deck(g: &GameState) -> bool {
    let cards = all_cards(g);
    if cards.len() != 52 {
        return false;
    }
    [Suit::Spades, Suit::Hearts, Suit::Diamonds, Suit::Clubs].iter().all(|s| {
        (1..=13u8).all(|r| cards.iter().filter(|c| c.rank == r && c.suit == *s).count() == 1)
    })
}

#[test]
fn play_and_undo_keep_every_card() {
    let start = GameState::reset(Some(31337)).unwrap();
    let mut g = start.clone();
    assert!(holds_full_deck(&g));
    let mut candidates = Vec::new();
    for f in 0..8 {
        candidates.push(mv(LocationType::Column, f, LocationType::Foundation, 0));
        for t in 0..8 {
            candidates.push(mv(LocationType::Column, f, LocationType::Column, t));
        }
        for t in 0..4 {
            candidates.push(mv(LocationType::Column, f, LocationType::Freecell, t));
        }
    }
    for f in 0..4 {
        candidates.push(mv(LocationType::Freecell, f, LocationType::Foundation, 0));
        for t in 0..8 {
            candidates.push(mv(LocationType::Freecell, f, LocationType::Column, t));
        }
    }
    let mut applied = 0;
    for round in 0..60 {
        for (k, m) in candidates.iter().enumerate() {
            if (k + round) % 7 != 0 {
                continue;
            }
            if g.apply_move(*m).is_ok() {
                applied += 1;
                assert!(holds_full_deck(&g));
            }
        }
    }
    assert!(applied > 0);
    assert_eq!(g.history.len(), applied);
    while let Ok(Some(_)) = g.undo() {
        assert!(holds_full_deck(&g));
    }
    assert!(g.history.is_empty());
    assert!(same_board(&g, &start));
}

#[test]
fn deal_places_cards_round_robin() {
    let mut deck = Vec::new();
    for suit in [Suit::Spades, Suit::Hearts, Suit::Clubs, Suit::Diamonds] {
        for rank in 1..=13u8 {
            deck.push(card(rank, suit));
        }
    }
    let g = GameState::deal(&deck, 77);
    assert_eq!(g.seed, 77);
    assert_eq!(
        g.columns[0],
        vec![
            card(1, Suit::Spades),
            card(9, Suit::Spades),
            card(4, Suit::Hearts),
            card(12, Suit::Hearts),
            card(7, Suit::Clubs),
            card(2, Suit::Diamonds),
            card(10, Suit::Diamonds),
        ]
    );
    assert_eq!(
        g.columns[7],
        vec![
            card(8, Suit::Spades),
            card(3, Suit::Hearts),
            card(11, Suit::Hearts),
            card(6, Suit::Clubs),
            card(1, Suit::Diamonds),
            card(9, Suit::Diamonds),
        ]
    );
    assert!(g.freecells.iter().all(|c| c.is_none()));
    assert!(g.foundations.iter().all(|c| c.is_none()));
    assert!(g.history.is_empty());
}

#[test]
fn deal_of_a_short_deck() {
    let deck = vec![card(2, Suit::Clubs), card(3, Suit::Hearts), card(4, Suit::Spades)];
    let g = GameState::deal(&deck, 1);
    assert_eq!(g.columns[0], vec![card(2, Suit::Clubs)]);
    assert_eq!(g.columns[1], vec![card(3, Suit::Hearts)]);
    assert_eq!(g.columns[2], vec![card(4, Suit::Spades)]);
    assert!(g.columns[3..].iter().all(|c| c.is_empty()));
}

#[test]
fn feedback_line_prefers_the_error() {
    let mut g = empty_game();
    assert_eq!(g.str_last_move(), "");
    g.history.push(mv(LocationType::Column, 2, LocationType::Column, 5));
    assert_eq!(g.str_last_move(), "Last Move: C2 -> C5");
    g.last_move_error = Some("Move failed: Freecell is occupied!".to_string());
    assert_eq!(g.str_last_move(), "Move failed: Freecell is occupied!");
}
