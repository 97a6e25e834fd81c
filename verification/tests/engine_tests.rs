use chess_ai_rust::board::{Color, Position, Role};
use chess_ai_rust::eval::{count_phase, evaluate, piece_value, pst_index, pst_value};
use chess_ai_rust::rules::{analyze, fen, parse_fen, parse_uci_move, play, start_position, swap_turn};
use chess_ai_rust::search::{find_best_reply, find_best_reply_impl, forcing_swing, quiesce};
use chess_ai_rust::search::{SearchContext, SearchError, TTFlag};
use chess_ai_rust::see::see;
use chess_ai_rust::variant::Variant;
use chess_ai_rust::zobrist::{xorshift64, zobrist_hash, zobrist_keys, ZOBRIST_SEED};

fn pos_from_fen(fen: &str) -> Position {
    parse_fen(Variant::Standard, fen).unwrap()
}

fn legal_uci(pos: &Position) -> Vec<String> {
    analyze(pos).moves.iter().map(|m| m.to_uci()).collect()
}

/// The square index of a square name such as `e4`.
fn sq(name: &str) -> u8 {
    let b = name.as_bytes();
    (b[1] - b'1') * 8 + (b[0] - b'a')
}

const START: &str = "rnbqkbnr/pppppppp/8/8/8/8/PPPPPPPP/RNBQKBNR w KQkq - 0 1";

// ── Evaluation ───────────────────────────────────────────────────────

#[test]
fn test_evaluate_symmetry() {
    // The starting position is symmetric, so it scores zero for the side
    // to move.
    let pos = pos_from_fen(START);
    assert_eq!(evaluate(&pos), 0);

    // An asymmetric position and its mirror image, seen from the side to
    // move, score the same.
    let pos2 = pos_from_fen("rnbqkbnr/pppp1ppp/8/4p3/4P3/5N2/PPPP1PPP/RNBQKB1R w KQkq - 1 2");
    let pos2_mirrored =
        pos_from_fen("rnbqkb1r/pppp1ppp/5n2/4p3/4P3/8/PPPP1PPP/RNBQKBNR b KQkq - 1 2");
    assert_eq!(
        evaluate(&pos2),
        evaluate(&pos2_mirrored),
        "Symmetry failure: {} vs {}",
        evaluate(&pos2),
        evaluate(&pos2_mirrored)
    );
}

#[test]
fn test_pst_knight_center_vs_edge() {
    let pos_center = pos_from_fen("k7/8/8/8/4N3/8/8/K7 w - - 0 1");
    let pos_edge = pos_from_fen("k7/8/8/8/8/8/8/N3K3 w - - 0 1");
    let score_center = evaluate(&pos_center);
    let score_edge = evaluate(&pos_edge);
    assert!(
        score_center > score_edge,
        "Knight in center ({score_center}) should score higher than on edge ({score_edge})"
    );
}

#[test]
fn test_pst_pawn_advancement() {
    let pos_e2 = pos_from_fen("k7/8/8/8/8/8/4P3/4K3 w - - 0 1");
    let pos_e7 = pos_from_fen("k7/4P3/8/8/8/8/8/4K3 w - - 0 1");
    let score_e2 = evaluate(&pos_e2);
    let score_e7 = evaluate(&pos_e7);
    assert!(
        score_e7 > score_e2,
        "Advanced pawn ({score_e7}) should score higher than starting pawn ({score_e2})"
    );
}

#[test]
fn test_bishop_pair_bonus() {
    let pos_pair = pos_from_fen("k7/8/8/4BB2/8/8/8/4K3 w - - 0 1");
    let pos_no_pair = pos_from_fen("k7/8/8/4BN2/8/8/8/4K3 w - - 0 1");
    let diff = evaluate(&pos_pair) - evaluate(&pos_no_pair);
    assert!(diff >= 30, "Bishop pair bonus should be evident: diff was {diff}");
}

#[test]
fn test_pst_comprehensive() {
    let roles = [
        Role::Pawn,
        Role::Knight,
        Role::Bishop,
        Role::Rook,
        Role::Queen,
        Role::King,
    ];
    for role in roles {
        for square in 0u8..64 {
            let pst = pst_value(role, square, Color::White, 14);
            if pst == 0 {
                continue;
            }
            if role == Role::Pawn && square == sq("d2") {
                assert!(pst < 0, "Pawn on D2 should have a PST penalty: got {pst}");
            }
            if role == Role::Knight && square == sq("a1") {
                assert!(pst < 0, "Knight on A1 should have a PST penalty: got {pst}");
            }
            if role == Role::Knight && square == sq("e4") {
                assert!(pst > 0, "Knight on E4 should have a PST bonus: got {pst}");
            }
            if role == Role::Bishop && square == sq("a1") {
                assert!(pst < 0, "Bishop on A1 should have a PST penalty: got {pst}");
            }
            if role == Role::Rook && square == sq("a1") {
                assert!(pst == 0, "Rook on A1 should have 0 pst: got {pst}");
            }
            if role == Role::Rook && square == sq("a7") {
                assert!(pst > 0, "Rook on 7th rank bonus: got {pst}");
            }
            if role == Role::Queen && square == sq("a1") {
                assert!(pst < 0, "Queen on A1 should have a PST penalty: got {pst}");
            }
            if role == Role::King && square == sq("g1") {
                assert!(pst > 0, "King on G1 (MG) should have a PST bonus: got {pst}");
            }
        }
    }
}

#[test]
fn test_king_table_blend_matches_single_precision() {
    // The king's entry blends its middlegame and endgame tables by the
    // phase factor in single precision; the integer blend must give the
    // same truncated value for every square and phase count.
    for phase in -2i32..=20 {
        let pf = (phase as f32 / 14.0).clamp(0.0, 1.0);
        for square in 0u8..64 {
            for color in [Color::White, Color::Black] {
                let idx = pst_index(square, color);
                let mg = chess_ai_rust::eval::EVAL_PST_KING_MG[idx] as f32;
                let eg = chess_ai_rust::eval::EVAL_PST_KING_EG[idx] as f32;
                let expected = (pf * mg + (1.0 - pf) * eg) as i32;
                assert_eq!(
                    pst_value(Role::King, square, color, phase),
                    expected,
                    "square {square} phase {phase}"
                );
            }
        }
    }
}

#[test]
fn test_piece_values_and_phase_count() {
    assert_eq!(piece_value(Role::Pawn), 100);
    assert_eq!(piece_value(Role::Knight), 320);
    assert_eq!(piece_value(Role::Bishop), 330);
    assert_eq!(piece_value(Role::Rook), 500);
    assert_eq!(piece_value(Role::Queen), 900);
    assert_eq!(count_phase(&pos_from_fen(START)), 14);
    assert_eq!(count_phase(&pos_from_fen("4k3/8/8/8/8/8/4P3/4K3 w - - 0 1")), 0);
    // The table index flips the rank for White.
    assert_eq!(pst_index(sq("a1"), Color::White), 56);
    assert_eq!(pst_index(sq("a1"), Color::Black), 0);
}

// ── Search ───────────────────────────────────────────────────────────

#[test]
fn test_tt_store_and_retrieve() {
    let mut ctx = SearchContext::new();
    let pos = pos_from_fen(START);
    let hash = zobrist_hash(&pos);

    ctx.tt_store(hash, 5, 42, TTFlag::Exact, None);

    let entry = ctx.tt_probe(hash).unwrap();
    assert_eq!(entry.depth, 5);
    assert_eq!(entry.score, 42);
    assert_eq!(entry.flag, TTFlag::Exact);
}

#[test]
fn test_tt_probe_misses_another_key() {
    let mut ctx = SearchContext::new();
    ctx.tt_store(7, 3, -5, TTFlag::LowerBound, None);
    assert!(ctx.tt_probe(8).is_none());
    // A key in the same slot replaces the older entry.
    let same_slot = 7 + (1u64 << 20);
    ctx.tt_store(same_slot, 2, 11, TTFlag::UpperBound, None);
    assert!(ctx.tt_probe(7).is_none());
    assert_eq!(ctx.tt_probe(same_slot).unwrap().score, 11);
}

#[test]
fn test_find_best_reply_mate_in_one() {
    let pos = pos_from_fen("r1bqkb1r/pppp1ppp/2n2n2/4p2Q/2B1P3/8/PPPP1PPP/RNB1K1NR w KQkq - 4 4");
    let result = find_best_reply_impl(&pos, 4);
    assert!(result.is_some());
    assert_eq!(result.unwrap(), "h5f7");
}

#[test]
fn test_find_best_reply_obvious_capture() {
    let pos = pos_from_fen("rnb1kbnr/pppppppp/8/4q3/4Q3/8/PPPP1PPP/RNB1KBNR w KQkq - 0 1");
    let result = find_best_reply_impl(&pos, 4);
    assert!(result.is_some());
    assert_eq!(result.unwrap(), "e4e5");
}

#[test]
fn test_quiesce_reasonable_score() {
    let pos = pos_from_fen("rnbqkbnr/pppp1ppp/8/4p3/4P3/5N2/PPPP1PPP/RNBQKB1R b KQkq - 1 2");
    let score = quiesce(&pos, -50000, 50000);
    assert!(
        score > -1000 && score < 1000,
        "Unexpected quiesce score: {score}"
    );
}

#[test]
fn test_quiesce_stays_in_the_window() {
    let pos = pos_from_fen("rnb1kbnr/pppppppp/8/4q3/4Q3/8/PPPP1PPP/RNB1KBNR w KQkq - 0 1");
    let score = quiesce(&pos, -10, 10);
    assert!((-10..=10).contains(&score), "score {score} left the window");
}

#[test]
fn test_aspiration_returns_legal_move() {
    let pos = pos_from_fen("rnbqkbnr/pppppppp/8/8/4P3/8/PPPP1PPP/RNBQKBNR b KQkq - 0 1");
    let result = find_best_reply_impl(&pos, 5);
    assert!(result.is_some());
    assert!(legal_uci(&pos).contains(&result.unwrap()));
}

#[test]
fn test_depth_returns_valid_moves() {
    let pos = pos_from_fen(START);
    let legal = legal_uci(&pos);
    for d in 1..=6u8 {
        let result = find_best_reply_impl(&pos, d);
        assert!(result.is_some(), "No move at depth {d}");
        let mv = result.unwrap();
        assert!(legal.contains(&mv), "Illegal move {mv} at depth {d}");
    }
}

#[test]
fn test_find_best_reply_without_moves_or_with_a_bad_fen() {
    // Checkmated: no move to suggest.
    assert_eq!(
        find_best_reply("rnb1kbnr/pppp1ppp/8/4p3/6Pq/5P2/PPPPP2P/RNBQKBNR w KQkq - 1 3", 3),
        Ok(None)
    );
    assert_eq!(find_best_reply("garbage", 3), Err(SearchError::InvalidFen));
    assert_eq!(
        find_best_reply("4k3/8/8/8/8/8/8/KK6 w - - 0 1", 3),
        Err(SearchError::InvalidPosition)
    );
}

#[test]
fn test_forcing_swing_is_non_negative() {
    // White's queen can take an undefended queen: a forcing move that
    // swings the evaluation.
    let pos = pos_from_fen("4k3/8/8/3q4/8/8/3Q4/4K3 w - - 0 1");
    let swing = forcing_swing(&pos, 1);
    assert!(swing >= 0);
    let quiet = pos_from_fen("4k3/8/8/8/8/8/8/4K3 w - - 0 1");
    assert_eq!(forcing_swing(&quiet, 1), 0);
}

// ── Static exchange evaluation ──────────────────────────────────────

#[test]
fn test_see_winning_capture() {
    let pos = pos_from_fen("rnbqkb1r/pppppppp/8/4n3/3P4/8/PPP1PPPP/RNBQKBNR w KQkq - 0 1");
    let see_val = see(&pos, sq("e5"), sq("d4"));
    assert!(see_val > 0, "Pawn x undefended Knight should win: got {see_val}");
}

#[test]
fn test_see_losing_capture() {
    let pos = pos_from_fen("rnbqkbnr/ppp2ppp/3p4/4p3/8/8/PPPPQPPP/RNB1KBNR w KQkq - 0 1");
    let see_val = see(&pos, sq("e5"), sq("e2"));
    assert!(see_val < 0, "Queen x defended Pawn should lose: got {see_val}");
}

#[test]
fn test_see_equal_exchange() {
    let pos = pos_from_fen("r1bqkbnr/ppp1pppp/3p4/4n3/8/5N2/PPPPPPPP/RNBQKB1R w KQkq - 0 1");
    let see_val = see(&pos, sq("e5"), sq("f3"));
    assert!(see_val.abs() <= 10, "Knight x Knight should be ~0: got {see_val}");
}

#[test]
fn test_see_of_an_empty_square_is_zero() {
    let pos = pos_from_fen(START);
    assert_eq!(see(&pos, sq("e4"), sq("e2")), 0);
}

// ── Hashing ──────────────────────────────────────────────────────────

#[test]
fn test_xorshift_sequence() {
    let mut state = ZOBRIST_SEED;
    let first = xorshift64(&mut state);
    assert_ne!(first, 0);
    assert_eq!(first, state);
    let mut x = ZOBRIST_SEED;
    x ^= x << 13;
    x ^= x >> 7;
    x ^= x << 17;
    assert_eq!(first, x);
}

#[test]
fn test_zobrist_keys_are_stable() {
    let a = zobrist_keys();
    let b = zobrist_keys();
    assert_eq!(a.pieces, b.pieces);
    assert_eq!(a.side_to_move, b.side_to_move);
    assert_ne!(a.pieces[0][0], a.pieces[0][1]);
}

#[test]
fn test_zobrist_hash_toggles_the_side_key() {
    // Passing the turn changes the hash by exactly the side key.
    let white = pos_from_fen("4k3/8/8/8/8/8/8/4K3 w - - 0 1");
    let black = pos_from_fen("4k3/8/8/8/8/8/8/4K3 b - - 0 1");
    let keys = zobrist_keys();
    assert_eq!(zobrist_hash(&white) ^ zobrist_hash(&black), keys.side_to_move);
}

#[test]
fn test_zobrist_hash_distinguishes_moves() {
    let start = pos_from_fen(START);
    let moves = analyze(&start).moves;
    let after = play(&start, &moves[0]);
    assert_ne!(zobrist_hash(&start), zobrist_hash(&after));
}

#[test]
fn test_inconsistent_board_is_not_handed_to_the_rules() {
    let start = start_position(Variant::Standard);
    assert!(start.is_consistent());
    let mut bad = start;
    bad.knights |= bad.pawns & 0xff00;
    assert!(!bad.is_consistent());
    let info = analyze(&bad);
    assert!(info.moves.is_empty());
    assert!(!info.check);
    assert_eq!(fen(&bad), "");
    assert!(swap_turn(&bad).is_none());
    assert!(parse_uci_move(&bad, "e2e4").is_err());
    assert_eq!(analyze(&start).moves.len(), 20);
}

#[test]
fn test_quiesce_accepts_the_widest_window() {
    let pos = start_position(Variant::Standard);
    let r = quiesce(&pos, i32::MIN, i32::MAX);
    assert!(r > -1000 && r < 1000);
    let r = quiesce(&pos, 10_000, i32::MAX);
    assert_eq!(r, 10_000);
}
