use chess_ai_rust::board::{Color, Position};
use chess_ai_rust::eval::count_phase;
use chess_ai_rust::features::king_safety::{king_guards, king_pawn_shield, king_ring_pressure};
use chess_ai_rust::features::material::material_tenths;
use chess_ai_rust::features::mobility::{mobility, opponent_position, safe_mobility};
use chess_ai_rust::features::pawn_structure::{
    backward_pawns, doubled_pawns, isolated_pawns, passed_pawns, pawn_chain,
};
use chess_ai_rust::features::positional::{
    batteries, center_control, connected_rooks, file_state, king_tropism, piece_activity,
    rook_open_file_halves, space, table_sums,
};
use chess_ai_rust::features::tactical::{
    hanging_pieces, hanging_value, has_bishop_pair, outposts, pinned_pieces, rooks_on_seventh,
    see_best_capture, see_worst_threat, threats,
};
use chess_ai_rust::rules::parse_fen;
use chess_ai_rust::variant::Variant;

const START: &str = "rnbqkbnr/pppppppp/8/8/8/8/PPPPPPPP/RNBQKBNR w KQkq - 0 1";

fn pos_from_fen(fen: &str) -> Position {
    parse_fen(Variant::Standard, fen).unwrap()
}

/// Every per-side count of a position, for one side.
fn side_counts(pos: &Position, side: Color) -> Vec<i64> {
    let pressure = king_ring_pressure(pos, side);
    let tables = table_sums(pos, side);
    let (open, semi) = file_state(pos, side);
    vec![
        material_tenths(pos, side) as i64,
        pressure.pawns as i64,
        pressure.knights as i64,
        pressure.bishops as i64,
        pressure.rooks as i64,
        pressure.queens as i64,
        king_guards(pos, side) as i64,
        king_pawn_shield(pos, side) as i64,
        isolated_pawns(pos, side) as i64,
        doubled_pawns(pos, side) as i64,
        backward_pawns(pos, side) as i64,
        passed_pawns(pos, side) as i64,
        pawn_chain(pos, side) as i64,
        hanging_pieces(pos, side) as i64,
        has_bishop_pair(pos, side) as i64,
        rooks_on_seventh(pos, side) as i64,
        outposts(pos, side) as i64,
        pinned_pieces(pos, side) as i64,
        threats(pos, side) as i64,
        open as i64,
        semi as i64,
        center_control(pos, side) as i64,
        piece_activity(pos, side) as i64,
        space(pos, side) as i64,
        king_tropism(pos, side) as i64,
        batteries(pos, side) as i64,
        rook_open_file_halves(pos, side) as i64,
        connected_rooks(pos, side) as i64,
        tables.pieces as i64,
        tables.king_mg as i64,
        tables.king_eg as i64,
    ]
}

#[test]
fn test_extract_features_is_symmetric_at_start() {
    // The initial position is mirror-symmetric, so every "us"/"them"
    // pair must agree.
    let pos = pos_from_fen(START);
    assert_eq!(side_counts(&pos, Color::White), side_counts(&pos, Color::Black));
    assert_eq!(mobility(&pos), mobility(&opponent_position(&pos)));
    assert_eq!(safe_mobility(&pos), safe_mobility(&opponent_position(&pos)));
}

#[test]
fn test_extract_features_is_deterministic() {
    let pos = pos_from_fen(START);
    assert_eq!(side_counts(&pos, Color::White), side_counts(&pos, Color::White));
}

#[test]
fn test_material_counts_and_phase() {
    let pos = pos_from_fen(START);
    // 8 pawns + 2N(3) + 2B(3.1) + 2R(5) + Q(9), in tenths of a pawn.
    assert_eq!(material_tenths(&pos, Color::White), 392);
    assert_eq!(material_tenths(&pos, Color::Black), 392);
    // Phase counts non-pawn, non-king pieces: 2*(2+2+2+1) = 14.
    assert_eq!(count_phase(&pos), 14);
}

#[test]
fn test_material_is_relative_to_side_to_move() {
    // Black is a queen up, and it is Black to move.
    let pos = pos_from_fen("rnbqkbnr/pppppppp/8/8/8/8/PPPPPPPP/RNB1KBNR b KQkq - 0 1");
    let us = pos.turn();
    let diff = material_tenths(&pos, us) as i64 - material_tenths(&pos, us.other()) as i64;
    assert_eq!(diff, 90);

    // Same board, White to move: the diff flips sign.
    let pos = pos_from_fen("rnbqkbnr/pppppppp/8/8/8/8/PPPPPPPP/RNB1KBNR w KQkq - 0 1");
    let us = pos.turn();
    let diff = material_tenths(&pos, us) as i64 - material_tenths(&pos, us.other()) as i64;
    assert_eq!(diff, -90);
}

#[test]
fn test_phase_drops_in_the_endgame() {
    let start = pos_from_fen(START);
    let endgame = pos_from_fen("4k3/8/8/8/8/8/4P3/4K3 w - - 0 1");
    assert_eq!(count_phase(&endgame), 0);
    assert!(count_phase(&start) > count_phase(&endgame));
}

#[test]
fn test_mobility_reflects_open_position() {
    let start = pos_from_fen(START);
    let open = pos_from_fen("4k3/8/8/3Q4/8/8/8/4K3 w - - 0 1");
    assert!(
        mobility(&open) > mobility(&start),
        "open queen mobility {} should exceed start mobility {}",
        mobility(&open),
        mobility(&start)
    );
    assert_eq!(mobility(&start), 20);
}

#[test]
fn test_pawn_structure_detects_doubled_and_isolated() {
    let pos = pos_from_fen(START);
    assert_eq!(doubled_pawns(&pos, Color::White), 0);
    assert_eq!(isolated_pawns(&pos, Color::White), 0);

    // Two white pawns stacked on the a-file with no b-file neighbour:
    // doubled and isolated.
    let pos = pos_from_fen("4k3/8/8/8/P7/P7/8/4K3 w - - 0 1");
    assert!(doubled_pawns(&pos, Color::White) > 0);
    assert!(isolated_pawns(&pos, Color::White) > 0);
    assert_eq!(doubled_pawns(&pos, Color::White), 1);
    assert_eq!(isolated_pawns(&pos, Color::White), 2);
}

#[test]
fn test_passed_backward_and_chained_pawns() {
    // No black pawns: every white pawn is passed, and b2 defends c3.
    let pos = pos_from_fen("4k3/8/8/3P4/8/2P5/1P6/4K3 w - - 0 1");
    assert_eq!(passed_pawns(&pos, Color::White), 3);
    assert_eq!(pawn_chain(&pos, Color::White), 1);
    // A black pawn on e5 attacks d4, the square in front of White's d3
    // pawn, which has no pawn beside or behind it.
    let pos = pos_from_fen("4k3/8/8/4p3/8/3P4/8/4K3 w - - 0 1");
    assert_eq!(backward_pawns(&pos, Color::White), 1);
    assert_eq!(passed_pawns(&pos, Color::White), 0);
}

#[test]
fn test_tactical_counts() {
    // The white rook on a2 is attacked down the a-file and undefended.
    let pos = pos_from_fen("r3k3/8/8/8/8/8/R7/4K3 w - - 0 1");
    assert_eq!(hanging_pieces(&pos, Color::White), 1);
    assert_eq!(hanging_pieces(&pos, Color::Black), 1);
    assert!(!has_bishop_pair(&pos, Color::White));
    // A rook on the seventh, and a knight outpost on e5 backed by d4.
    let pos = pos_from_fen("4k3/R7/8/4N3/3P4/8/8/4K3 w - - 0 1");
    assert_eq!(rooks_on_seventh(&pos, Color::White), 1);
    assert_eq!(outposts(&pos, Color::White), 1);
    // The knight on e2 is pinned against the king by the rook on e8.
    let pos = pos_from_fen("4r1k1/8/8/8/8/8/4N3/4K3 w - - 0 1");
    assert_eq!(pinned_pieces(&pos, Color::White), 1);
    // A pawn attacking a knight is a threat; the knight attacking the
    // pawn is not.
    let pos = pos_from_fen("4k3/8/8/3n4/4P3/8/8/4K3 w - - 0 1");
    assert_eq!(threats(&pos, Color::White), 1);
    assert_eq!(threats(&pos, Color::Black), 0);
}

#[test]
fn test_king_features() {
    let pos = pos_from_fen(START);
    // Every square next to the king holds a white piece.
    assert_eq!(king_guards(&pos, Color::White), 5);
    // d2, e2, f2 shield the king; the third rank is empty.
    assert_eq!(king_pawn_shield(&pos, Color::White), 3);
    // A queen on e7 next to the black king on e8.
    let pos = pos_from_fen("4k3/4Q3/8/8/8/8/8/4K3 b - - 0 1");
    let pressure = king_ring_pressure(&pos, Color::White);
    assert!(pressure.queens > 0);
    assert_eq!(pressure.pawns, 0);
}

#[test]
fn test_positional_counts() {
    let pos = pos_from_fen(START);
    assert_eq!(file_state(&pos, Color::White), (0, 0));
    assert_eq!(center_control(&pos, Color::White), 0);
    // Nothing White attacks lies beyond its own half yet.
    assert_eq!(space(&pos, Color::White), 0);
    assert!(piece_activity(&pos, Color::White) > 0);
    let pos = pos_from_fen("4k3/8/8/8/8/8/8/R3K2R w - - 0 1");
    assert_eq!(rook_open_file_halves(&pos, Color::White), 4);
    assert!(!connected_rooks(&pos, Color::White));
    let pos = pos_from_fen("4k3/8/8/8/8/8/8/R4RK1 w - - 0 1");
    assert!(connected_rooks(&pos, Color::White));
    assert_eq!(batteries(&pos, Color::White), 1);
    // A knight two squares from the enemy king scores 7 - 2.
    let pos = pos_from_fen("4k3/8/4N3/8/8/8/8/4K3 w - - 0 1");
    assert_eq!(king_tropism(&pos, Color::White), 5);
}

#[test]
fn test_opponent_view_passes_the_turn() {
    let pos = pos_from_fen("4k3/8/8/8/8/8/8/Q3K3 w - - 0 1");
    let other = opponent_position(&pos);
    assert_eq!(other.turn(), Color::Black);
    // The lone black king has fewer moves than the white king and queen.
    assert!(mobility(&other) < mobility(&pos));
    assert!(safe_mobility(&other) <= mobility(&other));
}

fn fen_position(fen: &str) -> Position {
    parse_fen(Variant::Standard, fen).unwrap()
}

#[test]
fn test_see_threat_features_detect_material_at_stake() {
    // White rook on d1 can take an undefended rook on d8.
    let pos = fen_position("3r2k1/8/8/8/8/8/8/3RK3 w - - 0 1");
    assert!(see_best_capture(&pos) > 0, "got {}", see_best_capture(&pos));
    assert_eq!(see_best_capture(&pos), 500);

    // Quiet position with nothing to take.
    let quiet = fen_position("4k3/8/8/8/8/8/8/4K3 w - - 0 1");
    assert_eq!(see_best_capture(&quiet), 0);
    assert_eq!(see_worst_threat(&quiet), 0);
}

#[test]
fn test_see_worst_threat_sees_the_opponents_reply() {
    // Black queen attacks the undefended white queen on d5, White to move.
    let pos = fen_position("3qk3/8/8/3Q4/8/8/8/4K3 w - - 0 1");
    assert!(see_worst_threat(&pos) > 0, "got {}", see_worst_threat(&pos));
}

#[test]
fn test_hanging_value_weighs_pieces_by_worth() {
    let queen = fen_position("r3k3/8/8/8/8/8/Q7/4K3 w - - 0 1");
    let pawn = fen_position("r3k3/8/8/8/8/8/P7/4K3 w - - 0 1");
    assert!(hanging_value(&queen, Color::White) > hanging_value(&pawn, Color::White));
    assert_eq!(hanging_value(&queen, Color::White), 900);
    assert_eq!(hanging_value(&pawn, Color::White), 100);
}
