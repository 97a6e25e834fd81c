use chess_ai_rust::board::Color;
use chess_ai_rust::eval::{evaluate, three_check_bonus};
use chess_ai_rust::rules::{FenError, MoveError};
use chess_ai_rust::variant::{check_counter, describe_outcome, remaining_checks, side_name, supported_variants, Variant, VariantGame};

fn game_from(variant: Variant, fen: &str) -> VariantGame {
    VariantGame::from_fen(variant, fen).unwrap()
}

#[test]
fn test_variant_parses_its_own_slug() {
    for v in Variant::ALL {
        assert_eq!(
            v.slug().parse::<Variant>().unwrap(),
            v,
            "{} should round-trip",
            v.slug()
        );
    }
}

#[test]
fn test_variant_parsing_accepts_aliases_and_case() {
    assert_eq!("KOTH".parse::<Variant>().unwrap(), Variant::KingOfTheHill);
    assert_eq!(
        "king-of-the-hill".parse::<Variant>().unwrap(),
        Variant::KingOfTheHill
    );
    assert_eq!(
        "three_check".parse::<Variant>().unwrap(),
        Variant::ThreeCheck
    );
    assert_eq!("giveaway".parse::<Variant>().unwrap(), Variant::Antichess);
    assert_eq!("chess".parse::<Variant>().unwrap(), Variant::Standard);
}

#[test]
fn test_variant_parsing_rejects_unsupported_variants() {
    // Playable by the move generator but not evaluated by this engine, so
    // they must be refused rather than played badly.
    for name in ["crazyhouse", "atomic", "horde", "racingkings", "nonsense"] {
        let err = name.parse::<Variant>().unwrap_err().message();
        assert!(err.contains("unknown variant"), "got: {err}");
        // The error should tell the user what is available.
        assert!(err.contains("koth"), "error should list options: {err}");
    }
}

#[test]
fn test_variant_error_message_is_exact() {
    let err = Variant::parse("Crazy-House").unwrap_err();
    assert_eq!(err.name, "crazyhouse");
    assert_eq!(
        err.message(),
        "unknown variant 'crazyhouse' (expected one of: standard, koth, 3check, antichess)"
    );
}

#[test]
fn test_variant_descriptions() {
    assert_eq!(Variant::Standard.description(), "Ordinary chess rules");
    assert_eq!(Variant::ThreeCheck.slug(), "3check");
    assert_eq!(
        Variant::Antichess.description(),
        "Win by losing all your pieces; captures are forced"
    );
}

#[test]
fn test_new_game_starts_with_twenty_moves() {
    // Every supported variant shares the standard opening position; only
    // Antichess differs in which moves are legal.
    for v in [
        Variant::Standard,
        Variant::KingOfTheHill,
        Variant::ThreeCheck,
    ] {
        let g = VariantGame::new(v);
        assert_eq!(g.legal_moves().len(), 20, "{} opening move count", v.slug());
        assert_eq!(g.turn(), Color::White);
        assert!(!g.is_game_over());
        assert_eq!(g.variant(), v);
    }
}

#[test]
fn test_antichess_opening_has_the_same_quiet_moves() {
    // No captures are available at the start, so compulsory capture does
    // not yet restrict anything.
    let g = VariantGame::new(Variant::Antichess);
    assert_eq!(g.legal_moves().len(), 20);
}

#[test]
fn test_antichess_forces_captures() {
    let mut g = VariantGame::new(Variant::Antichess);
    // 1. e4 d5 leaves exd5 available, which becomes compulsory.
    g.play_uci("e2e4").unwrap();
    g.play_uci("d7d5").unwrap();

    let moves = g.legal_moves();
    assert_eq!(
        moves,
        vec!["e4d5".to_string()],
        "capture must be the only legal move in antichess"
    );
}

#[test]
fn test_play_uci_rejects_illegal_and_malformed_moves() {
    let mut g = VariantGame::new(Variant::Standard);
    assert!(g.play_uci("e2e5").is_err(), "illegal move must be refused");
    assert!(
        g.play_uci("hello").is_err(),
        "malformed move must be refused"
    );
    // The position is unchanged after a rejected move.
    assert_eq!(g.legal_moves().len(), 20);
}

#[test]
fn test_play_uci_reports_why_a_move_was_refused() {
    let mut g = VariantGame::new(Variant::Standard);
    let before = *g.inner();
    assert_eq!(g.play_uci("e2e5"), Err(MoveError::Illegal));
    assert_eq!(g.play_uci("hello"), Err(MoveError::Malformed));
    assert_eq!(*g.inner(), before);
    assert_eq!(g.play_uci("e2e4"), Ok(()));
    assert_ne!(*g.inner(), before);
    assert_eq!(g.turn(), Color::Black);
}

#[test]
fn test_koth_rewards_a_central_king() {
    // A king on a centre square has already won, so it must evaluate far
    // above the same material with a home king.
    let central = game_from(Variant::KingOfTheHill, "4k3/8/8/3K4/8/8/8/8 w - - 0 1");
    let home = game_from(Variant::KingOfTheHill, "4k3/8/8/8/8/8/8/4K3 w - - 0 1");
    assert!(
        central.evaluate() > home.evaluate() + 1000,
        "central king {} should dwarf home king {}",
        central.evaluate(),
        home.evaluate()
    );
}

#[test]
fn test_antichess_evaluation_is_inverted() {
    // Being a queen up is losing in antichess, so the side with extra
    // material must evaluate worse.
    let queen_up = game_from(Variant::Antichess, "4k3/8/8/8/8/8/8/3QK3 w - - 0 1");
    assert!(
        queen_up.evaluate() < 0,
        "an extra queen should be a liability, got {}",
        queen_up.evaluate()
    );
}

#[test]
fn test_standard_evaluation_is_unchanged_by_the_variant_layer() {
    // Routing standard chess through a game must not alter it.
    let g = VariantGame::new(Variant::Standard);
    assert_eq!(g.evaluate(), evaluate(g.inner()));
}

#[test]
fn test_best_move_is_legal_in_every_variant() {
    for v in Variant::ALL {
        let g = VariantGame::new(v);
        let mv = g
            .best_move(3)
            .unwrap_or_else(|| panic!("{} produced no move", v.slug()));
        assert!(
            g.legal_moves().contains(&mv),
            "{} returned illegal move {mv}",
            v.slug()
        );
    }
}

#[test]
fn test_three_check_counter_starts_at_three() {
    let g = VariantGame::new(Variant::ThreeCheck);
    assert_eq!(remaining_checks(g.inner()), (3, 3));
}

#[test]
fn test_three_check_counter_follows_the_fen() {
    let g = game_from(
        Variant::ThreeCheck,
        "rnbqkbnr/pppp1ppp/8/4p3/4P3/8/PPPP1PPP/RNBQKBNR w KQkq - 1+2 0 2",
    );
    assert_eq!(remaining_checks(g.inner()), (1, 2));
    assert!(g.fen().contains("1+2"), "fen: {}", g.fen());
}

#[test]
fn test_check_counter_reads_the_first_counter_field() {
    assert_eq!(check_counter("8/8/8/8/8/8/8/8 w - - 2+1 0 1"), (2, 1));
    assert_eq!(check_counter("a+b 1+x +1+2 3+0"), (3, 0));
    assert_eq!(check_counter("no counter here"), (3, 3));
    assert_eq!(check_counter(""), (3, 3));
}

#[test]
fn test_three_check_bonus_favours_the_side_closer_to_winning() {
    // White needing one more check is far better than needing three.
    let ahead = three_check_bonus(1, 3, Color::White);
    let behind = three_check_bonus(3, 1, Color::White);
    assert!(
        ahead > behind,
        "being a check away ({ahead}) should beat being behind ({behind})"
    );
    // The evaluation flips with the side to move.
    assert_eq!(
        three_check_bonus(1, 3, Color::Black),
        -three_check_bonus(1, 3, Color::White)
    );
}

#[test]
fn test_fen_round_trips_through_moves() {
    let mut g = VariantGame::new(Variant::KingOfTheHill);
    assert!(g.fen().starts_with("rnbqkbnr/pppppppp"));
    g.play_uci("e2e4").unwrap();
    assert!(
        g.fen().contains("4P3"),
        "fen should reflect the move: {}",
        g.fen()
    );
}

#[test]
fn test_koth_engine_steps_onto_the_hill_when_it_can() {
    // d3 touches d4 and e4, both winning squares.
    let g = game_from(Variant::KingOfTheHill, "7k/8/8/8/8/3K4/8/8 w - - 0 1");
    let mv = g.best_move(4).expect("engine should find a move");
    assert!(
        mv == "d3d4" || mv == "d3e4",
        "engine should step onto the hill, played {mv}"
    );
}

#[test]
fn test_koth_prefers_the_centre_over_an_edge_advance() {
    let central = game_from(Variant::KingOfTheHill, "7k/8/8/8/3K4/8/8/8 w - - 0 1");
    let edge = game_from(Variant::KingOfTheHill, "7k/8/8/8/8/8/8/K7 w - - 0 1");
    assert!(
        central.evaluate() > edge.evaluate(),
        "a king on d4 ({}) should beat one on a1 ({})",
        central.evaluate(),
        edge.evaluate()
    );
}

#[test]
fn test_antichess_engine_gives_material_away() {
    let fewer = game_from(Variant::Antichess, "4k3/8/8/8/8/8/8/4K3 w - - 0 1");
    let more = game_from(Variant::Antichess, "4k3/8/8/8/8/8/PPP5/4K3 w - - 0 1");
    assert!(
        fewer.evaluate() > more.evaluate(),
        "fewer pieces ({}) should evaluate better than more ({})",
        fewer.evaluate(),
        more.evaluate()
    );
}

#[test]
fn test_from_fen_reports_bad_fens() {
    assert!(matches!(
        VariantGame::from_fen(Variant::Standard, "not a fen"),
        Err(FenError::Syntax)
    ));
    // Two white kings: well-formed text, impossible position.
    assert!(matches!(
        VariantGame::from_fen(Variant::Standard, "4k3/8/8/8/8/8/8/KK6 w - - 0 1"),
        Err(FenError::Position)
    ));
}

#[test]
fn test_start_positions_hold_the_standard_array() {
    for v in Variant::ALL {
        let p = *VariantGame::new(v).inner();
        assert_eq!(p.variant, v);
        assert_eq!(p.pawns, 0x00ff_0000_0000_ff00);
        assert_eq!(p.knights, 0x4200_0000_0000_0042);
        assert_eq!(p.bishops, 0x2400_0000_0000_0024);
        assert_eq!(p.rooks, 0x8100_0000_0000_0081);
        assert_eq!(p.queens, 0x0800_0000_0000_0008);
        assert_eq!(p.kings, 0x1000_0000_0000_0010);
        assert_eq!(p.white, 0xffff);
        assert_eq!(p.black, 0xffff_0000_0000_0000);
        assert!(p.white_to_move);
        let castling = if v == Variant::Antichess { 0 } else { 0x8100_0000_0000_0081 };
        assert_eq!(p.castling, castling);
        assert_eq!(p.ep_square, None);
        assert_eq!((p.checks_white, p.checks_black), (3, 3));
        assert_eq!((p.halfmoves, p.fullmoves), (0, 1));
    }
}

#[test]
fn test_supported_variants_lines() {
    let lines = supported_variants();
    assert_eq!(lines.len(), 4);
    for (line, v) in lines.iter().zip(Variant::ALL.iter()) {
        assert_eq!(*line, format!("{}\t{}", v.slug(), v.description()));
    }
    assert!(lines[0].starts_with("standard\t"));
}

#[test]
fn test_outcome_wording() {
    let mated = VariantGame::from_fen(
        Variant::Standard,
        "rnb1kbnr/pppp1ppp/8/4p3/6Pq/5P2/PPPPP2P/RNBQKBNR w KQkq - 1 3",
    )
    .unwrap();
    assert_eq!(describe_outcome(mated.outcome()), "Some(Decisive { winner: Black })");
    let fresh = VariantGame::new(Variant::Standard);
    assert_eq!(describe_outcome(fresh.outcome()), "None");
    assert_eq!(side_name(fresh.turn()), "white");
    assert_eq!(side_name(Color::Black), "black");
}
