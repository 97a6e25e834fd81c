use chess_ai_rust::rules::{analyze, parse_fen, start_position};
use chess_ai_rust::training::{
    board_phase_value, classify_phase, clip_eval, generate_stratified_positions_seeded,
    EVAL_CLIP_CP,
};
use chess_ai_rust::variant::Variant;

#[test]
fn test_clip_eval_leaves_ordinary_scores_alone() {
    assert_eq!(clip_eval(0), 0);
    assert_eq!(clip_eval(250), 250);
    assert_eq!(clip_eval(-999), -999);
    assert_eq!(clip_eval(EVAL_CLIP_CP), EVAL_CLIP_CP);
}

#[test]
fn test_clip_eval_bounds_mate_scores() {
    assert_eq!(clip_eval(9999), EVAL_CLIP_CP);
    assert_eq!(clip_eval(-9999), -EVAL_CLIP_CP);
    assert_eq!(clip_eval(i32::MAX), EVAL_CLIP_CP);
    assert_eq!(clip_eval(i32::MIN), -EVAL_CLIP_CP);
}

#[test]
fn test_classify_phase_thresholds() {
    let start = start_position(Variant::Standard);
    assert_eq!(board_phase_value(&start), 14);
    assert_eq!(classify_phase(&start), "opening");
    let middle = parse_fen(Variant::Standard, "r1bqk3/8/8/8/8/8/8/R2QK1N1 w - - 0 1").unwrap();
    assert_eq!(board_phase_value(&middle), 6);
    assert_eq!(classify_phase(&middle), "middlegame");
    let end = parse_fen(Variant::Standard, "4k3/8/8/8/8/8/4P3/4KR2 w - - 0 1").unwrap();
    assert_eq!(board_phase_value(&end), 1);
    assert_eq!(classify_phase(&end), "endgame");
}

#[test]
fn test_stratified_sample_is_reproducible_and_playable() {
    let a = generate_stratified_positions_seeded(8, 42);
    let b = generate_stratified_positions_seeded(8, 42);
    assert_eq!(a, b, "the same seed must give the same sample");
    assert!(a.len() <= 8);
    for p in &a {
        assert_eq!(p.variant, Variant::Standard);
        assert!(!analyze(p).moves.is_empty(), "sampled a finished game");
    }
}
