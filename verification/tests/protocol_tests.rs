use chess_ai_rust::engine::protocol::{
    best_move_reply, principal_move, reports_score, select_top_moves, top_move_entry, MATE_SCORE,
};
use chess_ai_rust::engine::parse_score;

fn parts(line: &str) -> Vec<&str> {
    line.split_whitespace().collect()
}

#[test]
fn test_parse_score_centipawns() {
    let p = parts("info depth 10 score cp -37 nodes 1000 pv e2e4");
    assert_eq!(parse_score(&p), Some(-37));
}

#[test]
fn test_parse_score_mate_prefers_shorter_mates() {
    let win_in_1 = parse_score(&parts("info score mate 1 pv h5f7")).unwrap();
    let win_in_5 = parse_score(&parts("info score mate 5 pv h5f7")).unwrap();
    assert!(
        win_in_1 > win_in_5,
        "mate in 1 ({win_in_1}) should beat mate in 5 ({win_in_5})"
    );
    assert!(win_in_5 > 0, "a mate we deliver must score positive");
}

#[test]
fn test_parse_score_mate_against_us_is_negative() {
    let loss = parse_score(&parts("info score mate -3 pv e1e2")).unwrap();
    assert!(loss < 0, "being mated must score negative, got {loss}");
    // Being mated later is preferable to being mated sooner.
    let sooner = parse_score(&parts("info score mate -1 pv e1e2")).unwrap();
    assert!(
        loss > sooner,
        "mate in -3 ({loss}) should beat mate in -1 ({sooner})"
    );
}

#[test]
fn test_parse_score_absent_or_malformed() {
    assert_eq!(parse_score(&parts("info depth 10 nodes 1000")), None);
    // A truncated line must not panic or misparse.
    assert_eq!(parse_score(&parts("info score cp")), None);
    assert_eq!(parse_score(&parts("info score mate")), None);
    assert_eq!(parse_score(&parts("info score cp abc")), None);
}

#[test]
fn test_parse_score_exact_values() {
    assert_eq!(parse_score(&parts("info score mate 1")), Some(MATE_SCORE - 1));
    assert_eq!(parse_score(&parts("info score mate -1")), Some(-MATE_SCORE + 1));
    assert_eq!(parse_score(&parts("info score mate 0")), Some(-MATE_SCORE));
    assert_eq!(parse_score(&parts("info score cp +12")), Some(12));
    // The last readable score wins; an unreadable one keeps the earlier.
    assert_eq!(parse_score(&parts("score cp 5 score cp 7")), Some(7));
    assert_eq!(parse_score(&parts("score cp 5 score cp x")), Some(5));
    assert_eq!(parse_score(&parts("cp 2147483647")), Some(i32::MAX));
    assert_eq!(parse_score(&parts("cp 2147483648")), None);
    assert_eq!(parse_score(&parts("cp -2147483648")), Some(i32::MIN));
}

#[test]
fn test_best_move_reply() {
    assert_eq!(
        best_move_reply(&parts("bestmove e2e4 ponder e7e5")),
        Some("e2e4".to_string())
    );
    assert_eq!(best_move_reply(&parts("bestmove")), None);
    assert_eq!(best_move_reply(&parts("info bestmove e2e4")), None);
}

#[test]
fn test_principal_move_and_scored_lines() {
    let p = parts("info depth 12 multipv 2 score cp 31 pv g1f3 d7d5");
    assert_eq!(principal_move(&p), "g1f3");
    assert_eq!(principal_move(&parts("info score cp 3 pv")), "");
    assert!(reports_score("info depth 3 score cp 12 pv e2e4"));
    assert!(reports_score("info score mate 2"));
    assert!(!reports_score("info string cp 12"));
    assert_eq!(top_move_entry(&p), Some(("g1f3".to_string(), 31)));
    assert_eq!(top_move_entry(&parts("info score cp 3")), None);
    assert_eq!(
        top_move_entry(&parts("info pv e2e4")),
        Some(("e2e4".to_string(), 0))
    );
}

#[test]
fn test_select_top_moves_keeps_the_deepest_distinct_lines() {
    let lines = vec![
        ("e2e4".to_string(), 10),
        ("d2d4".to_string(), 8),
        ("e2e4".to_string(), 20),
        ("d2d4".to_string(), 15),
        ("g1f3".to_string(), 5),
    ];
    let top = select_top_moves(lines.clone(), 2);
    assert_eq!(
        top,
        vec![("g1f3".to_string(), 5), ("d2d4".to_string(), 15)]
    );
    let all = select_top_moves(lines, 5);
    assert_eq!(
        all,
        vec![
            ("g1f3".to_string(), 5),
            ("d2d4".to_string(), 15),
            ("e2e4".to_string(), 20)
        ]
    );
    assert!(select_top_moves(vec![], 3).is_empty());
}

#[test]
fn test_mate_replies_order_by_distance() {
    let m = |k: i32| parse_score(&["score", "mate", k.to_string().as_str()]);
    assert!(m(1) > m(3));
    assert!(m(3) > Some(0));
    assert!(Some(0) > m(-5));
    assert!(m(-5) > m(-1));
    assert_eq!(m(0), Some(-10000));
    assert_eq!(m(2), Some(9998));
}
