use chess_ai_rust::board::Color;
use chess_ai_rust::rules::{between, bishop_attacks, king_attacks, knight_attacks, pawn_attacks, rook_attacks};

fn stepped(sq: i32, t: i32, d: i32) -> bool {
    t == sq + d && (0..64).contains(&t) && ((t % 8) - (sq % 8)).abs() <= 2
}

fn any_step(sq: i32, t: i32, ds: &[i32]) -> bool {
    ds.iter().any(|&d| stepped(sq, t, d))
}

fn on_line(a: i32, b: i32, t: i32) -> bool {
    (a % 8 == b % 8 && t % 8 == a % 8)
        || (a / 8 == b / 8 && t / 8 == a / 8)
        || (a / 8 - a % 8 == b / 8 - b % 8 && t / 8 - t % 8 == a / 8 - a % 8)
        || (a / 8 + a % 8 == b / 8 + b % 8 && t / 8 + t % 8 == a / 8 + a % 8)
}

#[test]
fn test_step_attacks_match_their_statement() {
    for sq in 0..64i32 {
        for t in 0..64i32 {
            let bit = |bb: u64| (bb >> t) & 1 == 1;
            assert_eq!(bit(knight_attacks(sq as u8)), any_step(sq, t, &[17, 15, 10, 6, -17, -15, -10, -6]));
            assert_eq!(bit(king_attacks(sq as u8)), any_step(sq, t, &[9, 8, 7, 1, -9, -8, -7, -1]));
            assert_eq!(bit(pawn_attacks(Color::White, sq as u8)), any_step(sq, t, &[7, 9]));
            assert_eq!(bit(pawn_attacks(Color::Black, sq as u8)), any_step(sq, t, &[-7, -9]));
        }
    }
}

#[test]
fn test_between_matches_its_statement() {
    for a in 0..64i32 {
        for b in 0..64i32 {
            let bb = between(a as u8, b as u8);
            for t in 0..64i32 {
                let expected = a != b && on_line(a, b, t) && a.min(b) < t && t < a.max(b);
                assert_eq!((bb >> t) & 1 == 1, expected, "a={a} b={b} t={t}");
            }
        }
    }
}

#[test]
fn test_slider_attacks_match_their_statement() {
    let mut state: u64 = 0x9E37_79B9_7F4A_7C15;
    for round in 0..40 {
        state ^= state << 13;
        state ^= state >> 7;
        state ^= state << 17;
        let occupied = if round == 0 { 0 } else { state & state.rotate_left(11) };
        for sq in 0..64i32 {
            let rook = rook_attacks(sq as u8, occupied);
            let bishop = bishop_attacks(sq as u8, occupied);
            for t in 0..64i32 {
                let clear = (0..64i32).all(|u| {
                    !(on_line(sq, t, u) && sq != t && sq.min(t) < u && u < sq.max(t))
                        || (occupied >> u) & 1 == 0
                });
                let rook_line = t % 8 == sq % 8 || t / 8 == sq / 8;
                let bishop_line = t / 8 - t % 8 == sq / 8 - sq % 8 || t / 8 + t % 8 == sq / 8 + sq % 8;
                assert_eq!((rook >> t) & 1 == 1, t != sq && rook_line && clear, "rook sq={sq} t={t}");
                assert_eq!((bishop >> t) & 1 == 1, t != sq && bishop_line && clear, "bishop sq={sq} t={t}");
            }
        }
    }
}
