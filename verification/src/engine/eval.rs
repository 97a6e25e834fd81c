//! Static evaluation: material, piece-square tables blended by game
//! phase, the bishop pair, and the terms each variant adds.

use vstd::prelude::*;

use crate::board::{bit, file_of, has_bit, rank_of, Color, Piece, Position, Role};
use crate::variant::Variant;

verus! {

/// Material value in centipawns.
pub open spec fn spec_piece_value(r: Role) -> int {
    match r {
        Role::Pawn => 100,
        Role::Knight => 320,
        Role::Bishop => 330,
        Role::Rook => 500,
        Role::Queen => 900,
        Role::King => 20000,
    }
}

/// Material values in centipawns, used throughout the crate for piece
/// valuation in evaluation, SEE, and move ordering.
pub fn piece_value(role: Role) -> (v: i32)
    ensures
        v == spec_piece_value(role),
{
    match role {
        Role::Pawn => 100,
        Role::Knight => 320,
        Role::Bishop => 330,
        Role::Rook => 500,
        Role::Queen => 900,
        Role::King => 20000,
    }
}

// ── Piece-square tables (from White's perspective, rank-8 = index 0) ──

pub const EVAL_PST_PAWN: [i32; 64] = [
    0, 0, 0, 0, 0, 0, 0, 0, 50, 50, 50, 50, 50, 50, 50, 50, 10, 10, 20, 30, 30, 20, 10, 10, 5, 5,
    10, 25, 25, 10, 5, 5, 0, 0, 0, 20, 20, 0, 0, 0, 5, -5, -10, 0, 0, -10, -5, 5, 5, 10, 10, -20,
    -20, 10, 10, 5, 0, 0, 0, 0, 0, 0, 0, 0,
];

pub const EVAL_PST_KNIGHT: [i32; 64] = [
    -50, -40, -30, -30, -30, -30, -40, -50, -40, -20, 0, 0, 0, 0, -20, -40, -30, 0, 10, 15, 15, 10,
    0, -30, -30, 5, 15, 20, 20, 15, 5, -30, -30, 0, 15, 20, 20, 15, 0, -30, -30, 5, 10, 15, 15, 10,
    5, -30, -40, -20, 0, 5, 5, 0, -20, -40, -50, -40, -30, -30, -30, -30, -40, -50,
];

pub const EVAL_PST_BISHOP: [i32; 64] = [
    -20, -10, -10, -10, -10, -10, -10, -20, -10, 0, 0, 0, 0, 0, 0, -10, -10, 0, 5, 10, 10, 5, 0,
    -10, -10, 5, 5, 10, 10, 5, 5, -10, -10, 0, 10, 10, 10, 10, 0, -10, -10, 10, 10, 10, 10, 10, 10,
    -10, -10, 5, 0, 0, 0, 0, 5, -10, -20, -10, -10, -10, -10, -10, -10, -20,
];

pub const EVAL_PST_ROOK: [i32; 64] = [
    0, 0, 0, 0, 0, 0, 0, 0, 5, 10, 10, 10, 10, 10, 10, 5, -5, 0, 0, 0, 0, 0, 0, -5, -5, 0, 0, 0, 0,
    0, 0, -5, -5, 0, 0, 0, 0, 0, 0, -5, -5, 0, 0, 0, 0, 0, 0, -5, -5, 0, 0, 0, 0, 0, 0, -5, 0, 0,
    0, 5, 5, 0, 0, 0,
];

pub const EVAL_PST_QUEEN: [i32; 64] = [
    -20, -10, -10, -5, -5, -10, -10, -20, -10, 0, 0, 0, 0, 0, 0, -10, -10, 0, 5, 5, 5, 5, 0, -10,
    -5, 0, 5, 5, 5, 5, 0, -5, -5, 0, 5, 5, 5, 5, 0, -5, -10, 5, 5, 5, 5, 5, 0, -10, -10, 0, 5, 0,
    0, 0, 0, -10, -20, -10, -10, -5, -5, -10, -10, -20,
];

pub const EVAL_PST_KING_MG: [i32; 64] = [
    -30, -40, -40, -50, -50, -40, -40, -30, -30, -40, -40, -50, -50, -40, -40, -30, -30, -40, -40,
    -50, -50, -40, -40, -30, -30, -40, -40, -50, -50, -40, -40, -30, -20, -30, -30, -40, -40, -30,
    -30, -20, -10, -20, -20, -20, -20, -20, -20, -10, 20, 20, 0, 0, 0, 0, 20, 20, 20, 30, 10, 0, 0,
    10, 30, 20,
];

pub const EVAL_PST_KING_EG: [i32; 64] = [
    -50, -40, -30, -20, -20, -30, -40, -50, -30, -20, -10, 0, 0, -10, -20, -30, -30, -10, 20, 30,
    30, 20, -10, -30, -30, -10, 30, 40, 40, 30, -10, -30, -30, -10, 30, 40, 40, 30, -10, -30, -30,
    -10, 20, 30, 30, 20, -10, -30, -30, -30, 0, 0, 0, 0, -30, -30, -50, -30, -30, -30, -30, -30,
    -30, -50,
];

/// Every table entry lies within half a pawn of zero.
pub proof fn lemma_tables_bounded()
    ensures
        forall|i: int|
            0 <= i < 64 ==> {
                &&& -50 <= #[trigger] EVAL_PST_PAWN[i] <= 50
                &&& -50 <= EVAL_PST_KNIGHT[i] <= 50
                &&& -50 <= EVAL_PST_BISHOP[i] <= 50
                &&& -50 <= EVAL_PST_ROOK[i] <= 50
                &&& -50 <= EVAL_PST_QUEEN[i] <= 50
                &&& -50 <= EVAL_PST_KING_MG[i] <= 50
                &&& -50 <= EVAL_PST_KING_EG[i] <= 50
            },
{
}

/// Whether a piece counts toward the game phase: neither a pawn nor a king.
pub open spec fn is_phase_piece(p: Position, sq: int) -> bool {
    match p.piece_at(sq) {
        Some(pc) => pc.role != Role::Pawn && pc.role != Role::King,
        None => false,
    }
}

/// Number of phase pieces on the first `n` squares.
pub open spec fn phase_count_upto(p: Position, n: int) -> int
    decreases n,
{
    if n <= 0 {
        0
    } else {
        phase_count_upto(p, n - 1) + if is_phase_piece(p, n - 1) {
            1int
        } else {
            0int
        }
    }
}

/// Number of non-pawn, non-king pieces on the board.
pub open spec fn phase_count(p: Position) -> int {
    phase_count_upto(p, 64)
}

pub proof fn lemma_phase_count_bounds(p: Position, n: int)
    requires
        0 <= n,
    ensures
        0 <= phase_count_upto(p, n) <= n,
    decreases n,
{
    if n > 0 {
        lemma_phase_count_bounds(p, n - 1);
    }
}

/// Count non-pawn, non-king pieces for game-phase detection.
pub fn count_phase(board: &Position) -> (phase: i32)
    ensures
        phase == phase_count(*board),
        0 <= phase <= 64,
{
    let mut phase: i32 = 0;
    let mut sq: u8 = 0;
    while sq < 64
        invariant
            sq <= 64,
            phase == phase_count_upto(*board, sq as int),
            0 <= phase <= sq,
        decreases 64 - sq,
    {
        if let Some(piece) = board.get_piece(sq) {
            if piece.role != Role::Pawn && piece.role != Role::King {
                phase += 1;
            }
        }
        sq += 1;
    }
    phase
}

/// Index into a table written from White's perspective with rank 8
/// first: the rank is flipped for White.
pub open spec fn spec_pst_index(sq: int, color: Color) -> int {
    let vis_r = if color == Color::White {
        7 - rank_of(sq)
    } else {
        rank_of(sq)
    };
    vis_r * 8 + file_of(sq)
}

/// PST index for a square, flipped for Black so tables are always
/// written from White's perspective.
pub fn pst_index(sq: u8, color: Color) -> (r: usize)
    requires
        sq < 64,
    ensures
        r == spec_pst_index(sq as int, color),
        r < 64,
{
    let vis_r: usize = if color == Color::White {
        7 - (sq / 8) as usize
    } else {
        (sq / 8) as usize
    };
    vis_r * 8 + (sq % 8) as usize
}

/// Integer division rounding toward zero.
pub open spec fn div_toward_zero(a: int, b: int) -> int {
    if a >= 0 {
        a / b
    } else {
        -((-a) / b)
    }
}

/// The phase count clamped to `0..=14`, the count of the full opening
/// complement.
pub open spec fn clamped_phase(phase: int) -> int {
    if phase < 0 {
        0
    } else if phase > 14 {
        14
    } else {
        phase
    }
}

/// The (clamped phase, middlegame value, endgame value) triples for which
/// single-precision interpolation lands just short of an exact integer
/// result, so that truncation yields one less in magnitude.  These are
/// rounding accidents of the `f32` blend the engine computes, not a rule
/// of the evaluation; they are kept so that integer evaluation agrees with
/// it on every table pair and phase.
pub open spec fn single_precision_shortfall(p: int, mg: int, eg: int) -> bool {
    ||| p == 1 && mg == -40 && eg == 30
    ||| p == 1 && mg == -30 && eg == -30
    ||| p == 5 && mg == -40 && eg == 30
    ||| p == 6 && mg == 20 && eg == -50
    ||| p == 8 && mg == 20 && eg == -50
    ||| p == 9 && mg == -40 && eg == 30
    ||| p == 11 && mg == -40 && eg == 30
    ||| p == 11 && mg == 20 && eg == -50
    ||| p == 13 && mg == 20 && eg == -50
}

/// The king's table value blended between middlegame and endgame by the
/// phase factor `p / 14`: `p * mg / 14 + (14 - p) * eg / 14` truncated
/// toward zero, as single-precision arithmetic computes it (one less in
/// magnitude on the shortfall triples).
pub open spec fn king_blend(mg: int, eg: int, phase: int) -> int {
    let p = clamped_phase(phase);
    let exact = div_toward_zero(p * mg + (14 - p) * eg, 14);
    if single_precision_shortfall(p, mg, eg) {
        if exact > 0 {
            exact - 1
        } else {
            exact + 1
        }
    } else {
        exact
    }
}

/// The blend of two table values within half a pawn of zero stays
/// within half a pawn of zero.
pub proof fn lemma_king_blend_bounded(mg: int, eg: int, phase: int)
    requires
        -50 <= mg <= 50,
        -50 <= eg <= 50,
    ensures
        -50 <= king_blend(mg, eg, phase) <= 50,
{
    let p = clamped_phase(phase);
    let num = p * mg + (14 - p) * eg;
    assert(-700 <= num <= 700) by (nonlinear_arith)
        requires
            0 <= p <= 14,
            -50 <= mg <= 50,
            -50 <= eg <= 50,
            num == p * mg + (14 - p) * eg,
    ;
}

/// The blended king value at the extremes of the phase range is the
/// table value of that extreme.
pub proof fn lemma_king_blend_extremes(mg: int, eg: int)
    ensures
        king_blend(mg, eg, 14) == mg,
        king_blend(mg, eg, 0) == eg,
{
    assert((14 * mg) / 14 == mg) by (nonlinear_arith);
    assert((14 * eg) / 14 == eg) by (nonlinear_arith);
    assert((-(14 * mg)) / 14 == -mg) by (nonlinear_arith);
    assert((-(14 * eg)) / 14 == -eg) by (nonlinear_arith);
    assert(14 * mg + (14 - 14) * eg == 14 * mg);
    assert(0 * mg + (14 - 0) * eg == 14 * eg);
}

/// The table value of a role on a square for a side.
pub open spec fn spec_pst_value(role: Role, sq: int, color: Color, phase_count: int) -> int {
    let idx = spec_pst_index(sq, color);
    match role {
        Role::Pawn => EVAL_PST_PAWN[idx] as int,
        Role::Knight => EVAL_PST_KNIGHT[idx] as int,
        Role::Bishop => EVAL_PST_BISHOP[idx] as int,
        Role::Rook => EVAL_PST_ROOK[idx] as int,
        Role::Queen => EVAL_PST_QUEEN[idx] as int,
        Role::King => king_blend(
            EVAL_PST_KING_MG[idx] as int,
            EVAL_PST_KING_EG[idx] as int,
            phase_count,
        ),
    }
}

pub proof fn lemma_pst_value_bounded(role: Role, sq: int, color: Color, phase_count: int)
    requires
        0 <= sq < 64,
    ensures
        -50 <= spec_pst_value(role, sq, color, phase_count) <= 50,
{
    let idx = spec_pst_index(sq, color);
    assert(0 <= idx < 64);
    lemma_tables_bounded();
    assert(-50 <= EVAL_PST_PAWN[idx] <= 50);
    if role == Role::King {
        lemma_king_blend_bounded(
            EVAL_PST_KING_MG[idx] as int,
            EVAL_PST_KING_EG[idx] as int,
            phase_count,
        );
    }
}

/// Blends a king table pair by phase count.
fn king_pst(mg: i32, eg: i32, phase_count: i32) -> (r: i32)
    requires
        -50 <= mg <= 50,
        -50 <= eg <= 50,
    ensures
        r == king_blend(mg as int, eg as int, phase_count as int),
{
    proof {
        lemma_king_blend_bounded(mg as int, eg as int, phase_count as int);
    }
    let p: i32 = if phase_count < 0 {
        0
    } else if phase_count > 14 {
        14
    } else {
        phase_count
    };
    assert(-700 <= p * mg <= 700) by (nonlinear_arith)
        requires
            0 <= p <= 14,
            -50 <= mg <= 50,
    ;
    assert(-700 <= (14 - p) * eg <= 700) by (nonlinear_arith)
        requires
            0 <= p <= 14,
            -50 <= eg <= 50,
    ;
    let num: i32 = p * mg + (14 - p) * eg;
    let exact: i32 = if num >= 0 {
        num / 14
    } else {
        -((-num) / 14)
    };
    let shortfall = (p == 1 && mg == -40 && eg == 30) || (p == 1 && mg == -30 && eg == -30) || (p
        == 5 && mg == -40 && eg == 30) || (p == 6 && mg == 20 && eg == -50) || (p == 8 && mg == 20
        && eg == -50) || (p == 9 && mg == -40 && eg == 30) || (p == 11 && mg == -40 && eg == 30)
        || (p == 11 && mg == 20 && eg == -50) || (p == 13 && mg == 20 && eg == -50);
    if shortfall {
        if exact > 0 {
            exact - 1
        } else {
            exact + 1
        }
    } else {
        exact
    }
}

/// Get the PST value for a piece on a square, correctly flipped for the
/// side.  The king's value blends its middlegame and endgame tables by
/// the phase factor `phase_count / 14` clamped to `0..=1`.
pub fn pst_value(role: Role, sq: u8, color: Color, phase_count: i32) -> (r: i32)
    requires
        sq < 64,
    ensures
        r == spec_pst_value(role, sq as int, color, phase_count as int),
        -50 <= r <= 50,
{
    proof {
        lemma_pst_value_bounded(role, sq as int, color, phase_count as int);
        lemma_tables_bounded();
    }
    let idx = pst_index(sq, color);
    match role {
        Role::Pawn => EVAL_PST_PAWN[idx],
        Role::Knight => EVAL_PST_KNIGHT[idx],
        Role::Bishop => EVAL_PST_BISHOP[idx],
        Role::Rook => EVAL_PST_ROOK[idx],
        Role::Queen => EVAL_PST_QUEEN[idx],
        Role::King => king_pst(EVAL_PST_KING_MG[idx], EVAL_PST_KING_EG[idx], phase_count),
    }
}

/// White-positive contribution of the piece on `sq`: its material plus
/// its table value.
pub open spec fn square_score(p: Position, sq: int, phase: int) -> int {
    match p.piece_at(sq) {
        Some(pc) => {
            let v = spec_piece_value(pc.role) + spec_pst_value(pc.role, sq, pc.color, phase);
            if pc.color == Color::White {
                v
            } else {
                -v
            }
        },
        None => 0,
    }
}

/// Sum of the square scores of the first `n` squares.
pub open spec fn board_score(p: Position, n: int, phase: int) -> int
    decreases n,
{
    if n <= 0 {
        0
    } else {
        board_score(p, n - 1, phase) + square_score(p, n - 1, phase)
    }
}

/// Number of set bits among the first `n` squares.
pub open spec fn count_bits(bb: u64, n: int) -> int
    decreases n,
{
    if n <= 0 {
        0
    } else {
        count_bits(bb, n - 1) + if bit(bb, n - 1) {
            1int
        } else {
            0int
        }
    }
}

/// Counts the set bits of a bitboard.
pub fn popcount(bb: u64) -> (n: u32)
    ensures
        n == count_bits(bb, 64),
        n <= 64,
{
    let mut n: u32 = 0;
    let mut sq: u8 = 0;
    while sq < 64
        invariant
            sq <= 64,
            n == count_bits(bb, sq as int),
            n <= sq,
        decreases 64 - sq,
    {
        if has_bit(bb, sq) {
            n += 1;
        }
        sq += 1;
    }
    n
}

/// The bishop-pair bonus in centipawns.
pub const BISHOP_PAIR_BONUS: i32 = 30;

/// Material, table and bishop-pair score from White's point of view.
pub open spec fn white_score(p: Position) -> int {
    let phase = phase_count(p);
    board_score(p, 64, phase) + (if count_bits(p.bishops & p.white, 64) >= 2 {
        30int
    } else {
        0int
    }) - (if count_bits(p.bishops & p.black, 64) >= 2 {
        30int
    } else {
        0int
    })
}

/// The evaluation from the side to move's point of view.
pub open spec fn spec_evaluate(p: Position) -> int {
    if p.white_to_move {
        white_score(p)
    } else {
        -white_score(p)
    }
}

/// The evaluation is from the side to move's point of view: the same
/// board with the other side to move evaluates to the negation.
pub proof fn lemma_evaluate_turn_relative(p: Position, q: Position)
    requires
        q == (Position { white_to_move: !p.white_to_move, ..p }),
    ensures
        spec_evaluate(q) == -spec_evaluate(p),
{
    assert(white_score(q) == white_score(p)) by {
        lemma_white_score_ignores_turn(p, q);
    }
}

proof fn lemma_white_score_ignores_turn(p: Position, q: Position)
    requires
        q == (Position { white_to_move: !p.white_to_move, ..p }),
    ensures
        white_score(q) == white_score(p),
{
    assert forall|sq: int| #![trigger q.piece_at(sq)] q.piece_at(sq) == p.piece_at(sq) by {}
    assert(phase_count(q) == phase_count(p)) by {
        lemma_phase_count_same(p, q, 64);
    }
    lemma_board_score_same(p, q, 64, phase_count(p));
}

proof fn lemma_phase_count_same(p: Position, q: Position, n: int)
    requires
        forall|sq: int| #![trigger q.piece_at(sq)] q.piece_at(sq) == p.piece_at(sq),
    ensures
        phase_count_upto(q, n) == phase_count_upto(p, n),
    decreases n,
{
    if n > 0 {
        lemma_phase_count_same(p, q, n - 1);
        assert(q.piece_at(n - 1) == p.piece_at(n - 1));
    }
}

proof fn lemma_board_score_same(p: Position, q: Position, n: int, phase: int)
    requires
        forall|sq: int| #![trigger q.piece_at(sq)] q.piece_at(sq) == p.piece_at(sq),
    ensures
        board_score(q, n, phase) == board_score(p, n, phase),
    decreases n,
{
    if n > 0 {
        lemma_board_score_same(p, q, n - 1, phase);
        assert(q.piece_at(n - 1) == p.piece_at(n - 1));
    }
}

/// Positional evaluation: material + phase-interpolated piece-square
/// tables + bishop-pair bonus.  Returns score from the side-to-move's
/// perspective so negamax works directly.
pub fn evaluate(pos: &Position) -> (r: i32)
    ensures
        r == spec_evaluate(*pos),
        -1_300_000 <= r <= 1_300_000,
{
    let phase = count_phase(pos);
    let mut score: i32 = 0;
    let mut sq: u8 = 0;
    while sq < 64
        invariant
            sq <= 64,
            phase == phase_count(*pos),
            score == board_score(*pos, sq as int, phase as int),
            -20050 * sq <= score <= 20050 * sq,
        decreases 64 - sq,
    {
        if let Some(piece) = pos.get_piece(sq) {
            let v = piece_value(piece.role) + pst_value(piece.role, sq, piece.color, phase);
            if piece.color == Color::White {
                score = score + v;
            } else {
                score = score - v;
            }
        }
        sq += 1;
    }
    let white_bishops = popcount(pos.bishops & pos.white);
    let black_bishops = popcount(pos.bishops & pos.black);
    if white_bishops >= 2 {
        score += BISHOP_PAIR_BONUS;
    }
    if black_bishops >= 2 {
        score -= BISHOP_PAIR_BONUS;
    }
    if pos.white_to_move {
        score
    } else {
        -score
    }
}

// ── Variant terms ───────────────────────────────────────────────────

/// Value of standing on the hill (d4, e4, d5, e5) in King of the Hill:
/// the game is won.
pub const KOTH_WIN: i32 = 10000;

/// Centipawns per step a king is closer to the hill than three steps.
pub const KOTH_STEP: i32 = 25;

/// How far a file or rank lies outside the central two (`3..=4`).
pub open spec fn centre_gap(x: int) -> int {
    if x < 3 {
        3 - x
    } else if x > 4 {
        x - 4
    } else {
        0
    }
}

/// King steps from `sq` to the nearest hill square.
pub open spec fn hill_distance(sq: int) -> int {
    let df = centre_gap(file_of(sq));
    let dr = centre_gap(rank_of(sq));
    if df > dr {
        df
    } else {
        dr
    }
}

/// What a king on `sq` is worth in King of the Hill: the win on the
/// hill, otherwise `KOTH_STEP` for each step it is closer than three.
pub open spec fn hill_value(sq: int) -> int {
    let d = hill_distance(sq);
    if d == 0 {
        10000
    } else {
        (3 - d) * 25
    }
}

/// White-positive hill value of the piece on `sq`, counted for kings.
pub open spec fn hill_square_score(p: Position, sq: int) -> int {
    match p.piece_at(sq) {
        Some(pc) => if pc.role == Role::King {
            if pc.color == Color::White {
                hill_value(sq)
            } else {
                -hill_value(sq)
            }
        } else {
            0
        },
        None => 0,
    }
}

/// Sum of the hill scores of the first `n` squares.
pub open spec fn hill_score(p: Position, n: int) -> int
    decreases n,
{
    if n <= 0 {
        0
    } else {
        hill_score(p, n - 1) + hill_square_score(p, n - 1)
    }
}

/// The King of the Hill bonus from the side to move's point of view.
pub open spec fn spec_koth_bonus(p: Position) -> int {
    if p.white_to_move {
        hill_score(p, 64)
    } else {
        -hill_score(p, 64)
    }
}

fn hill_value_of(sq: u8) -> (v: i32)
    requires
        sq < 64,
    ensures
        v == hill_value(sq as int),
        0 <= v <= 10000,
{
    let f = (sq % 8) as i32;
    let r = (sq / 8) as i32;
    let df = if f < 3 {
        3 - f
    } else if f > 4 {
        f - 4
    } else {
        0
    };
    let dr = if r < 3 {
        3 - r
    } else if r > 4 {
        r - 4
    } else {
        0
    };
    let d = if df > dr {
        df
    } else {
        dr
    };
    if d == 0 {
        KOTH_WIN
    } else {
        (3 - d) * KOTH_STEP
    }
}

/// The race for the centre in King of the Hill: each king scores
/// `KOTH_WIN` on a hill square and `KOTH_STEP` per step closer than
/// three otherwise; the score is from the side to move's perspective.
pub fn koth_bonus(pos: &Position) -> (r: i32)
    ensures
        r == spec_koth_bonus(*pos),
        -640000 <= r <= 640000,
{
    let mut score: i32 = 0;
    let mut sq: u8 = 0;
    while sq < 64
        invariant
            sq <= 64,
            score == hill_score(*pos, sq as int),
            -10000 * sq <= score <= 10000 * sq,
        decreases 64 - sq,
    {
        if let Some(piece) = pos.get_piece(sq) {
            if piece.role == Role::King {
                let v = hill_value_of(sq);
                if piece.color == Color::White {
                    score = score + v;
                } else {
                    score = score - v;
                }
            }
        }
        sq += 1;
    }
    if pos.white_to_move {
        score
    } else {
        -score
    }
}

/// Centipawns per check by which one side is closer to winning Three-Check.
pub const CHECK_WEIGHT: i32 = 200;

pub open spec fn spec_three_check_bonus(white_remaining: int, black_remaining: int, turn: Color) -> int {
    let white_view = 200 * (black_remaining - white_remaining);
    if turn == Color::White {
        white_view
    } else {
        -white_view
    }
}

/// The Three-Check race flips with the side to move.
pub proof fn lemma_three_check_bonus_flips(white_remaining: int, black_remaining: int)
    ensures
        spec_three_check_bonus(white_remaining, black_remaining, Color::Black)
            == -spec_three_check_bonus(white_remaining, black_remaining, Color::White),
        white_remaining < black_remaining ==> spec_three_check_bonus(
            white_remaining,
            black_remaining,
            Color::White,
        ) > 0,
{
}

/// The Three-Check race: `CHECK_WEIGHT` for every check by which the side
/// to move needs fewer than its opponent.  The counts are the checks each
/// side still has to give, at most three.
pub fn three_check_bonus(white_remaining: u32, black_remaining: u32, turn: Color) -> (r: i32)
    requires
        white_remaining <= 3,
        black_remaining <= 3,
    ensures
        r == spec_three_check_bonus(white_remaining as int, black_remaining as int, turn),
        -600 <= r <= 600,
{
    let white_view = CHECK_WEIGHT * (black_remaining as i32 - white_remaining as i32);
    if turn == Color::White {
        white_view
    } else {
        -white_view
    }
}

/// What a piece weighs in Antichess: the standard value, a king counting
/// as a pawn since it is an ordinary piece there.
pub open spec fn antichess_value(r: Role) -> int {
    if r == Role::King {
        100
    } else {
        spec_piece_value(r)
    }
}

/// White-positive material of the piece on `sq` for Antichess.
pub open spec fn antichess_square_score(p: Position, sq: int) -> int {
    match p.piece_at(sq) {
        Some(pc) => if pc.color == Color::White {
            antichess_value(pc.role)
        } else {
            -antichess_value(pc.role)
        },
        None => 0,
    }
}

pub open spec fn antichess_material(p: Position, n: int) -> int
    decreases n,
{
    if n <= 0 {
        0
    } else {
        antichess_material(p, n - 1) + antichess_square_score(p, n - 1)
    }
}

/// The Antichess evaluation from the side to move's point of view: the
/// material balance negated, since material is a liability.
pub open spec fn spec_evaluate_antichess(p: Position) -> int {
    if p.white_to_move {
        -antichess_material(p, 64)
    } else {
        antichess_material(p, 64)
    }
}

/// Evaluates an Antichess position: having more material is worse.
pub fn evaluate_antichess(pos: &Position) -> (r: i32)
    ensures
        r == spec_evaluate_antichess(*pos),
        -57600 <= r <= 57600,
{
    let mut score: i32 = 0;
    let mut sq: u8 = 0;
    while sq < 64
        invariant
            sq <= 64,
            score == antichess_material(*pos, sq as int),
            -900 * sq <= score <= 900 * sq,
        decreases 64 - sq,
    {
        if let Some(piece) = pos.get_piece(sq) {
            let v = if piece.role == Role::King {
                100
            } else {
                piece_value(piece.role)
            };
            if piece.color == Color::White {
                score = score + v;
            } else {
                score = score - v;
            }
        }
        sq += 1;
    }
    if pos.white_to_move {
        -score
    } else {
        score
    }
}

/// A remaining-check count as the evaluation reads it: never above three,
/// the most shakmaty holds.
pub open spec fn capped_checks(n: u32) -> int {
    if n > 3 {
        3
    } else {
        n as int
    }
}

/// The evaluation of a position under its own variant's rules:
/// standard chess uses `evaluate`, King of the Hill adds the race for the
/// centre, Three-Check adds the check race, and Antichess counts
/// material against the side that has it.
pub open spec fn spec_evaluate_variant(p: Position) -> int {
    match p.variant {
        Variant::Standard => spec_evaluate(p),
        Variant::KingOfTheHill => spec_evaluate(p) + spec_koth_bonus(p),
        Variant::ThreeCheck => spec_evaluate(p) + spec_three_check_bonus(
            capped_checks(p.checks_white),
            capped_checks(p.checks_black),
            p.side(),
        ),
        Variant::Antichess => spec_evaluate_antichess(p),
    }
}

/// Largest magnitude any evaluation reaches.
pub const EVAL_LIMIT: i32 = 2_000_000;

/// Evaluates a position with the terms of its variant.
pub fn evaluate_variant(pos: &Position) -> (r: i32)
    ensures
        r == spec_evaluate_variant(*pos),
        -EVAL_LIMIT <= r <= EVAL_LIMIT,
{
    match pos.variant {
        Variant::Standard => evaluate(pos),
        Variant::KingOfTheHill => evaluate(pos) + koth_bonus(pos),
        Variant::ThreeCheck => {
            let w = if pos.checks_white > 3 {
                3
            } else {
                pos.checks_white
            };
            let b = if pos.checks_black > 3 {
                3
            } else {
                pos.checks_black
            };
            evaluate(pos) + three_check_bonus(w, b, pos.turn())
        },
        Variant::Antichess => evaluate_antichess(pos),
    }
}

} // verus!
