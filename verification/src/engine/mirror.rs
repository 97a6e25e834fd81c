//! Colour symmetry of the evaluation: a position and its mirror image,
//! with the board flipped top to bottom, the colours swapped and the
//! other side to move, evaluate the same for the side to move.

use vstd::prelude::*;

use crate::board::{bit, file_of, rank_of, Color, Piece, Position};
use crate::engine::eval::{
    board_score, count_bits, phase_count, phase_count_upto, spec_evaluate, spec_pst_index,
    spec_pst_value, square_score, white_score, is_phase_piece,
};

verus! {

/// The square on the same file and the mirrored rank.
pub open spec fn mirror_square(sq: int) -> int {
    (7 - rank_of(sq)) * 8 + file_of(sq)
}

/// Whether `q` is `p` with the board flipped top to bottom, the colours
/// swapped and the other side to move.
pub open spec fn is_mirror(p: Position, q: Position) -> bool {
    &&& q.white_to_move != p.white_to_move
    &&& forall|sq: int|
        0 <= sq < 64 ==> {
            &&& bit(q.pawns, mirror_square(sq)) == bit(p.pawns, sq)
            &&& bit(q.knights, mirror_square(sq)) == bit(p.knights, sq)
            &&& bit(q.bishops, mirror_square(sq)) == bit(p.bishops, sq)
            &&& bit(q.rooks, mirror_square(sq)) == bit(p.rooks, sq)
            &&& bit(q.queens, mirror_square(sq)) == bit(p.queens, sq)
            &&& bit(q.kings, mirror_square(sq)) == bit(p.kings, sq)
            &&& bit(q.white, mirror_square(sq)) == bit(p.black, sq)
            &&& #[trigger] bit(q.black, mirror_square(sq)) == bit(p.white, sq)
        }
}

// ── Sums over the board, by rows ─────────────────────────────────────

/// The sum of `f` over the first `n` squares.
pub open spec fn sum_upto(f: spec_fn(int) -> int, n: int) -> int
    decreases n,
{
    if n <= 0 {
        0
    } else {
        sum_upto(f, n - 1) + f(n - 1)
    }
}

/// The sum of `f` over the first `k` squares of rank `r`.
pub open spec fn row_upto(f: spec_fn(int) -> int, r: int, k: int) -> int
    decreases k,
{
    if k <= 0 {
        0
    } else {
        row_upto(f, r, k - 1) + f(r * 8 + k - 1)
    }
}

/// The sum of the full ranks below rank `n`.
pub open spec fn rows_upto(f: spec_fn(int) -> int, n: int) -> int
    decreases n,
{
    if n <= 0 {
        0
    } else {
        rows_upto(f, n - 1) + row_upto(f, n - 1, 8)
    }
}

proof fn lemma_sum_within_row(f: spec_fn(int) -> int, r: int, k: int)
    requires
        0 <= r,
        0 <= k <= 8,
    ensures
        sum_upto(f, r * 8 + k) == sum_upto(f, r * 8) + row_upto(f, r, k),
    decreases k,
{
    if k > 0 {
        lemma_sum_within_row(f, r, k - 1);
    }
}

/// A sum over the board is the sum of its ranks.
proof fn lemma_sum_by_rows(f: spec_fn(int) -> int, n: int)
    requires
        0 <= n,
    ensures
        sum_upto(f, n * 8) == rows_upto(f, n),
    decreases n,
{
    if n > 0 {
        lemma_sum_by_rows(f, n - 1);
        lemma_sum_within_row(f, n - 1, 8);
        assert((n - 1) * 8 + 8 == n * 8);
    }
}

/// Summing `f` over the mirrored squares of rank `r` is summing it over
/// rank `7 - r`.
proof fn lemma_row_mirror(f: spec_fn(int) -> int, r: int, k: int)
    requires
        0 <= r < 8,
        0 <= k <= 8,
    ensures
        row_upto(|sq: int| f(mirror_square(sq)), r, k) == row_upto(f, 7 - r, k),
    decreases k,
{
    if k > 0 {
        lemma_row_mirror(f, r, k - 1);
        let sq = r * 8 + k - 1;
        assert(rank_of(sq) == r && file_of(sq) == k - 1);
        assert(mirror_square(sq) == (7 - r) * 8 + k - 1);
    }
}

/// A sum over the whole board is unchanged by mirroring the squares.
pub proof fn lemma_sum_mirror(f: spec_fn(int) -> int)
    ensures
        sum_upto(|sq: int| f(mirror_square(sq)), 64) == sum_upto(f, 64),
{
    let g = |sq: int| f(mirror_square(sq));
    lemma_sum_by_rows(g, 8);
    lemma_sum_by_rows(f, 8);
    lemma_row_mirror(f, 0, 8);
    lemma_row_mirror(f, 1, 8);
    lemma_row_mirror(f, 2, 8);
    lemma_row_mirror(f, 3, 8);
    lemma_row_mirror(f, 4, 8);
    lemma_row_mirror(f, 5, 8);
    lemma_row_mirror(f, 6, 8);
    lemma_row_mirror(f, 7, 8);
    reveal_with_fuel(rows_upto, 9);
    assert(rows_upto(g, 8) == rows_upto(f, 8));
}

// ── The evaluation's sums ────────────────────────────────────────────

proof fn lemma_board_score_is_sum(p: Position, phase: int, n: int)
    ensures
        board_score(p, n, phase) == sum_upto(|sq: int| square_score(p, sq, phase), n),
    decreases n,
{
    if n > 0 {
        lemma_board_score_is_sum(p, phase, n - 1);
    }
}

proof fn lemma_phase_count_is_sum(p: Position, n: int)
    ensures
        phase_count_upto(p, n) == sum_upto(
            |sq: int|
                if is_phase_piece(p, sq) {
                    1int
                } else {
                    0int
                },
            n,
        ),
    decreases n,
{
    if n > 0 {
        lemma_phase_count_is_sum(p, n - 1);
    }
}

proof fn lemma_count_bits_is_sum(bb: u64, n: int)
    ensures
        count_bits(bb, n) == sum_upto(
            |sq: int|
                if bit(bb, sq) {
                    1int
                } else {
                    0int
                },
            n,
        ),
    decreases n,
{
    if n > 0 {
        lemma_count_bits_is_sum(bb, n - 1);
    }
}

/// Bit `sq` of an intersection is set exactly when it is set in both.
proof fn lemma_bit_and(a: u64, b: u64, sq: int)
    requires
        0 <= sq < 64,
    ensures
        bit(a & b, sq) == (bit(a, sq) && bit(b, sq)),
{
    let s = sq as u64;
    assert(s < 64 ==> ((((a & b) >> s) & 1u64 == 1u64) == (((a >> s) & 1u64 == 1u64) && ((b
        >> s) & 1u64 == 1u64)))) by (bit_vector);
}

/// The mirror of a board square is a board square, and mirroring twice
/// gives the square back.
proof fn lemma_mirror_square(sq: int)
    requires
        0 <= sq < 64,
    ensures
        0 <= mirror_square(sq) < 64,
        mirror_square(mirror_square(sq)) == sq,
        rank_of(mirror_square(sq)) == 7 - rank_of(sq),
        file_of(mirror_square(sq)) == file_of(sq),
{
}

/// No square is claimed by both colours.
pub open spec fn colors_disjoint(p: Position) -> bool {
    forall|sq: int| 0 <= sq < 64 ==> !(#[trigger] bit(p.white, sq) && bit(p.black, sq))
}

/// The piece on a mirrored square is the mirrored piece: the same role
/// of the other colour.
proof fn lemma_mirror_piece(p: Position, q: Position, sq: int)
    requires
        is_mirror(p, q),
        colors_disjoint(p),
        0 <= sq < 64,
    ensures
        q.piece_at(mirror_square(sq)) == match p.piece_at(sq) {
            Some(pc) => Some(Piece { color: pc.color.spec_other(), role: pc.role }),
            None => None,
        },
{
    assert(bit(q.black, mirror_square(sq)) == bit(p.white, sq));
    assert(!(bit(p.white, sq) && bit(p.black, sq)));
}

/// The table index of a mirrored square for the other colour is the
/// index of the square for the first colour.
proof fn lemma_mirror_pst_index(sq: int, c: Color)
    requires
        0 <= sq < 64,
    ensures
        spec_pst_index(mirror_square(sq), c.spec_other()) == spec_pst_index(sq, c),
{
    lemma_mirror_square(sq);
}

/// Colour symmetry: a position and its mirror image evaluate the same
/// from the side to move's point of view.
pub proof fn lemma_evaluate_mirror(p: Position, q: Position)
    requires
        colors_disjoint(p),
        is_mirror(p, q),
    ensures
        spec_evaluate(q) == spec_evaluate(p),
{
    // The phase counts agree.
    let fp = |sq: int|
        if is_phase_piece(p, sq) {
            1int
        } else {
            0int
        };
    let fq = |sq: int|
        if is_phase_piece(q, sq) {
            1int
        } else {
            0int
        };
    lemma_phase_count_is_sum(p, 64);
    lemma_phase_count_is_sum(q, 64);
    lemma_sum_mirror(fq);
    let gq = |s: int| fq(mirror_square(s));
    assert forall|sq: int| 0 <= sq < 64 implies #[trigger] gq(sq) == fp(sq) by {
        lemma_mirror_piece(p, q, sq);
    }
    lemma_sum_pointwise(gq, fp, 64);
    let phase = phase_count(p);
    assert(phase_count(q) == phase);

    // Every square's score is negated.
    let sp = |sq: int| square_score(p, sq, phase);
    let sq_ = |sq: int| square_score(q, sq, phase);
    lemma_board_score_is_sum(p, phase, 64);
    lemma_board_score_is_sum(q, phase, 64);
    lemma_sum_mirror(sq_);
    let mq = |t: int| sq_(mirror_square(t));
    assert forall|s: int| 0 <= s < 64 implies #[trigger] mq(s) == -sp(s) by {
        lemma_mirror_piece(p, q, s);
        lemma_mirror_square(s);
        match p.piece_at(s) {
            Some(pc) => {
                lemma_mirror_pst_index(s, pc.color);
                assert(spec_pst_value(pc.role, mirror_square(s), pc.color.spec_other(), phase)
                    == spec_pst_value(pc.role, s, pc.color, phase));
            },
            None => {},
        }
    }
    lemma_sum_pointwise_neg(mq, sp, 64);
    assert(board_score(q, 64, phase) == -board_score(p, 64, phase));

    // The bishop pairs trade places.
    lemma_pair_count_mirror(p, q, p.bishops & p.white, q.bishops & q.black, true);
    lemma_pair_count_mirror(p, q, p.bishops & p.black, q.bishops & q.white, false);
    assert(white_score(q) == -white_score(p));
}

/// The bishops of one colour and the mirrored bishops of the other are
/// equally many.
proof fn lemma_pair_count_mirror(p: Position, q: Position, a: u64, b: u64, white: bool)
    requires
        is_mirror(p, q),
        white ==> a == p.bishops & p.white && b == q.bishops & q.black,
        !white ==> a == p.bishops & p.black && b == q.bishops & q.white,
    ensures
        count_bits(b, 64) == count_bits(a, 64),
{
    let fa = |sq: int|
        if bit(a, sq) {
            1int
        } else {
            0int
        };
    let fb = |sq: int|
        if bit(b, sq) {
            1int
        } else {
            0int
        };
    lemma_count_bits_is_sum(a, 64);
    lemma_count_bits_is_sum(b, 64);
    lemma_sum_mirror(fb);
    let gb = |s: int| fb(mirror_square(s));
    assert forall|sq: int| 0 <= sq < 64 implies #[trigger] gb(sq) == fa(sq) by {
        lemma_mirror_square(sq);
        assert(bit(q.black, mirror_square(sq)) == bit(p.white, sq));
        if white {
            lemma_bit_and(p.bishops, p.white, sq);
            lemma_bit_and(q.bishops, q.black, mirror_square(sq));
        } else {
            lemma_bit_and(p.bishops, p.black, sq);
            lemma_bit_and(q.bishops, q.white, mirror_square(sq));
        }
    }
    lemma_sum_pointwise(gb, fa, 64);
}

/// Sums of functions that agree on the board agree.
proof fn lemma_sum_pointwise(f: spec_fn(int) -> int, g: spec_fn(int) -> int, n: int)
    requires
        n <= 64,
        forall|sq: int| 0 <= sq < 64 ==> #[trigger] f(sq) == g(sq),
    ensures
        sum_upto(f, n) == sum_upto(g, n),
    decreases n,
{
    if n > 0 {
        lemma_sum_pointwise(f, g, n - 1);
    }
}

/// Sums of functions that are opposite on the board are opposite.
proof fn lemma_sum_pointwise_neg(f: spec_fn(int) -> int, g: spec_fn(int) -> int, n: int)
    requires
        n <= 64,
        forall|sq: int| 0 <= sq < 64 ==> #[trigger] f(sq) == -g(sq),
    ensures
        sum_upto(f, n) == -sum_upto(g, n),
    decreases n,
{
    if n > 0 {
        lemma_sum_pointwise_neg(f, g, n - 1);
    }
}

} // verus!
