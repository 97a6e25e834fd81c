//! Pawn structure: isolated, doubled, backward, passed and chained pawns.

use vstd::prelude::*;

use crate::board::{bit, file_of, has_bit, rank_of, Color, Position};
use crate::features::{
    count_on_file, lemma_total_all, lemma_total_step, lemma_total_zero, lemma_total_zero_terms, on_file,
    one_if, pawn_attack_set, pawn_attacks_by, total,
};
use crate::rules::{pawn_attacks, pawn_attacks_of};

verus! {

/// The pawns of one side.
pub open spec fn pawns_of(p: Position, side: Color) -> u64 {
    p.pawns & p.color_bb(side)
}

/// The pawns of one side on file `f`; none off the board.
pub open spec fn file_pawns(p: Position, side: Color, f: int) -> int {
    if 0 <= f < 8 {
        on_file(pawns_of(p, side), f)
    } else {
        0
    }
}

/// Counts the pawns of one side on a file, which may lie off the board.
fn pawns_on_file(pos: &Position, side: Color, f: i32) -> (r: u32)
    ensures
        r == file_pawns(*pos, side, f as int),
        r <= 8,
{
    if 0 <= f && f < 8 {
        count_on_file(pos.pawns & pos.by_color(side), f as u8)
    } else {
        0
    }
}

// ── Isolated pawns ───────────────────────────────────────────────────

/// A pawn with no pawn of its side on a neighbouring file.
pub open spec fn is_isolated(p: Position, side: Color, sq: int) -> bool {
    bit(pawns_of(p, side), sq) && file_pawns(p, side, file_of(sq) - 1) == 0 && file_pawns(
        p,
        side,
        file_of(sq) + 1,
    ) == 0
}

pub open spec fn isolated_terms(p: Position, side: Color) -> Seq<int> {
    Seq::new(64, |sq: int| one_if(is_isolated(p, side, sq)))
}

pub open spec fn spec_isolated(p: Position, side: Color) -> int {
    total(isolated_terms(p, side))
}

/// Counts the isolated pawns of `side`.
pub fn isolated_pawns(pos: &Position, side: Color) -> (r: u32)
    ensures
        r == spec_isolated(*pos, side),
        r <= 64,
{
    let mine = pos.pawns & pos.by_color(side);
    let ghost s = isolated_terms(*pos, side);
    let mut n: u32 = 0;
    let mut sq: u8 = 0;
    while sq < 64
        invariant
            sq <= 64,
            mine == pawns_of(*pos, side),
            s == isolated_terms(*pos, side),
            n == total(s.take(sq as int)),
            n <= sq,
        decreases 64 - sq,
    {
        proof {
            lemma_total_step(s, sq as int);
        }
        if has_bit(mine, sq) {
            let f = (sq % 8) as i32;
            if pawns_on_file(pos, side, f - 1) == 0 && pawns_on_file(pos, side, f + 1) == 0 {
                n += 1;
            }
        }
        sq += 1;
    }
    proof {
        lemma_total_all(s);
    }
    n
}

// ── Doubled pawns ────────────────────────────────────────────────────

pub open spec fn doubled_terms(p: Position, side: Color) -> Seq<int> {
    Seq::new(
        8,
        |f: int|
            if file_pawns(p, side, f) >= 2 {
                file_pawns(p, side, f) - 1
            } else {
                0
            },
    )
}

/// Every pawn of `side` beyond the first on its file.
pub open spec fn spec_doubled(p: Position, side: Color) -> int {
    total(doubled_terms(p, side))
}

/// Counts the doubled pawns of `side`.
pub fn doubled_pawns(pos: &Position, side: Color) -> (r: u32)
    ensures
        r == spec_doubled(*pos, side),
        r <= 64,
{
    let ghost s = doubled_terms(*pos, side);
    let mut n: u32 = 0;
    let mut f: u8 = 0;
    while f < 8
        invariant
            f <= 8,
            s == doubled_terms(*pos, side),
            n == total(s.take(f as int)),
            n <= 8 * f,
        decreases 8 - f,
    {
        proof {
            lemma_total_step(s, f as int);
        }
        let c = pawns_on_file(pos, side, f as i32);
        if c >= 2 {
            n += c - 1;
        }
        f += 1;
    }
    proof {
        lemma_total_all(s);
    }
    n
}

// ── Backward pawns ───────────────────────────────────────────────────

/// Whether a pawn of `side` on `q` stands beside or behind a pawn on `sq`
/// on a neighbouring file, so that it can support it.
pub open spec fn supports(side: Color, q: int, sq: int) -> bool {
    let df = file_of(q) - file_of(sq);
    (df == 1 || df == -1) && if side == Color::White {
        rank_of(q) <= rank_of(sq)
    } else {
        rank_of(q) >= rank_of(sq)
    }
}

pub open spec fn supporter_terms(p: Position, side: Color, sq: int) -> Seq<int> {
    Seq::new(64, |q: int| one_if(bit(pawns_of(p, side), q) && supports(side, q, sq)))
}

/// The square in front of a pawn from its side's point of view, if any.
pub open spec fn stop_square(side: Color, sq: int) -> Option<int> {
    if side == Color::White {
        if rank_of(sq) < 7 {
            Some(sq + 8)
        } else {
            None
        }
    } else {
        if rank_of(sq) > 0 {
            Some(sq - 8)
        } else {
            None
        }
    }
}

/// A pawn that no pawn of its side can support and whose stop square an
/// enemy pawn attacks.
pub open spec fn is_backward(p: Position, side: Color, sq: int) -> bool {
    &&& bit(pawns_of(p, side), sq)
    &&& total(supporter_terms(p, side, sq)) == 0
    &&& match stop_square(side, sq) {
        Some(stop) => bit(pawn_attack_set(p, side.spec_other(), 64), stop),
        None => false,
    }
}

pub open spec fn backward_terms(p: Position, side: Color) -> Seq<int> {
    Seq::new(64, |sq: int| one_if(is_backward(p, side, sq)))
}

pub open spec fn spec_backward(p: Position, side: Color) -> int {
    total(backward_terms(p, side))
}

/// Whether some pawn of `side` can support the pawn on `sq`.
fn is_supported(pos: &Position, side: Color, sq: u8) -> (r: bool)
    requires
        sq < 64,
    ensures
        r == (total(supporter_terms(*pos, side, sq as int)) != 0),
{
    let mine = pos.pawns & pos.by_color(side);
    let ghost s = supporter_terms(*pos, side, sq as int);
    let mut n: u32 = 0;
    let mut q: u8 = 0;
    while q < 64
        invariant
            q <= 64,
            sq < 64,
            mine == pawns_of(*pos, side),
            s == supporter_terms(*pos, side, sq as int),
            n == total(s.take(q as int)),
            n <= q,
        decreases 64 - q,
    {
        proof {
            lemma_total_step(s, q as int);
        }
        if has_bit(mine, q) {
            let df = (q % 8) as i32 - (sq % 8) as i32;
            let behind = if side == Color::White {
                q / 8 <= sq / 8
            } else {
                q / 8 >= sq / 8
            };
            if (df == 1 || df == -1) && behind {
                n += 1;
            }
        }
        q += 1;
    }
    proof {
        lemma_total_all(s);
    }
    n != 0
}

/// Counts the backward pawns of `side`.
pub fn backward_pawns(pos: &Position, side: Color) -> (r: u32)
    ensures
        r == spec_backward(*pos, side),
        r <= 64,
{
    let mine = pos.pawns & pos.by_color(side);
    let enemy_attacks = pawn_attacks_by(pos, side.other());
    let ghost s = backward_terms(*pos, side);
    let mut n: u32 = 0;
    let mut sq: u8 = 0;
    while sq < 64
        invariant
            sq <= 64,
            mine == pawns_of(*pos, side),
            enemy_attacks == pawn_attack_set(*pos, side.spec_other(), 64),
            s == backward_terms(*pos, side),
            n == total(s.take(sq as int)),
            n <= sq,
        decreases 64 - sq,
    {
        proof {
            lemma_total_step(s, sq as int);
        }
        if has_bit(mine, sq) && !is_supported(pos, side, sq) {
            let stop: Option<u8> = if side == Color::White {
                if sq / 8 < 7 {
                    Some(sq + 8)
                } else {
                    None
                }
            } else {
                if sq / 8 > 0 {
                    Some(sq - 8)
                } else {
                    None
                }
            };
            if let Some(t) = stop {
                if has_bit(enemy_attacks, t) {
                    n += 1;
                }
            }
        }
        sq += 1;
    }
    proof {
        lemma_total_all(s);
    }
    n
}

// ── Passed pawns ─────────────────────────────────────────────────────

/// Whether an enemy pawn on `q` stands in the way of a pawn of `side`
/// on `sq`: on its file or a neighbouring one, ahead of it.
pub open spec fn blocks(side: Color, q: int, sq: int) -> bool {
    let df = file_of(q) - file_of(sq);
    -1 <= df <= 1 && if side == Color::White {
        rank_of(q) > rank_of(sq)
    } else {
        rank_of(q) < rank_of(sq)
    }
}

pub open spec fn blocker_terms(p: Position, side: Color, sq: int) -> Seq<int> {
    Seq::new(
        64,
        |q: int| one_if(bit(pawns_of(p, side.spec_other()), q) && blocks(side, q, sq)),
    )
}

/// A pawn with no enemy pawn ahead of it on its file or a neighbouring one.
pub open spec fn is_passed(p: Position, side: Color, sq: int) -> bool {
    bit(pawns_of(p, side), sq) && total(blocker_terms(p, side, sq)) == 0
}

pub open spec fn passed_terms(p: Position, side: Color) -> Seq<int> {
    Seq::new(64, |sq: int| one_if(is_passed(p, side, sq)))
}

pub open spec fn spec_passed(p: Position, side: Color) -> int {
    total(passed_terms(p, side))
}

/// A pawn of `side` on `sq` is passed exactly when no enemy pawn stands
/// on its own file or on either neighbouring file (files at most one
/// apart, to the left as to the right) on a rank ahead of it: higher for
/// White, lower for Black.
pub proof fn lemma_passed_exactly(p: Position, side: Color, sq: int)
    requires
        0 <= sq < 64,
    ensures
        is_passed(p, side, sq) <==> (bit(p.pawns & p.color_bb(side), sq) && forall|q: int|
            0 <= q < 64 && #[trigger] bit(p.pawns & p.color_bb(side.spec_other()), q) && sq % 8 - 1 <= q
                % 8 <= sq % 8 + 1 ==> if side == Color::White {
                q / 8 <= sq / 8
            } else {
                q / 8 >= sq / 8
            }),
{
    let t = blocker_terms(p, side, sq);
    assert forall|i: int| 0 <= i < t.len() implies #[trigger] t[i] >= 0 by {}
    if is_passed(p, side, sq) {
        assert forall|q: int|
            0 <= q < 64 && #[trigger] bit(p.pawns & p.color_bb(side.spec_other()), q) && sq % 8 - 1 <= q % 8
                <= sq % 8 + 1 implies if side == Color::White {
            q / 8 <= sq / 8
        } else {
            q / 8 >= sq / 8
        } by {
            lemma_total_zero_terms(t, q);
        }
    }
    if bit(p.pawns & p.color_bb(side), sq) && forall|q: int|
        0 <= q < 64 && #[trigger] bit(p.pawns & p.color_bb(side.spec_other()), q) && sq % 8 - 1 <= q % 8
            <= sq % 8 + 1 ==> if side == Color::White {
            q / 8 <= sq / 8
        } else {
            q / 8 >= sq / 8
        } {
        assert forall|i: int| 0 <= i < t.len() implies #[trigger] t[i] == 0 by {
            if bit(pawns_of(p, side.spec_other()), i) && blocks(side, i, sq) {
                assert(bit(p.pawns & p.color_bb(side.spec_other()), i));
            }
        }
        lemma_total_zero(t);
    }
}

/// Whether no enemy pawn stands ahead of the pawn on `sq`.
fn path_is_clear(pos: &Position, side: Color, sq: u8) -> (r: bool)
    requires
        sq < 64,
    ensures
        r == (total(blocker_terms(*pos, side, sq as int)) == 0),
{
    let theirs = pos.pawns & pos.by_color(side.other());
    let ghost s = blocker_terms(*pos, side, sq as int);
    let mut n: u32 = 0;
    let mut q: u8 = 0;
    while q < 64
        invariant
            q <= 64,
            sq < 64,
            theirs == pawns_of(*pos, side.spec_other()),
            s == blocker_terms(*pos, side, sq as int),
            n == total(s.take(q as int)),
            n <= q,
        decreases 64 - q,
    {
        proof {
            lemma_total_step(s, q as int);
        }
        if has_bit(theirs, q) {
            let df = (q % 8) as i32 - (sq % 8) as i32;
            let ahead = if side == Color::White {
                q / 8 > sq / 8
            } else {
                q / 8 < sq / 8
            };
            if -1 <= df && df <= 1 && ahead {
                n += 1;
            }
        }
        q += 1;
    }
    proof {
        lemma_total_all(s);
    }
    n == 0
}

/// Counts the passed pawns of `side`.
pub fn passed_pawns(pos: &Position, side: Color) -> (r: u32)
    ensures
        r == spec_passed(*pos, side),
        r <= 64,
{
    let mine = pos.pawns & pos.by_color(side);
    let ghost s = passed_terms(*pos, side);
    let mut n: u32 = 0;
    let mut sq: u8 = 0;
    while sq < 64
        invariant
            sq <= 64,
            mine == pawns_of(*pos, side),
            s == passed_terms(*pos, side),
            n == total(s.take(sq as int)),
            n <= sq,
        decreases 64 - sq,
    {
        proof {
            lemma_total_step(s, sq as int);
        }
        if has_bit(mine, sq) && path_is_clear(pos, side, sq) {
            n += 1;
        }
        sq += 1;
    }
    proof {
        lemma_total_all(s);
    }
    n
}

// ── Pawn chains ──────────────────────────────────────────────────────

/// A pawn defended by a pawn of its own side.
pub open spec fn is_chained(p: Position, side: Color, sq: int) -> bool {
    bit(pawns_of(p, side), sq) && pawn_attacks_of(side.spec_other(), sq as u8) & pawns_of(p, side)
        != 0
}

pub open spec fn chain_terms(p: Position, side: Color) -> Seq<int> {
    Seq::new(64, |sq: int| one_if(is_chained(p, side, sq)))
}

pub open spec fn spec_pawn_chain(p: Position, side: Color) -> int {
    total(chain_terms(p, side))
}

/// Counts the pawns of `side` that a pawn of their own side defends.
pub fn pawn_chain(pos: &Position, side: Color) -> (r: u32)
    ensures
        r == spec_pawn_chain(*pos, side),
        r <= 64,
{
    let mine = pos.pawns & pos.by_color(side);
    let ghost s = chain_terms(*pos, side);
    let mut n: u32 = 0;
    let mut sq: u8 = 0;
    while sq < 64
        invariant
            sq <= 64,
            mine == pawns_of(*pos, side),
            s == chain_terms(*pos, side),
            n == total(s.take(sq as int)),
            n <= sq,
        decreases 64 - sq,
    {
        proof {
            lemma_total_step(s, sq as int);
        }
        if has_bit(mine, sq) && pawn_attacks(side.other(), sq) & mine != 0 {
            n += 1;
        }
        sq += 1;
    }
    proof {
        lemma_total_all(s);
    }
    n
}

} // verus!
