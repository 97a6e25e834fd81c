//! Mobility: how many moves each side has, and how many of them land on
//! squares no enemy pawn attacks.

use vstd::prelude::*;

use crate::board::{bit, has_bit, Move, Position};
use crate::features::{lemma_total_all, lemma_total_step, pawn_attack_set, pawn_attacks_by, total};
use crate::rules::{analyze, legal_moves_of, null_move_of, swap_turn};

verus! {

/// A move count as the features report it: at most forty.
pub open spec fn capped40(n: int) -> int {
    if n > 40 {
        40
    } else {
        n
    }
}

/// The number of legal moves, at most forty.
pub fn mobility(pos: &Position) -> (r: u32)
    ensures
        r == capped40(legal_moves_of(*pos).len() as int),
{
    let info = analyze(pos);
    if info.moves.len() > 40 {
        40
    } else {
        info.moves.len() as u32
    }
}

/// The position with the other side to move, or the position itself when
/// passing the turn is not possible.
pub open spec fn opponent_view(p: Position) -> Position {
    match null_move_of(p) {
        Some(q) => q,
        None => p,
    }
}

/// The position as the opponent would face it.
pub fn opponent_position(pos: &Position) -> (r: Position)
    ensures
        r == opponent_view(*pos),
{
    match swap_turn(pos) {
        Some(q) => q,
        None => *pos,
    }
}

/// `1` for a move that lands outside `danger`.
pub open spec fn safe_terms(moves: Seq<Move>, danger: u64) -> Seq<int> {
    Seq::new(moves.len(), |i: int| if bit(danger, moves[i].to as int) { 0 } else { 1 })
}

/// The legal moves that land on a square no enemy pawn attacks, at most
/// forty.  A castling move counts by its rook's square.
pub open spec fn spec_safe_mobility(p: Position) -> int {
    capped40(total(safe_terms(legal_moves_of(p), pawn_attack_set(p, p.side().spec_other(), 64))))
}

/// Counts the moves that land on squares no enemy pawn attacks.
pub fn safe_mobility(pos: &Position) -> (r: u32)
    ensures
        r == spec_safe_mobility(*pos),
{
    let danger = pawn_attacks_by(pos, pos.turn().other());
    let info = analyze(pos);
    let ghost s = safe_terms(info.moves@, danger);
    let mut count: usize = 0;
    let mut i: usize = 0;
    while i < info.moves.len()
        invariant
            i <= info.moves@.len(),
            s == safe_terms(info.moves@, danger),
            forall|k: int| 0 <= k < info.moves@.len() ==> (#[trigger] info.moves@[k]).to < 64,
            count == total(s.take(i as int)),
            count <= i,
        decreases info.moves@.len() - i,
    {
        proof {
            lemma_total_step(s, i as int);
        }
        if !has_bit(danger, info.moves[i].to) {
            count += 1;
        }
        i += 1;
    }
    proof {
        lemma_total_all(s);
    }
    if count > 40 {
        40
    } else {
        count as u32
    }
}

} // verus!
