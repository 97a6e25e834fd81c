//! Material: what each side's pieces are worth, and the game phase.

use vstd::prelude::*;

use crate::board::{Color, Position, Role};
use crate::features::{lemma_total_all, lemma_total_step, total};

verus! {

/// A piece's worth in tenths of a pawn: pawn 10, knight 30, bishop 31,
/// rook 50, queen 90, king nothing.
pub open spec fn tenths(r: Role) -> int {
    match r {
        Role::Pawn => 10,
        Role::Knight => 30,
        Role::Bishop => 31,
        Role::Rook => 50,
        Role::Queen => 90,
        Role::King => 0,
    }
}

/// What the piece on `sq` adds to the material of `side`.
pub open spec fn material_term(p: Position, side: Color, sq: int) -> int {
    match p.piece_at(sq) {
        Some(pc) => if pc.color == side {
            tenths(pc.role)
        } else {
            0
        },
        None => 0,
    }
}

pub open spec fn material_terms(p: Position, side: Color) -> Seq<int> {
    Seq::new(64, |sq: int| material_term(p, side, sq))
}

/// The material of `side` in tenths of a pawn.
pub open spec fn spec_material(p: Position, side: Color) -> int {
    total(material_terms(p, side))
}

/// The material of `side` in tenths of a pawn.
pub fn material_tenths(pos: &Position, side: Color) -> (r: u32)
    ensures
        r == spec_material(*pos, side),
        r <= 5760,
{
    let ghost s = material_terms(*pos, side);
    let mut acc: u32 = 0;
    let mut sq: u8 = 0;
    while sq < 64
        invariant
            sq <= 64,
            s == material_terms(*pos, side),
            acc == total(s.take(sq as int)),
            acc <= 90 * sq,
        decreases 64 - sq,
    {
        proof {
            lemma_total_step(s, sq as int);
        }
        if let Some(pc) = pos.get_piece(sq) {
            if pc.color == side {
                let v: u32 = match pc.role {
                    Role::Pawn => 10,
                    Role::Knight => 30,
                    Role::Bishop => 31,
                    Role::Rook => 50,
                    Role::Queen => 90,
                    Role::King => 0,
                };
                acc += v;
            }
        }
        sq += 1;
    }
    proof {
        lemma_total_all(s);
    }
    acc
}

} // verus!
