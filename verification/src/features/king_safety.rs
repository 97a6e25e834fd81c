//! King safety: pressure on the squares around each king, the king's own
//! guards, and its pawn shield.

use vstd::prelude::*;

use crate::board::{bit, file_of, has_bit, rank_of, Color, Piece, Position, Role};
use crate::features::{
    attackers_to, attacks_from, attacks_from_square, attacks_to, distance, king_of, king_square,
    lemma_total_all, lemma_total_step, one_if, square_distance, total,
};

verus! {

// ── Pressure on the king's ring ──────────────────────────────────────

/// Whether `sq` is on the ring of `side`'s king: the king's square and
/// the squares next to it.
pub open spec fn in_ring(p: Position, side: Color, sq: int) -> bool {
    match king_square(p, side) {
        Some(k) => distance(k, sq) <= 1,
        None => false,
    }
}

/// The strongest kind of piece of `side` attacking `sq`, in the order
/// queen, rook, bishop, knight, pawn; a king when only a king attacks,
/// nothing when no piece does.
pub open spec fn strongest_attacker(p: Position, sq: int, side: Color) -> Option<Role> {
    let a = attackers_to(p, sq as u8, side, p.white | p.black);
    if a == 0 {
        None
    } else if a & p.queens != 0 {
        Some(Role::Queen)
    } else if a & p.rooks != 0 {
        Some(Role::Rook)
    } else if a & p.bishops != 0 {
        Some(Role::Bishop)
    } else if a & p.knights != 0 {
        Some(Role::Knight)
    } else if a & p.pawns != 0 {
        Some(Role::Pawn)
    } else {
        Some(Role::King)
    }
}

pub open spec fn pressure_terms(p: Position, attacker: Color, role: Role) -> Seq<int> {
    Seq::new(
        64,
        |sq: int|
            one_if(
                in_ring(p, attacker.spec_other(), sq) && strongest_attacker(p, sq, attacker) == Some(
                    role,
                ),
            ),
    )
}

/// The number of squares on the enemy king's ring whose strongest
/// attacker of `attacker` is of `role`.
pub open spec fn ring_pressure(p: Position, attacker: Color, role: Role) -> int {
    total(pressure_terms(p, attacker, role))
}

/// The squares of the enemy king's ring by the strongest piece attacking
/// each: the model weighs each kind of piece by its own weight.
#[derive(Clone, Copy, Debug, PartialEq, Eq)]
pub struct RingPressure {
    pub pawns: u32,
    pub knights: u32,
    pub bishops: u32,
    pub rooks: u32,
    pub queens: u32,
}

/// Counts, for each square of the enemy king's ring that `attacker`
/// attacks, the strongest kind of piece attacking it.
pub fn king_ring_pressure(pos: &Position, attacker: Color) -> (r: RingPressure)
    ensures
        r.pawns == ring_pressure(*pos, attacker, Role::Pawn),
        r.knights == ring_pressure(*pos, attacker, Role::Knight),
        r.bishops == ring_pressure(*pos, attacker, Role::Bishop),
        r.rooks == ring_pressure(*pos, attacker, Role::Rook),
        r.queens == ring_pressure(*pos, attacker, Role::Queen),
{
    let ghost sp = pressure_terms(*pos, attacker, Role::Pawn);
    let ghost sn = pressure_terms(*pos, attacker, Role::Knight);
    let ghost sb = pressure_terms(*pos, attacker, Role::Bishop);
    let ghost sr = pressure_terms(*pos, attacker, Role::Rook);
    let ghost sq_ = pressure_terms(*pos, attacker, Role::Queen);
    let king = king_of(pos, attacker.other());
    let occupied = pos.white | pos.black;
    let mut r = RingPressure { pawns: 0, knights: 0, bishops: 0, rooks: 0, queens: 0 };
    let mut sq: u8 = 0;
    while sq < 64
        invariant
            sq <= 64,
            occupied == pos.white | pos.black,
            king matches Some(k) ==> k < 64 && king_square(*pos, attacker.spec_other()) == Some(
                k as int,
            ),
            king is None ==> king_square(*pos, attacker.spec_other()) is None,
            sp == pressure_terms(*pos, attacker, Role::Pawn),
            sn == pressure_terms(*pos, attacker, Role::Knight),
            sb == pressure_terms(*pos, attacker, Role::Bishop),
            sr == pressure_terms(*pos, attacker, Role::Rook),
            sq_ == pressure_terms(*pos, attacker, Role::Queen),
            r.pawns == total(sp.take(sq as int)),
            r.knights == total(sn.take(sq as int)),
            r.bishops == total(sb.take(sq as int)),
            r.rooks == total(sr.take(sq as int)),
            r.queens == total(sq_.take(sq as int)),
            r.pawns + r.knights + r.bishops + r.rooks + r.queens <= sq,
        decreases 64 - sq,
    {
        proof {
            lemma_total_step(sp, sq as int);
            lemma_total_step(sn, sq as int);
            lemma_total_step(sb, sq as int);
            lemma_total_step(sr, sq as int);
            lemma_total_step(sq_, sq as int);
        }
        let on_ring = match king {
            Some(k) => square_distance(k, sq) <= 1,
            None => false,
        };
        if on_ring {
            let a = attacks_to(pos, sq, attacker, occupied);
            if a != 0 {
                if a & pos.queens != 0 {
                    r.queens = r.queens + 1;
                } else if a & pos.rooks != 0 {
                    r.rooks = r.rooks + 1;
                } else if a & pos.bishops != 0 {
                    r.bishops = r.bishops + 1;
                } else if a & pos.knights != 0 {
                    r.knights = r.knights + 1;
                } else if a & pos.pawns != 0 {
                    r.pawns = r.pawns + 1;
                }
            }
        }
        sq += 1;
    }
    proof {
        lemma_total_all(sp);
        lemma_total_all(sn);
        lemma_total_all(sb);
        lemma_total_all(sr);
        lemma_total_all(sq_);
    }
    r
}

// ── The king's guards ────────────────────────────────────────────────

pub open spec fn guard_terms(p: Position, side: Color, k: int) -> Seq<int> {
    Seq::new(
        64,
        |sq: int|
            one_if(
                bit(attacks_from_square(p, k as u8), sq) && (p.piece_at(sq) matches Some(pc)
                    && pc.color == side),
            ),
    )
}

/// The pieces of `side` on the squares its king attacks; none without a
/// single king.
pub open spec fn spec_king_guards(p: Position, side: Color) -> int {
    match king_square(p, side) {
        Some(k) => total(guard_terms(p, side, k)),
        None => 0,
    }
}

/// Counts the pieces of `side` next to its king.
pub fn king_guards(pos: &Position, side: Color) -> (r: u32)
    ensures
        r == spec_king_guards(*pos, side),
        r <= 64,
{
    let k = match king_of(pos, side) {
        Some(k) => k,
        None => {
            return 0;
        },
    };
    let reach = attacks_from(pos, k);
    let ghost s = guard_terms(*pos, side, k as int);
    let mut n: u32 = 0;
    let mut sq: u8 = 0;
    while sq < 64
        invariant
            sq <= 64,
            k < 64,
            reach == attacks_from_square(*pos, k),
            s == guard_terms(*pos, side, k as int),
            n == total(s.take(sq as int)),
            n <= sq,
        decreases 64 - sq,
    {
        proof {
            lemma_total_step(s, sq as int);
        }
        if has_bit(reach, sq) {
            if let Some(pc) = pos.get_piece(sq) {
                if pc.color == side {
                    n += 1;
                }
            }
        }
        sq += 1;
    }
    proof {
        lemma_total_all(s);
    }
    n
}

// ── The pawn shield ──────────────────────────────────────────────────

/// Whether `sq` is in front of a king on `k`: on its file or a
/// neighbouring one, one or two ranks ahead of it from `side`'s point
/// of view.
pub open spec fn in_shield(k: int, side: Color, sq: int) -> bool {
    let df = file_of(sq) - file_of(k);
    let dr = if side == Color::White {
        rank_of(sq) - rank_of(k)
    } else {
        rank_of(k) - rank_of(sq)
    };
    -1 <= df <= 1 && 1 <= dr <= 2
}

pub open spec fn shield_terms(p: Position, side: Color, k: int) -> Seq<int> {
    Seq::new(
        64,
        |sq: int|
            one_if(
                in_shield(k, side, sq) && p.piece_at(sq) == Some(
                    Piece { color: side, role: Role::Pawn },
                ),
            ),
    )
}

/// The pawns of `side` shielding its king; none without a single king.
pub open spec fn spec_pawn_shield(p: Position, side: Color) -> int {
    match king_square(p, side) {
        Some(k) => total(shield_terms(p, side, k)),
        None => 0,
    }
}

/// Counts the pawns in front of `side`'s king.
pub fn king_pawn_shield(pos: &Position, side: Color) -> (r: u32)
    ensures
        r == spec_pawn_shield(*pos, side),
        r <= 64,
{
    let k = match king_of(pos, side) {
        Some(k) => k,
        None => {
            return 0;
        },
    };
    let ghost s = shield_terms(*pos, side, k as int);
    let (kf, kr) = ((k % 8) as i32, (k / 8) as i32);
    let mut n: u32 = 0;
    let mut sq: u8 = 0;
    while sq < 64
        invariant
            sq <= 64,
            k < 64,
            kf == file_of(k as int),
            kr == rank_of(k as int),
            s == shield_terms(*pos, side, k as int),
            n == total(s.take(sq as int)),
            n <= sq,
        decreases 64 - sq,
    {
        proof {
            lemma_total_step(s, sq as int);
        }
        let df = (sq % 8) as i32 - kf;
        let dr = if side == Color::White {
            (sq / 8) as i32 - kr
        } else {
            kr - (sq / 8) as i32
        };
        if -1 <= df && df <= 1 && 1 <= dr && dr <= 2 {
            if let Some(pc) = pos.get_piece(sq) {
                if pc.color == side && pc.role == Role::Pawn {
                    n += 1;
                }
            }
        }
        sq += 1;
    }
    proof {
        lemma_total_all(s);
    }
    n
}

} // verus!
