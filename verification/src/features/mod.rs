//! The position features the explanation model reads, as exact integer
//! counts.  Each module follows one family of features; the caller turns
//! the counts into the model's feature values.

pub mod king_safety;
pub mod material;
pub mod mobility;
pub mod pawn_structure;
pub mod positional;
pub mod tactical;

use vstd::prelude::*;
use vstd::std_specs::bits::{axiom_u64_trailing_zeros, u64_trailing_zeros};

use crate::board::{bit, file_of, rank_of, Color, Position, Role};
use crate::rules::{
    bishop_attacks, bishop_attacks_of, king_attacks, king_attacks_of, knight_attacks,
    knight_attacks_of, pawn_attacks, pawn_attacks_of, rook_attacks, rook_attacks_of,
};

verus! {

// ── Sums over the board ──────────────────────────────────────────────

/// The sum of a sequence of integers.
pub open spec fn total(s: Seq<int>) -> int
    decreases s.len(),
{
    if s.len() == 0 {
        0
    } else {
        total(s.drop_last()) + s.last()
    }
}

/// Adding one more element to a prefix adds it to the sum.
pub proof fn lemma_total_step(s: Seq<int>, i: int)
    requires
        0 <= i < s.len(),
    ensures
        total(s.take(i + 1)) == total(s.take(i)) + s[i],
{
    assert(s.take(i + 1).drop_last() =~= s.take(i));
}

/// The whole sequence is its longest prefix.
pub proof fn lemma_total_all(s: Seq<int>)
    ensures
        total(s.take(s.len() as int)) == total(s),
{
    assert(s.take(s.len() as int) =~= s);
}

/// A sum of terms that are all zero is zero.
pub proof fn lemma_total_zero(s: Seq<int>)
    requires
        forall|i: int| 0 <= i < s.len() ==> #[trigger] s[i] == 0,
    ensures
        total(s) == 0,
    decreases s.len(),
{
    if s.len() > 0 {
        assert forall|i: int| 0 <= i < s.drop_last().len() implies #[trigger] s.drop_last()[i] == 0 by {
            assert(s.drop_last()[i] == s[i]);
        }
        lemma_total_zero(s.drop_last());
    }
}

/// A sum of terms that are never negative is at least each term.
pub proof fn lemma_total_at_least_term(s: Seq<int>, k: int)
    requires
        forall|i: int| 0 <= i < s.len() ==> #[trigger] s[i] >= 0,
        0 <= k < s.len(),
    ensures
        total(s) >= s[k],
        total(s) >= 0,
    decreases s.len(),
{
    let t = s.drop_last();
    assert forall|i: int| 0 <= i < t.len() implies #[trigger] t[i] >= 0 by {
        assert(t[i] == s[i]);
    }
    assert(s.last() == s[s.len() - 1]);
    assert(total(s) == total(t) + s.last());
    if t.len() > 0 {
        lemma_total_at_least_term(t, 0);
    }
    if k < s.len() - 1 {
        assert(t[k] == s[k]);
        lemma_total_at_least_term(t, k);
    }
}

/// A sum of terms that are never negative is zero only when each is.
pub proof fn lemma_total_zero_terms(s: Seq<int>, k: int)
    requires
        forall|i: int| 0 <= i < s.len() ==> #[trigger] s[i] >= 0,
        total(s) == 0,
        0 <= k < s.len(),
    ensures
        s[k] == 0,
{
    lemma_total_at_least_term(s, k);
}

/// `1` for true, `0` for false.
pub open spec fn one_if(b: bool) -> int {
    if b {
        1
    } else {
        0
    }
}

// ── Squares ──────────────────────────────────────────────────────────

/// Chebyshev distance between two squares (`Square::distance`).
pub open spec fn distance(a: int, b: int) -> int {
    let df = if file_of(a) >= file_of(b) {
        file_of(a) - file_of(b)
    } else {
        file_of(b) - file_of(a)
    };
    let dr = if rank_of(a) >= rank_of(b) {
        rank_of(a) - rank_of(b)
    } else {
        rank_of(b) - rank_of(a)
    };
    if df >= dr {
        df
    } else {
        dr
    }
}

/// The distance between two squares.
pub fn square_distance(a: u8, b: u8) -> (r: u8)
    requires
        a < 64,
        b < 64,
    ensures
        r == distance(a as int, b as int),
        r <= 7,
{
    let (fa, fb, ra, rb) = (a % 8, b % 8, a / 8, b / 8);
    let df = if fa >= fb {
        fa - fb
    } else {
        fb - fa
    };
    let dr = if ra >= rb {
        ra - rb
    } else {
        rb - ra
    };
    if df >= dr {
        df
    } else {
        dr
    }
}

/// The only square of a bitboard with exactly one square
/// (`Bitboard::single_square`: nothing when it is empty or has more than
/// one).
pub open spec fn single_square(bb: u64) -> Option<int> {
    if bb == 0 || bb & ((bb - 1) as u64) != 0 {
        None
    } else {
        Some(u64_trailing_zeros(bb) as int)
    }
}

/// The square of a side's king, when it has exactly one (`Board::king_of`).
pub open spec fn king_square(p: Position, side: Color) -> Option<int> {
    single_square(p.kings & p.color_bb(side))
}

/// Finds the square of a side's king.
pub fn king_of(pos: &Position, side: Color) -> (r: Option<u8>)
    ensures
        r matches Some(k) ==> k < 64,
        r matches Some(k) ==> king_square(*pos, side) == Some(k as int),
        r is None ==> king_square(*pos, side) is None,
{
    let kb = pos.kings & pos.by_color(side);
    if kb == 0 || kb & (kb - 1) != 0 {
        None
    } else {
        proof {
            axiom_u64_trailing_zeros(kb);
        }
        Some(kb.trailing_zeros() as u8)
    }
}

// ── Attacks ──────────────────────────────────────────────────────────

/// The pieces of `side` that attack `sq` through the `occupied` squares
/// (`Board::attacks_to`).
pub open spec fn attackers_to(p: Position, sq: u8, side: Color, occupied: u64) -> u64 {
    p.color_bb(side) & ((rook_attacks_of(sq, occupied) & (p.rooks | p.queens)) | (
    bishop_attacks_of(sq, occupied) & (p.bishops | p.queens)) | (knight_attacks_of(sq)
        & p.knights) | (king_attacks_of(sq) & p.kings) | (pawn_attacks_of(side.spec_other(), sq)
        & p.pawns))
}

/// The pieces of `side` that attack `sq`.
pub fn attacks_to(pos: &Position, sq: u8, side: Color, occupied: u64) -> (r: u64)
    requires
        sq < 64,
    ensures
        r == attackers_to(*pos, sq, side, occupied),
{
    pos.by_color(side) & ((rook_attacks(sq, occupied) & (pos.rooks | pos.queens)) | (
    bishop_attacks(sq, occupied) & (pos.bishops | pos.queens)) | (knight_attacks(sq)
        & pos.knights) | (king_attacks(sq) & pos.kings) | (pawn_attacks(side.other(), sq)
        & pos.pawns))
}

/// The squares a piece of `role` and `color` on `sq` attacks
/// (`attacks::attacks`; a queen combines rook and bishop lines).
pub open spec fn piece_attacks(sq: u8, color: Color, role: Role, occupied: u64) -> u64 {
    match role {
        Role::Pawn => pawn_attacks_of(color, sq),
        Role::Knight => knight_attacks_of(sq),
        Role::Bishop => bishop_attacks_of(sq, occupied),
        Role::Rook => rook_attacks_of(sq, occupied),
        Role::Queen => rook_attacks_of(sq, occupied) ^ bishop_attacks_of(sq, occupied),
        Role::King => king_attacks_of(sq),
    }
}

/// The squares the piece on `sq` attacks, none when the square is empty
/// (`Board::attacks_from`).
pub open spec fn attacks_from_square(p: Position, sq: u8) -> u64 {
    match p.piece_at(sq as int) {
        Some(pc) => piece_attacks(sq, pc.color, pc.role, p.white | p.black),
        None => 0,
    }
}

/// The squares the piece on `sq` attacks.
pub fn attacks_from(pos: &Position, sq: u8) -> (r: u64)
    requires
        sq < 64,
    ensures
        r == attacks_from_square(*pos, sq),
{
    let occupied = pos.white | pos.black;
    match pos.get_piece(sq) {
        Some(pc) => match pc.role {
            Role::Pawn => pawn_attacks(pc.color, sq),
            Role::Knight => knight_attacks(sq),
            Role::Bishop => bishop_attacks(sq, occupied),
            Role::Rook => rook_attacks(sq, occupied),
            Role::Queen => rook_attacks(sq, occupied) ^ bishop_attacks(sq, occupied),
            Role::King => king_attacks(sq),
        },
        None => 0,
    }
}

/// The union of the squares attacked by the pieces of `side` on the
/// first `n` squares.
pub open spec fn attack_union(p: Position, side: Color, n: int) -> u64
    decreases n,
{
    if n <= 0 {
        0
    } else {
        let before = attack_union(p, side, n - 1);
        if bit(p.color_bb(side), n - 1) {
            before | attacks_from_square(p, (n - 1) as u8)
        } else {
            before
        }
    }
}

/// Every square the pieces of `side` attack.
pub fn attacked_by(pos: &Position, side: Color) -> (r: u64)
    ensures
        r == attack_union(*pos, side, 64),
{
    let own = pos.by_color(side);
    let mut acc: u64 = 0;
    let mut sq: u8 = 0;
    while sq < 64
        invariant
            sq <= 64,
            own == pos.color_bb(side),
            acc == attack_union(*pos, side, sq as int),
        decreases 64 - sq,
    {
        if crate::board::has_bit(own, sq) {
            acc = acc | attacks_from(pos, sq);
        }
        sq += 1;
    }
    acc
}

/// The squares attacked by the pawns of `c` that stand on the first `n`
/// squares.
pub open spec fn pawn_attack_set(p: Position, c: Color, n: int) -> u64
    decreases n,
{
    if n <= 0 {
        0
    } else {
        let before = pawn_attack_set(p, c, n - 1);
        if bit(p.pawns, n - 1) && bit(p.color_bb(c), n - 1) {
            before | pawn_attacks_of(c, (n - 1) as u8)
        } else {
            before
        }
    }
}

/// Every square a pawn of `c` attacks.
pub fn pawn_attacks_by(pos: &Position, c: Color) -> (r: u64)
    ensures
        r == pawn_attack_set(*pos, c, 64),
{
    let mut acc: u64 = 0;
    let mut sq: u8 = 0;
    while sq < 64
        invariant
            sq <= 64,
            acc == pawn_attack_set(*pos, c, sq as int),
        decreases 64 - sq,
    {
        if crate::board::has_bit(pos.pawns, sq) && crate::board::has_bit(pos.by_color(c), sq) {
            acc = acc | pawn_attacks(c, sq);
        }
        sq += 1;
    }
    acc
}

// ── Files ────────────────────────────────────────────────────────────

/// How many squares of file `f` a bitboard holds.
pub open spec fn on_file(bb: u64, f: int) -> int {
    total(Seq::new(8, |r: int| one_if(bit(bb, r * 8 + f))))
}

/// Counts the squares of file `f` in a bitboard.
pub fn count_on_file(bb: u64, f: u8) -> (r: u32)
    requires
        f < 8,
    ensures
        r == on_file(bb, f as int),
        r <= 8,
{
    let ghost s = Seq::new(8, |r: int| one_if(bit(bb, r * 8 + f)));
    let mut n: u32 = 0;
    let mut r: u8 = 0;
    while r < 8
        invariant
            r <= 8,
            f < 8,
            s == Seq::new(8, |r: int| one_if(bit(bb, r * 8 + f))),
            n == total(s.take(r as int)),
            n <= r,
        decreases 8 - r,
    {
        proof {
            lemma_total_step(s, r as int);
        }
        if crate::board::has_bit(bb, r * 8 + f) {
            n += 1;
        }
        r += 1;
    }
    proof {
        lemma_total_all(s);
    }
    n
}

} // verus!
