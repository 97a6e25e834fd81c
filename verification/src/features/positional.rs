//! Positional features: file structure, the centre, activity and space,
//! king tropism, batteries, rook placement and piece-square tables.

use vstd::prelude::*;
use vstd::std_specs::bits::{axiom_u64_trailing_zeros, u64_trailing_zeros};

use crate::board::{bit, file_of, has_bit, rank_of, Color, Position, Role};
use crate::engine::eval::{
    count_bits, popcount, spec_pst_index, pst_index, EVAL_PST_BISHOP, EVAL_PST_KING_EG,
    EVAL_PST_KING_MG, EVAL_PST_KNIGHT, EVAL_PST_PAWN, EVAL_PST_QUEEN, EVAL_PST_ROOK,
};
use crate::features::{
    attack_union, attacked_by, count_on_file, distance, king_of, king_square, lemma_total_all,
    lemma_total_step, on_file, one_if, square_distance, total,
};
use crate::rules::{between, between_of};

verus! {

// ── Open and semi-open files ─────────────────────────────────────────

/// Files with no pawn at all.
pub open spec fn file_terms_open(p: Position) -> Seq<int> {
    Seq::new(8, |f: int| one_if(on_file(p.pawns, f) == 0))
}

pub open spec fn spec_open_files(p: Position) -> int {
    total(file_terms_open(p))
}

/// Files with pawns of only one side.
pub open spec fn file_terms_semi_open(p: Position, side: Color) -> Seq<int> {
    Seq::new(
        8,
        |f: int|
            one_if(
                on_file(p.pawns, f) != 0 && (on_file(p.pawns & p.color_bb(side), f) == 0 || on_file(
                    p.pawns & p.color_bb(side.spec_other()),
                    f,
                ) == 0),
            ),
    )
}

pub open spec fn spec_semi_open_files(p: Position, side: Color) -> int {
    total(file_terms_semi_open(p, side))
}

/// Counts the files with no pawn and, for `side`, the files with pawns
/// of only one side.
pub fn file_state(pos: &Position, side: Color) -> (r: (u32, u32))
    ensures
        r.0 == spec_open_files(*pos),
        r.1 == spec_semi_open_files(*pos, side),
        r.0 <= 8,
        r.1 <= 8,
{
    let mine = pos.pawns & pos.by_color(side);
    let theirs = pos.pawns & pos.by_color(side.other());
    let ghost so = file_terms_open(*pos);
    let ghost ss = file_terms_semi_open(*pos, side);
    let mut open: u32 = 0;
    let mut semi: u32 = 0;
    let mut f: u8 = 0;
    while f < 8
        invariant
            f <= 8,
            mine == pos.pawns & pos.color_bb(side),
            theirs == pos.pawns & pos.color_bb(side.spec_other()),
            so == file_terms_open(*pos),
            ss == file_terms_semi_open(*pos, side),
            open == total(so.take(f as int)),
            semi == total(ss.take(f as int)),
            open <= f,
            semi <= f,
        decreases 8 - f,
    {
        proof {
            lemma_total_step(so, f as int);
            lemma_total_step(ss, f as int);
        }
        if count_on_file(pos.pawns, f) == 0 {
            open += 1;
        } else if count_on_file(mine, f) == 0 || count_on_file(theirs, f) == 0 {
            semi += 1;
        }
        f += 1;
    }
    proof {
        lemma_total_all(so);
        lemma_total_all(ss);
    }
    (open, semi)
}

// ── The centre ───────────────────────────────────────────────────────

/// The occupied squares of `side`.
pub open spec fn own_occupied(p: Position, side: Color) -> u64 {
    (p.white | p.black) & p.color_bb(side)
}

/// The pieces of `side` on d4, e4, d5 and e5.
pub open spec fn spec_center_control(p: Position, side: Color) -> int {
    let own = own_occupied(p, side);
    one_if(bit(own, 27)) + one_if(bit(own, 28)) + one_if(bit(own, 35)) + one_if(bit(own, 36))
}

/// Counts the pieces of `side` on the four centre squares.
pub fn center_control(pos: &Position, side: Color) -> (r: u32)
    ensures
        r == spec_center_control(*pos, side),
        r <= 4,
{
    let own = (pos.white | pos.black) & pos.by_color(side);
    let mut n: u32 = 0;
    if has_bit(own, 27) {
        n += 1;
    }
    if has_bit(own, 28) {
        n += 1;
    }
    if has_bit(own, 35) {
        n += 1;
    }
    if has_bit(own, 36) {
        n += 1;
    }
    n
}

// ── Activity and space ───────────────────────────────────────────────

/// The squares the pieces of `side` attack.
pub open spec fn spec_piece_activity(p: Position, side: Color) -> int {
    count_bits(attack_union(p, side, 64), 64)
}

/// Counts the squares the pieces of `side` attack.
pub fn piece_activity(pos: &Position, side: Color) -> (r: u32)
    ensures
        r == spec_piece_activity(*pos, side),
        r <= 64,
{
    popcount(attacked_by(pos, side))
}

/// Whether `sq` lies in the opponent's half of the board from `side`'s
/// point of view.
pub open spec fn in_enemy_half(side: Color, sq: int) -> bool {
    if side == Color::White {
        rank_of(sq) >= 4
    } else {
        rank_of(sq) <= 3
    }
}

pub open spec fn space_terms(p: Position, side: Color) -> Seq<int> {
    Seq::new(
        64,
        |sq: int| one_if(bit(attack_union(p, side, 64), sq) && in_enemy_half(side, sq)),
    )
}

/// The squares in the opponent's half that `side` attacks.
pub open spec fn spec_space(p: Position, side: Color) -> int {
    total(space_terms(p, side))
}

/// Counts the squares in the opponent's half that `side` attacks.
pub fn space(pos: &Position, side: Color) -> (r: u32)
    ensures
        r == spec_space(*pos, side),
        r <= 64,
{
    let controlled = attacked_by(pos, side);
    let ghost s = space_terms(*pos, side);
    let mut n: u32 = 0;
    let mut sq: u8 = 0;
    while sq < 64
        invariant
            sq <= 64,
            controlled == attack_union(*pos, side, 64),
            s == space_terms(*pos, side),
            n == total(s.take(sq as int)),
            n <= sq,
        decreases 64 - sq,
    {
        proof {
            lemma_total_step(s, sq as int);
        }
        let half = if side == Color::White {
            sq / 8 >= 4
        } else {
            sq / 8 <= 3
        };
        if has_bit(controlled, sq) && half {
            n += 1;
        }
        sq += 1;
    }
    proof {
        lemma_total_all(s);
    }
    n
}

// ── King tropism ─────────────────────────────────────────────────────

/// How close the piece of `side` on `sq` is to the enemy king on `k`:
/// seven less the distance, for pieces other than pawns and kings.
pub open spec fn tropism_term(p: Position, side: Color, k: int, sq: int) -> int {
    if bit(p.color_bb(side), sq) {
        match p.piece_at(sq) {
            Some(pc) => if pc.role == Role::King || pc.role == Role::Pawn {
                0
            } else {
                7 - distance(k, sq)
            },
            None => 0,
        }
    } else {
        0
    }
}

pub open spec fn tropism_terms(p: Position, side: Color, k: int) -> Seq<int> {
    Seq::new(64, |sq: int| tropism_term(p, side, k, sq))
}

/// How close the pieces of `side` are to the enemy king; nothing
/// without a single enemy king.
pub open spec fn spec_king_tropism(p: Position, side: Color) -> int {
    match king_square(p, side.spec_other()) {
        Some(k) => total(tropism_terms(p, side, k)),
        None => 0,
    }
}

/// Sums how close the pieces of `side` are to the enemy king.
pub fn king_tropism(pos: &Position, side: Color) -> (r: u32)
    ensures
        r == spec_king_tropism(*pos, side),
        r <= 7 * 64,
{
    let k = match king_of(pos, side.other()) {
        Some(k) => k,
        None => {
            return 0;
        },
    };
    let own = pos.by_color(side);
    let ghost s = tropism_terms(*pos, side, k as int);
    let mut n: u32 = 0;
    let mut sq: u8 = 0;
    while sq < 64
        invariant
            sq <= 64,
            k < 64,
            own == pos.color_bb(side),
            s == tropism_terms(*pos, side, k as int),
            n == total(s.take(sq as int)),
            n <= 7 * sq,
        decreases 64 - sq,
    {
        proof {
            lemma_total_step(s, sq as int);
        }
        if has_bit(own, sq) {
            if let Some(pc) = pos.get_piece(sq) {
                if pc.role != Role::King && pc.role != Role::Pawn {
                    n += 7 - square_distance(k, sq) as u32;
                }
            }
        }
        sq += 1;
    }
    proof {
        lemma_total_all(s);
    }
    n
}

// ── Batteries ────────────────────────────────────────────────────────

/// A rook or queen of `side` on `sq`.
pub open spec fn is_heavy(p: Position, side: Color, sq: int) -> bool {
    p.piece_at(sq) matches Some(pc) && pc.color == side && (pc.role == Role::Rook || pc.role
        == Role::Queen)
}

/// A bishop or queen of `side` on `sq`.
pub open spec fn is_diagonal_piece(p: Position, side: Color, sq: int) -> bool {
    p.piece_at(sq) matches Some(pc) && pc.color == side && (pc.role == Role::Bishop || pc.role
        == Role::Queen)
}

/// The rooks and queens of `side` on file `f`.
pub open spec fn heavy_on_file(p: Position, side: Color, f: int) -> int {
    total(Seq::new(8, |r: int| one_if(is_heavy(p, side, r * 8 + f))))
}

/// The rooks and queens of `side` on rank `r`.
pub open spec fn heavy_on_rank(p: Position, side: Color, r: int) -> int {
    total(Seq::new(8, |f: int| one_if(is_heavy(p, side, r * 8 + f))))
}

/// The bishops and queens of `side` on the diagonal where file plus rank
/// is `s`.
pub open spec fn diagonal_count(p: Position, side: Color, s: int) -> int {
    total(
        Seq::new(
            8,
            |f: int| one_if(0 <= s - f < 8 && is_diagonal_piece(p, side, (s - f) * 8 + f)),
        ),
    )
}

/// The bishops and queens of `side` on the anti-diagonal where file less
/// rank is `d`.
pub open spec fn anti_diagonal_count(p: Position, side: Color, d: int) -> int {
    total(
        Seq::new(
            8,
            |f: int| one_if(0 <= f - d < 8 && is_diagonal_piece(p, side, (f - d) * 8 + f)),
        ),
    )
}

pub open spec fn battery_terms(p: Position, side: Color) -> Seq<int> {
    Seq::new(
        8,
        |i: int|
            one_if(heavy_on_file(p, side, i) >= 2) + one_if(heavy_on_rank(p, side, i) >= 2),
    )
}

pub open spec fn diagonal_battery_terms(p: Position, side: Color) -> Seq<int> {
    Seq::new(
        15,
        |s: int|
            one_if(diagonal_count(p, side, s) >= 2) + one_if(
                anti_diagonal_count(p, side, s - 7) >= 2,
            ),
    )
}

/// The files and ranks holding two or more rooks and queens of `side`,
/// and the diagonals holding two or more of its bishops and queens.
pub open spec fn spec_batteries(p: Position, side: Color) -> int {
    total(battery_terms(p, side)) + total(diagonal_battery_terms(p, side))
}

/// Whether a rook or queen of `side` stands on `sq`.
fn heavy_at(pos: &Position, side: Color, sq: u8) -> (r: bool)
    requires
        sq < 64,
    ensures
        r == is_heavy(*pos, side, sq as int),
{
    match pos.get_piece(sq) {
        Some(pc) => pc.color == side && (pc.role == Role::Rook || pc.role == Role::Queen),
        None => false,
    }
}

/// Whether a bishop or queen of `side` stands on `sq`.
fn diagonal_piece_at(pos: &Position, side: Color, sq: u8) -> (r: bool)
    requires
        sq < 64,
    ensures
        r == is_diagonal_piece(*pos, side, sq as int),
{
    match pos.get_piece(sq) {
        Some(pc) => pc.color == side && (pc.role == Role::Bishop || pc.role == Role::Queen),
        None => false,
    }
}

/// Counts the rooks and queens of `side` on file `f` (when `by_file`) or
/// on rank `f`.
fn heavy_on_line(pos: &Position, side: Color, i: u8, by_file: bool) -> (r: u32)
    requires
        i < 8,
    ensures
        r == if by_file {
            heavy_on_file(*pos, side, i as int)
        } else {
            heavy_on_rank(*pos, side, i as int)
        },
        r <= 8,
{
    let ghost s = if by_file {
        Seq::new(8, |r: int| one_if(is_heavy(*pos, side, r * 8 + i)))
    } else {
        Seq::new(8, |f: int| one_if(is_heavy(*pos, side, i * 8 + f)))
    };
    let mut n: u32 = 0;
    let mut j: u8 = 0;
    while j < 8
        invariant
            j <= 8,
            i < 8,
            s == if by_file {
                Seq::new(8, |r: int| one_if(is_heavy(*pos, side, r * 8 + i)))
            } else {
                Seq::new(8, |f: int| one_if(is_heavy(*pos, side, i * 8 + f)))
            },
            n == total(s.take(j as int)),
            n <= j,
        decreases 8 - j,
    {
        proof {
            lemma_total_step(s, j as int);
        }
        let sq = if by_file {
            j * 8 + i
        } else {
            i * 8 + j
        };
        if heavy_at(pos, side, sq) {
            n += 1;
        }
        j += 1;
    }
    proof {
        lemma_total_all(s);
    }
    n
}

/// Counts the bishops and queens of `side` on the diagonal `file + rank
/// == s` (when `anti` is false) or on the anti-diagonal `file - rank ==
/// s - 7`.
fn diagonal_pieces(pos: &Position, side: Color, s: u8, anti: bool) -> (r: u32)
    requires
        s < 15,
    ensures
        r == if anti {
            anti_diagonal_count(*pos, side, s - 7)
        } else {
            diagonal_count(*pos, side, s as int)
        },
        r <= 8,
{
    let ghost t = if anti {
        Seq::new(
            8,
            |f: int|
                one_if(
                    0 <= f - (s - 7) < 8 && is_diagonal_piece(*pos, side, (f - (s - 7)) * 8 + f),
                ),
        )
    } else {
        Seq::new(8, |f: int| one_if(0 <= s - f < 8 && is_diagonal_piece(*pos, side, (s - f) * 8 + f)))
    };
    let mut n: u32 = 0;
    let mut f: u8 = 0;
    while f < 8
        invariant
            f <= 8,
            s < 15,
            t == if anti {
                Seq::new(
                    8,
                    |f: int|
                        one_if(
                            0 <= f - (s - 7) < 8 && is_diagonal_piece(
                                *pos,
                                side,
                                (f - (s - 7)) * 8 + f,
                            ),
                        ),
                )
            } else {
                Seq::new(
                    8,
                    |f: int| one_if(0 <= s - f < 8 && is_diagonal_piece(*pos, side, (s - f) * 8 + f)),
                )
            },
            n == total(t.take(f as int)),
            n <= f,
        decreases 8 - f,
    {
        proof {
            lemma_total_step(t, f as int);
        }
        // The rank on this file, shifted by 7 to stay unsigned.
        let r7: i32 = if anti {
            f as i32 - (s as i32 - 7)
        } else {
            s as i32 - f as i32
        };
        if 0 <= r7 && r7 < 8 {
            if diagonal_piece_at(pos, side, (r7 * 8 + f as i32) as u8) {
                n += 1;
            }
        }
        f += 1;
    }
    proof {
        lemma_total_all(t);
    }
    n
}

/// Counts the batteries of `side`.
pub fn batteries(pos: &Position, side: Color) -> (r: u32)
    ensures
        r == spec_batteries(*pos, side),
        r <= 46,
{
    let ghost s = battery_terms(*pos, side);
    let mut n: u32 = 0;
    let mut i: u8 = 0;
    while i < 8
        invariant
            i <= 8,
            s == battery_terms(*pos, side),
            n == total(s.take(i as int)),
            n <= 2 * i,
        decreases 8 - i,
    {
        proof {
            lemma_total_step(s, i as int);
        }
        if heavy_on_line(pos, side, i, true) >= 2 {
            n += 1;
        }
        if heavy_on_line(pos, side, i, false) >= 2 {
            n += 1;
        }
        i += 1;
    }
    proof {
        lemma_total_all(s);
    }
    let ghost t = diagonal_battery_terms(*pos, side);
    let mut m: u32 = 0;
    let mut d: u8 = 0;
    while d < 15
        invariant
            d <= 15,
            t == diagonal_battery_terms(*pos, side),
            m == total(t.take(d as int)),
            m <= 2 * d,
        decreases 15 - d,
    {
        proof {
            lemma_total_step(t, d as int);
        }
        if diagonal_pieces(pos, side, d, false) >= 2 {
            m += 1;
        }
        if diagonal_pieces(pos, side, d, true) >= 2 {
            m += 1;
        }
        d += 1;
    }
    proof {
        lemma_total_all(t);
    }
    n + m
}

// ── Rooks on open files ──────────────────────────────────────────────

/// What the rook of `side` on `sq` scores, in halves: two on a file
/// without pawns, one on a file without pawns of its side.
pub open spec fn open_rook_term(p: Position, side: Color, sq: int) -> int {
    if bit(p.rooks & p.color_bb(side), sq) {
        if on_file(p.pawns, file_of(sq)) == 0 {
            2
        } else if on_file(p.pawns & p.color_bb(side), file_of(sq)) == 0 {
            1
        } else {
            0
        }
    } else {
        0
    }
}

pub open spec fn open_rook_terms(p: Position, side: Color) -> Seq<int> {
    Seq::new(64, |sq: int| open_rook_term(p, side, sq))
}

/// The rooks of `side` on open files, in halves: a full point for an
/// open file, half a point for a semi-open one.
pub open spec fn spec_rook_open_file_halves(p: Position, side: Color) -> int {
    total(open_rook_terms(p, side))
}

/// Counts, in halves, the rooks of `side` on open and semi-open files.
pub fn rook_open_file_halves(pos: &Position, side: Color) -> (r: u32)
    ensures
        r == spec_rook_open_file_halves(*pos, side),
        r <= 128,
{
    let rooks = pos.rooks & pos.by_color(side);
    let mine = pos.pawns & pos.by_color(side);
    let ghost s = open_rook_terms(*pos, side);
    let mut n: u32 = 0;
    let mut sq: u8 = 0;
    while sq < 64
        invariant
            sq <= 64,
            rooks == pos.rooks & pos.color_bb(side),
            mine == pos.pawns & pos.color_bb(side),
            s == open_rook_terms(*pos, side),
            n == total(s.take(sq as int)),
            n <= 2 * sq,
        decreases 64 - sq,
    {
        proof {
            lemma_total_step(s, sq as int);
        }
        if has_bit(rooks, sq) {
            let f = sq % 8;
            if count_on_file(pos.pawns, f) == 0 {
                n += 2;
            } else if count_on_file(mine, f) == 0 {
                n += 1;
            }
        }
        sq += 1;
    }
    proof {
        lemma_total_all(s);
    }
    n
}

// ── Connected rooks ──────────────────────────────────────────────────

/// Whether the first two rooks of `side`, in square order, share a rank
/// with nothing between them.
pub open spec fn spec_connected_rooks(p: Position, side: Color) -> bool {
    let rooks = p.rooks & p.color_bb(side);
    if rooks == 0 || rooks & ((rooks - 1) as u64) == 0 {
        false
    } else {
        let r0 = u64_trailing_zeros(rooks);
        let r1 = u64_trailing_zeros(rooks & ((rooks - 1) as u64));
        rank_of(r0 as int) == rank_of(r1 as int) && between_of(r0 as u8, r1 as u8) & (p.white
            | p.black) == 0
    }
}

/// Whether the rooks of `side` are connected on a rank.
pub fn connected_rooks(pos: &Position, side: Color) -> (r: bool)
    ensures
        r == spec_connected_rooks(*pos, side),
{
    let rooks = pos.rooks & pos.by_color(side);
    if rooks == 0 || rooks & (rooks - 1) == 0 {
        return false;
    }
    let rest = rooks & (rooks - 1);
    proof {
        axiom_u64_trailing_zeros(rooks);
        axiom_u64_trailing_zeros(rest);
    }
    let r0 = rooks.trailing_zeros() as u8;
    let r1 = rest.trailing_zeros() as u8;
    r0 / 8 == r1 / 8 && between(r0, r1) & (pos.white | pos.black) == 0
}

// ── Piece-square tables ──────────────────────────────────────────────

/// The table entry for a piece other than a king.
pub open spec fn table_entry(role: Role, idx: int) -> int {
    match role {
        Role::Pawn => EVAL_PST_PAWN[idx] as int,
        Role::Knight => EVAL_PST_KNIGHT[idx] as int,
        Role::Bishop => EVAL_PST_BISHOP[idx] as int,
        Role::Rook => EVAL_PST_ROOK[idx] as int,
        Role::Queen => EVAL_PST_QUEEN[idx] as int,
        Role::King => 0,
    }
}

/// What the piece on `sq` adds to the table sum of `side`: its entry,
/// or for a king its middlegame entry (`king_mg`) or endgame entry.
pub open spec fn table_term(p: Position, side: Color, sq: int, part: int) -> int {
    match p.piece_at(sq) {
        Some(pc) => if pc.color != side {
            0
        } else if pc.role == Role::King {
            if part == 1 {
                EVAL_PST_KING_MG[spec_pst_index(sq, side)] as int
            } else if part == 2 {
                EVAL_PST_KING_EG[spec_pst_index(sq, side)] as int
            } else {
                0
            }
        } else if part == 0 {
            table_entry(pc.role, spec_pst_index(sq, side))
        } else {
            0
        },
        None => 0,
    }
}

pub open spec fn table_terms(p: Position, side: Color, part: int) -> Seq<int> {
    Seq::new(64, |sq: int| table_term(p, side, sq, part))
}

/// The piece-square sums of one side: the entries of its pieces other
/// than the king, and its king's middlegame and endgame entries.  The
/// model blends the two king sums by the game phase.
#[derive(Clone, Copy, Debug, PartialEq, Eq)]
pub struct TableSums {
    pub pieces: i32,
    pub king_mg: i32,
    pub king_eg: i32,
}

/// Sums the piece-square table entries of the pieces of `side`.
pub fn table_sums(pos: &Position, side: Color) -> (r: TableSums)
    ensures
        r.pieces == total(table_terms(*pos, side, 0)),
        r.king_mg == total(table_terms(*pos, side, 1)),
        r.king_eg == total(table_terms(*pos, side, 2)),
{
    proof {
        crate::engine::eval::lemma_tables_bounded();
    }
    let ghost s0 = table_terms(*pos, side, 0);
    let ghost s1 = table_terms(*pos, side, 1);
    let ghost s2 = table_terms(*pos, side, 2);
    let mut r = TableSums { pieces: 0, king_mg: 0, king_eg: 0 };
    let mut sq: u8 = 0;
    while sq < 64
        invariant
            sq <= 64,
            s0 == table_terms(*pos, side, 0),
            s1 == table_terms(*pos, side, 1),
            s2 == table_terms(*pos, side, 2),
            r.pieces == total(s0.take(sq as int)),
            r.king_mg == total(s1.take(sq as int)),
            r.king_eg == total(s2.take(sq as int)),
            -50 * sq <= r.pieces <= 50 * sq,
            -50 * sq <= r.king_mg <= 50 * sq,
            -50 * sq <= r.king_eg <= 50 * sq,
            forall|i: int|
                0 <= i < 64 ==> {
                    &&& -50 <= #[trigger] EVAL_PST_PAWN[i] <= 50
                    &&& -50 <= EVAL_PST_KNIGHT[i] <= 50
                    &&& -50 <= EVAL_PST_BISHOP[i] <= 50
                    &&& -50 <= EVAL_PST_ROOK[i] <= 50
                    &&& -50 <= EVAL_PST_QUEEN[i] <= 50
                    &&& -50 <= EVAL_PST_KING_MG[i] <= 50
                    &&& -50 <= EVAL_PST_KING_EG[i] <= 50
                },
        decreases 64 - sq,
    {
        proof {
            lemma_total_step(s0, sq as int);
            lemma_total_step(s1, sq as int);
            lemma_total_step(s2, sq as int);
        }
        if let Some(pc) = pos.get_piece(sq) {
            if pc.color == side {
                let idx = pst_index(sq, side);
                match pc.role {
                    Role::Pawn => r.pieces = r.pieces + EVAL_PST_PAWN[idx],
                    Role::Knight => r.pieces = r.pieces + EVAL_PST_KNIGHT[idx],
                    Role::Bishop => r.pieces = r.pieces + EVAL_PST_BISHOP[idx],
                    Role::Rook => r.pieces = r.pieces + EVAL_PST_ROOK[idx],
                    Role::Queen => r.pieces = r.pieces + EVAL_PST_QUEEN[idx],
                    Role::King => {
                        r.king_mg = r.king_mg + EVAL_PST_KING_MG[idx];
                        r.king_eg = r.king_eg + EVAL_PST_KING_EG[idx];
                    },
                }
            }
        }
        sq += 1;
    }
    proof {
        lemma_total_all(s0);
        lemma_total_all(s1);
        lemma_total_all(s2);
    }
    r
}

} // verus!
