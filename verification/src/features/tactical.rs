//! Tactical features: hanging pieces, the bishop pair, rooks on the
//! seventh, knight outposts, pinned pieces and threats.

use vstd::prelude::*;

use crate::board::{bit, has_bit, rank_of, Color, Move, Position, Role};
use crate::engine::eval::{count_bits, piece_value, popcount, spec_piece_value};
use crate::features::{
    attackers_to, attacks_to, king_of, king_square, lemma_total_all, lemma_total_at_least_term,
    lemma_total_step, lemma_total_zero, one_if, total,
};
use crate::engine::see::{see, spec_see};
use crate::rules::{
    analyze, between, between_of, bishop_attacks, bishop_attacks_of, legal_moves_of, null_move_of, rook_attacks,
    rook_attacks_of, swap_turn,
};

verus! {

// ── Hanging pieces ───────────────────────────────────────────────────

/// A piece of `side` that the other side attacks and its own side does
/// not defend.
pub open spec fn is_hanging(p: Position, side: Color, sq: int) -> bool {
    let occupied = p.white | p.black;
    bit(p.color_bb(side), sq) && attackers_to(p, sq as u8, side.spec_other(), occupied) != 0
        && attackers_to(p, sq as u8, side, occupied) == 0
}

pub open spec fn hanging_terms(p: Position, side: Color) -> Seq<int> {
    Seq::new(64, |sq: int| one_if(is_hanging(p, side, sq)))
}

pub open spec fn spec_hanging(p: Position, side: Color) -> int {
    total(hanging_terms(p, side))
}

/// Only undefended pieces hang: when every piece of `side` that the
/// opponent attacks has a defender of its own side, no piece hangs; and
/// one attacked piece without a defender makes the count at least one.
pub proof fn lemma_hanging_means_undefended(p: Position, side: Color)
    ensures
        (forall|sq: int|
            0 <= sq < 64 && bit(p.color_bb(side), sq) && #[trigger] attackers_to(
                p,
                sq as u8,
                side.spec_other(),
                p.white | p.black,
            ) != 0 ==> attackers_to(p, sq as u8, side, p.white | p.black) != 0) ==> spec_hanging(p, side)
            == 0,
        forall|sq: int|
            0 <= sq < 64 && bit(p.color_bb(side), sq) && #[trigger] attackers_to(
                p,
                sq as u8,
                side.spec_other(),
                p.white | p.black,
            ) != 0 && attackers_to(p, sq as u8, side, p.white | p.black) == 0 ==> spec_hanging(p, side)
                >= 1,
{
    let t = hanging_terms(p, side);
    assert forall|i: int| 0 <= i < t.len() implies #[trigger] t[i] >= 0 by {}
    if forall|sq: int|
        0 <= sq < 64 && bit(p.color_bb(side), sq) && #[trigger] attackers_to(
            p,
            sq as u8,
            side.spec_other(),
            p.white | p.black,
        ) != 0 ==> attackers_to(p, sq as u8, side, p.white | p.black) != 0 {
        assert forall|i: int| 0 <= i < t.len() implies #[trigger] t[i] == 0 by {
            if bit(p.color_bb(side), i) && attackers_to(p, i as u8, side.spec_other(), p.white | p.black) != 0 {
                assert(attackers_to(p, i as u8, side, p.white | p.black) != 0);
            }
        }
        lemma_total_zero(t);
    }
    assert forall|sq: int|
        0 <= sq < 64 && bit(p.color_bb(side), sq) && #[trigger] attackers_to(
            p,
            sq as u8,
            side.spec_other(),
            p.white | p.black,
        ) != 0 && attackers_to(p, sq as u8, side, p.white | p.black) == 0 implies spec_hanging(p, side) >= 1 by {
        assert(t[sq] == 1);
        lemma_total_at_least_term(t, sq);
    }
}

/// Counts the hanging pieces of `side`.
pub fn hanging_pieces(pos: &Position, side: Color) -> (r: u32)
    ensures
        r == spec_hanging(*pos, side),
        r <= 64,
{
    let occupied = pos.white | pos.black;
    let own = pos.by_color(side);
    let ghost s = hanging_terms(*pos, side);
    let mut n: u32 = 0;
    let mut sq: u8 = 0;
    while sq < 64
        invariant
            sq <= 64,
            occupied == pos.white | pos.black,
            own == pos.color_bb(side),
            s == hanging_terms(*pos, side),
            n == total(s.take(sq as int)),
            n <= sq,
        decreases 64 - sq,
    {
        proof {
            lemma_total_step(s, sq as int);
        }
        if has_bit(own, sq) && attacks_to(pos, sq, side.other(), occupied) != 0 && attacks_to(
            pos,
            sq,
            side,
            occupied,
        ) == 0 {
            n += 1;
        }
        sq += 1;
    }
    proof {
        lemma_total_all(s);
    }
    n
}

/// The value at stake on a square for `side`: the worth of its piece
/// there when that piece hangs; kings are never counted, they are not
/// taken.
pub open spec fn hanging_worth(p: Position, side: Color, sq: int) -> int {
    if is_hanging(p, side, sq) {
        match p.piece_at(sq) {
            Some(pc) => if pc.role == Role::King {
                0
            } else {
                spec_piece_value(pc.role)
            },
            None => 0,
        }
    } else {
        0
    }
}

pub open spec fn hanging_value_terms(p: Position, side: Color) -> Seq<int> {
    Seq::new(64, |sq: int| hanging_worth(p, side, sq))
}

/// The material `side` has hanging, in centipawns.
pub open spec fn spec_hanging_value(p: Position, side: Color) -> int {
    total(hanging_value_terms(p, side))
}

/// The worth of the hanging pieces of `side`, kings left out.
pub fn hanging_value(pos: &Position, side: Color) -> (r: u32)
    ensures
        r == spec_hanging_value(*pos, side),
        r <= 900 * 64,
{
    let occupied = pos.white | pos.black;
    let own = pos.by_color(side);
    let ghost s = hanging_value_terms(*pos, side);
    let mut n: u32 = 0;
    let mut sq: u8 = 0;
    while sq < 64
        invariant
            sq <= 64,
            occupied == pos.white | pos.black,
            own == pos.color_bb(side),
            s == hanging_value_terms(*pos, side),
            n == total(s.take(sq as int)),
            n <= 900 * sq,
        decreases 64 - sq,
    {
        proof {
            lemma_total_step(s, sq as int);
        }
        if has_bit(own, sq) && attacks_to(pos, sq, side.other(), occupied) != 0 && attacks_to(
            pos,
            sq,
            side,
            occupied,
        ) == 0 {
            match pos.get_piece(sq) {
                Some(pc) => {
                    if pc.role != Role::King {
                        n += piece_value(pc.role) as u32;
                    }
                },
                None => {},
            }
        }
        sq += 1;
    }
    proof {
        lemma_total_all(s);
    }
    n
}

// ── Exchanges on offer ───────────────────────────────────────────────

/// The exchange value of each move that captures, zero for the others.
pub open spec fn capture_gains(p: Position, ms: Seq<Move>) -> Seq<int> {
    Seq::new(ms.len(), |i: int| if ms[i].capture is Some { spec_see(p, ms[i].to, ms[i].from) } else { 0 })
}

/// The largest of zero and the first `n` values.
pub open spec fn best_of(s: Seq<int>, n: int) -> int
    decreases n,
{
    if n <= 0 {
        0
    } else {
        let rest = best_of(s, n - 1);
        if s[n - 1] > rest {
            s[n - 1]
        } else {
            rest
        }
    }
}

/// The most the side to move wins by one of its captures, as the static
/// exchange evaluation counts it, and zero when no capture wins.  A
/// board with more than 32 pieces, beyond the exchange evaluation, counts
/// zero.
pub open spec fn spec_best_capture(p: Position) -> int {
    if count_bits(p.white | p.black, 64) > 32 {
        0
    } else {
        best_of(capture_gains(p, legal_moves_of(p)), legal_moves_of(p).len() as int)
    }
}

/// The most the side to move wins by a capture (`spec_best_capture`).
pub fn see_best_capture(pos: &Position) -> (r: i32)
    ensures
        r == spec_best_capture(*pos),
{
    if popcount(pos.white | pos.black) > 32 {
        return 0;
    }
    let info = analyze(pos);
    let ghost gains = capture_gains(*pos, legal_moves_of(*pos));
    let mut best: i32 = 0;
    let mut i: usize = 0;
    while i < info.moves.len()
        invariant
            i <= info.moves@.len(),
            info.moves@ == legal_moves_of(*pos),
            forall|k: int| 0 <= k < info.moves@.len() ==> (#[trigger] info.moves@[k]).from < 64 && info.moves@[k].to < 64,
            count_bits(pos.white | pos.black, 64) <= 32,
            gains == capture_gains(*pos, legal_moves_of(*pos)),
            best == best_of(gains, i as int),
            0 <= best <= 20000,
        decreases info.moves@.len() - i,
    {
        let m = info.moves[i];
        if m.is_capture() {
            let g = see(pos, m.to, m.from);
            if g > best {
                best = g;
            }
        }
        i += 1;
    }
    best
}

/// The most the opponent would win by a capture if it were its move:
/// the best capture of the position with the turn passed, zero when the
/// turn cannot be passed.
pub open spec fn spec_worst_threat(p: Position) -> int {
    match null_move_of(p) {
        Some(q) => spec_best_capture(q),
        None => 0,
    }
}

/// The worst capture the opponent threatens (`spec_worst_threat`).
pub fn see_worst_threat(pos: &Position) -> (r: i32)
    ensures
        r == spec_worst_threat(*pos),
{
    match swap_turn(pos) {
        Some(q) => see_best_capture(&q),
        None => 0,
    }
}

// ── The bishop pair ──────────────────────────────────────────────────

/// Whether `side` has at least two bishops.
pub fn has_bishop_pair(pos: &Position, side: Color) -> (r: bool)
    ensures
        r == (count_bits(pos.bishops & pos.color_bb(side), 64) >= 2),
{
    popcount(pos.bishops & pos.by_color(side)) >= 2
}

// ── Rooks on the seventh ─────────────────────────────────────────────

/// The seventh rank from `side`'s point of view.
pub open spec fn seventh_rank(side: Color) -> int {
    if side == Color::White {
        6
    } else {
        1
    }
}

pub open spec fn seventh_terms(p: Position, side: Color) -> Seq<int> {
    Seq::new(
        64,
        |sq: int|
            one_if(bit(p.rooks & p.color_bb(side), sq) && rank_of(sq) == seventh_rank(side)),
    )
}

/// The rooks of `side` on its seventh rank.
pub open spec fn spec_rooks_on_seventh(p: Position, side: Color) -> int {
    total(seventh_terms(p, side))
}

/// Counts the rooks of `side` on its seventh rank.
pub fn rooks_on_seventh(pos: &Position, side: Color) -> (r: u32)
    ensures
        r == spec_rooks_on_seventh(*pos, side),
        r <= 64,
{
    let rooks = pos.rooks & pos.by_color(side);
    let target: u8 = if side == Color::White {
        6
    } else {
        1
    };
    let ghost s = seventh_terms(*pos, side);
    let mut n: u32 = 0;
    let mut sq: u8 = 0;
    while sq < 64
        invariant
            sq <= 64,
            rooks == pos.rooks & pos.color_bb(side),
            target == seventh_rank(side),
            s == seventh_terms(*pos, side),
            n == total(s.take(sq as int)),
            n <= sq,
        decreases 64 - sq,
    {
        proof {
            lemma_total_step(s, sq as int);
        }
        if has_bit(rooks, sq) && sq / 8 == target {
            n += 1;
        }
        sq += 1;
    }
    proof {
        lemma_total_all(s);
    }
    n
}

// ── Outposts ─────────────────────────────────────────────────────────

/// A knight of `side` on its fourth, fifth or sixth rank that a pawn of
/// its side defends and no enemy pawn attacks.
pub open spec fn is_outpost(p: Position, side: Color, sq: int) -> bool {
    let occupied = p.white | p.black;
    let rel = if side == Color::White {
        rank_of(sq)
    } else {
        7 - rank_of(sq)
    };
    &&& bit(p.knights & p.color_bb(side), sq)
    &&& 3 <= rel <= 5
    &&& attackers_to(p, sq as u8, side, occupied) & p.pawns != 0
    &&& attackers_to(p, sq as u8, side.spec_other(), occupied) & p.pawns == 0
}

pub open spec fn outpost_terms(p: Position, side: Color) -> Seq<int> {
    Seq::new(64, |sq: int| one_if(is_outpost(p, side, sq)))
}

pub open spec fn spec_outposts(p: Position, side: Color) -> int {
    total(outpost_terms(p, side))
}

/// Counts the knights of `side` on outposts.
pub fn outposts(pos: &Position, side: Color) -> (r: u32)
    ensures
        r == spec_outposts(*pos, side),
        r <= 64,
{
    let occupied = pos.white | pos.black;
    let knights = pos.knights & pos.by_color(side);
    let ghost s = outpost_terms(*pos, side);
    let mut n: u32 = 0;
    let mut sq: u8 = 0;
    while sq < 64
        invariant
            sq <= 64,
            occupied == pos.white | pos.black,
            knights == pos.knights & pos.color_bb(side),
            s == outpost_terms(*pos, side),
            n == total(s.take(sq as int)),
            n <= sq,
        decreases 64 - sq,
    {
        proof {
            lemma_total_step(s, sq as int);
        }
        if has_bit(knights, sq) {
            let rel: u8 = if side == Color::White {
                sq / 8
            } else {
                7 - sq / 8
            };
            if 3 <= rel && rel <= 5 && attacks_to(pos, sq, side, occupied) & pos.pawns != 0
                && attacks_to(pos, sq, side.other(), occupied) & pos.pawns == 0 {
                n += 1;
            }
        }
        sq += 1;
    }
    proof {
        lemma_total_all(s);
    }
    n
}

// ── Pinned pieces ────────────────────────────────────────────────────

/// The enemy sliders on a line with the king on `k`, as if the board
/// were empty.
pub open spec fn snipers(p: Position, side: Color, k: u8) -> u64 {
    ((rook_attacks_of(k, 0) & (p.rooks | p.queens)) | (bishop_attacks_of(k, 0) & (p.bishops
        | p.queens))) & p.color_bb(side.spec_other())
}

/// The single pieces standing between the king on `k` and the snipers
/// on the first `n` squares.
pub open spec fn pin_blockers(p: Position, side: Color, k: u8, n: int) -> u64
    decreases n,
{
    if n <= 0 {
        0
    } else {
        let before = pin_blockers(p, side, k, n - 1);
        if bit(snipers(p, side, k), n - 1) {
            let b = between_of(k, (n - 1) as u8) & (p.white | p.black);
            if b != 0 && b & ((b - 1) as u64) == 0 {
                before | b
            } else {
                before
            }
        } else {
            before
        }
    }
}

/// The pieces of `side` that are the only piece between its king and an
/// enemy slider; none without a single king.
pub open spec fn spec_pinned(p: Position, side: Color) -> int {
    match king_square(p, side) {
        Some(k) => count_bits(pin_blockers(p, side, k as u8, 64) & p.color_bb(side), 64),
        None => 0,
    }
}

/// Counts the pinned pieces of `side`.
pub fn pinned_pieces(pos: &Position, side: Color) -> (r: u32)
    ensures
        r == spec_pinned(*pos, side),
        r <= 64,
{
    let k = match king_of(pos, side) {
        Some(k) => k,
        None => {
            return 0;
        },
    };
    let occupied = pos.white | pos.black;
    let sliders = ((rook_attacks(k, 0) & (pos.rooks | pos.queens)) | (bishop_attacks(k, 0) & (
    pos.bishops | pos.queens))) & pos.by_color(side.other());
    let mut blockers: u64 = 0;
    let mut sq: u8 = 0;
    while sq < 64
        invariant
            sq <= 64,
            k < 64,
            occupied == pos.white | pos.black,
            sliders == snipers(*pos, side, k),
            blockers == pin_blockers(*pos, side, k, sq as int),
        decreases 64 - sq,
    {
        if has_bit(sliders, sq) {
            let b = between(k, sq) & occupied;
            if b != 0 && b & (b - 1) == 0 {
                blockers = blockers | b;
            }
        }
        sq += 1;
    }
    popcount(blockers & pos.by_color(side))
}

// ── Threats ──────────────────────────────────────────────────────────

/// `1` when a piece of `side` on `a` attacks the square `sq` and is worth
/// less than a piece of `victim`.
pub open spec fn lesser_attacker(p: Position, side: Color, sq: int, a: int, victim: Role) -> int {
    one_if(
        bit(attackers_to(p, sq as u8, side, p.white | p.black), a) && (p.piece_at(a) matches Some(
            att,
        ) && spec_piece_value(att.role) < spec_piece_value(victim)),
    )
}

pub open spec fn lesser_attacker_terms(p: Position, side: Color, sq: int, victim: Role) -> Seq<
    int,
> {
    Seq::new(64, |a: int| lesser_attacker(p, side, sq, a, victim))
}

/// The attackers of `side` worth less than the enemy piece on `sq`; none
/// for an empty square, a king, or a piece of `side`.
pub open spec fn threat_term(p: Position, side: Color, sq: int) -> int {
    if bit(p.color_bb(side.spec_other()), sq) {
        match p.piece_at(sq) {
            Some(v) => if v.role == Role::King {
                0
            } else {
                total(lesser_attacker_terms(p, side, sq, v.role))
            },
            None => 0,
        }
    } else {
        0
    }
}

pub open spec fn threat_terms(p: Position, side: Color) -> Seq<int> {
    Seq::new(64, |sq: int| threat_term(p, side, sq))
}

/// Attacks by `side` on enemy pieces, other than the king, by pieces
/// worth less than their target, each attacker counted once per target.
pub open spec fn spec_threats(p: Position, side: Color) -> int {
    total(threat_terms(p, side))
}

/// Counts the attackers of `side` on `sq` worth less than `victim`.
fn lesser_attackers(pos: &Position, side: Color, sq: u8, victim: Role) -> (r: u32)
    requires
        sq < 64,
    ensures
        r == total(lesser_attacker_terms(*pos, side, sq as int, victim)),
        r <= 64,
{
    let attackers = attacks_to(pos, sq, side, pos.white | pos.black);
    let ghost s = lesser_attacker_terms(*pos, side, sq as int, victim);
    let mut n: u32 = 0;
    let mut a: u8 = 0;
    while a < 64
        invariant
            a <= 64,
            sq < 64,
            attackers == attackers_to(*pos, sq, side, pos.white | pos.black),
            s == lesser_attacker_terms(*pos, side, sq as int, victim),
            n == total(s.take(a as int)),
            n <= a,
        decreases 64 - a,
    {
        proof {
            lemma_total_step(s, a as int);
        }
        if has_bit(attackers, a) {
            if let Some(att) = pos.get_piece(a) {
                if piece_value(att.role) < piece_value(victim) {
                    n += 1;
                }
            }
        }
        a += 1;
    }
    proof {
        lemma_total_all(s);
    }
    n
}

/// Counts the threats of `side`.
pub fn threats(pos: &Position, side: Color) -> (r: u32)
    ensures
        r == spec_threats(*pos, side),
        r <= 64 * 64,
{
    let theirs = pos.by_color(side.other());
    let ghost s = threat_terms(*pos, side);
    let mut n: u32 = 0;
    let mut sq: u8 = 0;
    while sq < 64
        invariant
            sq <= 64,
            theirs == pos.color_bb(side.spec_other()),
            s == threat_terms(*pos, side),
            n == total(s.take(sq as int)),
            n <= 64 * sq,
        decreases 64 - sq,
    {
        proof {
            lemma_total_step(s, sq as int);
        }
        if has_bit(theirs, sq) {
            if let Some(v) = pos.get_piece(sq) {
                if v.role != Role::King {
                    n += lesser_attackers(pos, side, sq, v.role);
                }
            }
        }
        sq += 1;
    }
    proof {
        lemma_total_all(s);
    }
    n
}

} // verus!
