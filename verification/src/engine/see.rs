//! Static exchange evaluation: the material balance of a sequence of
//! captures on one square, each side recapturing with its least valuable
//! attacker.

use vstd::prelude::*;
use vstd::std_specs::bits::{axiom_u64_trailing_zeros, u64_trailing_zeros};

use crate::board::{bit, Color, Position, Role};
use crate::engine::eval::{count_bits, piece_value, spec_piece_value};
use crate::rules::{
    bishop_attacks, bishop_attacks_of, king_attacks, king_attacks_of, knight_attacks,
    knight_attacks_of, pawn_attacks, pawn_attacks_of, rook_attacks, rook_attacks_of,
};

verus! {

/// The lowest set square of a nonzero bitboard.
pub open spec fn lowest_square(bb: u64) -> int {
    u64_trailing_zeros(bb) as int
}

/// The attackers of `sq` of one role and side among the occupied squares.
pub open spec fn attackers_of(board: Position, sq: u8, side: Color, occupied: u64, role: Role) -> u64 {
    let by_side = board.color_bb(side);
    let reach = match role {
        Role::Pawn => pawn_attacks_of(side.spec_other(), sq),
        Role::Knight => knight_attacks_of(sq),
        Role::Bishop => bishop_attacks_of(sq, occupied),
        Role::Rook => rook_attacks_of(sq, occupied),
        Role::Queen => bishop_attacks_of(sq, occupied) | rook_attacks_of(sq, occupied),
        Role::King => king_attacks_of(sq),
    };
    reach & board.role_bb(role) & by_side & occupied
}

/// The least valuable attacker: the lowest square among the attackers of
/// the first role, in the order pawn, knight, bishop, rook, queen, king,
/// that has any.
pub open spec fn spec_least_valuable_attacker(board: Position, sq: u8, side: Color, occupied: u64) -> Option<(u8, Role)> {
    let pick = |r: Role| (lowest_square(attackers_of(board, sq, side, occupied, r)) as u8, r);
    if attackers_of(board, sq, side, occupied, Role::Pawn) != 0 {
        Some(pick(Role::Pawn))
    } else if attackers_of(board, sq, side, occupied, Role::Knight) != 0 {
        Some(pick(Role::Knight))
    } else if attackers_of(board, sq, side, occupied, Role::Bishop) != 0 {
        Some(pick(Role::Bishop))
    } else if attackers_of(board, sq, side, occupied, Role::Rook) != 0 {
        Some(pick(Role::Rook))
    } else if attackers_of(board, sq, side, occupied, Role::Queen) != 0 {
        Some(pick(Role::Queen))
    } else if attackers_of(board, sq, side, occupied, Role::King) != 0 {
        Some(pick(Role::King))
    } else {
        None
    }
}

/// The lowest set square of a nonzero bitboard is set, in that
/// bitboard and in every bitboard that contains it.
proof fn lemma_lowest_square(x: u64, occupied: u64)
    requires
        x != 0,
        x & occupied == x,
    ensures
        0 <= lowest_square(x) < 64,
        bit(x, lowest_square(x)),
        bit(occupied, lowest_square(x)),
{
    axiom_u64_trailing_zeros(x);
    let t = u64_trailing_zeros(x) as u64;
    assert(t < 64);
    assert(((x >> t) & 1u64 == 1u64 && x & occupied == x && t < 64) ==> (occupied >> t) & 1u64
        == 1u64) by (bit_vector);
}

proof fn lemma_and_occupied(a: u64, b: u64, c: u64, occupied: u64)
    ensures
        (a & b & c & occupied) & occupied == a & b & c & occupied,
{
    assert((a & b & c & occupied) & occupied == a & b & c & occupied) by (bit_vector);
}

/// The squares from which a piece of `side` and `role` attacks `sq` with
/// the squares `occupied` filled: a pawn from where a pawn of the other
/// colour on `sq` would strike, leapers by their steps, sliders along the
/// rays from `sq` that `occupied` leaves open.
pub open spec fn reaches_through(sq: u8, side: Color, role: Role, occupied: u64) -> u64 {
    match role {
        Role::Pawn => pawn_attacks_of(side.spec_other(), sq),
        Role::Knight => knight_attacks_of(sq),
        Role::Bishop => bishop_attacks_of(sq, occupied),
        Role::Rook => rook_attacks_of(sq, occupied),
        Role::Queen => bishop_attacks_of(sq, occupied) | rook_attacks_of(sq, occupied),
        Role::King => king_attacks_of(sq),
    }
}

/// The order in which the exchange tries the roles, cheapest first.
pub open spec fn role_order(r: Role) -> int {
    match r {
        Role::Pawn => 0,
        Role::Knight => 1,
        Role::Bishop => 2,
        Role::Rook => 3,
        Role::Queen => 4,
        Role::King => 5,
    }
}

/// Whether a piece of `side` and `role` still on the board (`occupied`)
/// stands on `s` and attacks `sq` through the squares still filled.
pub open spec fn attacks_now(board: Position, sq: u8, side: Color, role: Role, occupied: u64, s: int) -> bool {
    &&& bit(occupied, s)
    &&& bit(board.color_bb(side), s)
    &&& bit(board.role_bb(role), s)
    &&& bit(reaches_through(sq, side, role, occupied), s)
}

proof fn lemma_bit_of_meet(a: u64, b: u64, c: u64, d: u64, s: u64)
    requires
        s < 64,
        ((a & b & c & d) >> s) & 1u64 == 1u64,
    ensures
        (a >> s) & 1u64 == 1u64,
        (b >> s) & 1u64 == 1u64,
        (c >> s) & 1u64 == 1u64,
        (d >> s) & 1u64 == 1u64,
{
    assert(((a & b & c & d) >> s) & 1u64 == 1u64 ==> (a >> s) & 1u64 == 1u64 && (b >> s) & 1u64 == 1u64
        && (c >> s) & 1u64 == 1u64 && (d >> s) & 1u64 == 1u64) by (bit_vector);
}

proof fn lemma_meet_empty(a: u64, b: u64, c: u64, d: u64, s: u64)
    requires
        s < 64,
        a & b & c & d == 0,
    ensures
        !((a >> s) & 1u64 == 1u64 && (b >> s) & 1u64 == 1u64 && (c >> s) & 1u64 == 1u64 && (d >> s) & 1u64
            == 1u64),
{
    assert(a & b & c & d == 0 ==> !((a >> s) & 1u64 == 1u64 && (b >> s) & 1u64 == 1u64 && (c >> s) & 1u64
        == 1u64 && (d >> s) & 1u64 == 1u64)) by (bit_vector);
}

/// The next capturer of the exchange on `sq` is a piece of `side` still on
/// the board (`occupied`, the board less the pieces already exchanged)
/// that attacks `sq` through the squares still filled, so that a piece
/// behind one already gone is found; no piece of a cheaper role does;
/// and when none is found, no piece of `side` attacks `sq` so.
pub proof fn lemma_least_valuable_attacker_attacks_now(board: Position, sq: u8, side: Color, occupied: u64)
    requires
        sq < 64,
    ensures
        match spec_least_valuable_attacker(board, sq, side, occupied) {
            Some((s, role)) => {
                &&& 0 <= s < 64
                &&& attacks_now(board, sq, side, role, occupied, s as int)
                &&& forall|r: Role, t: int|
                    0 <= t < 64 && role_order(r) < role_order(role) ==> !#[trigger] attacks_now(
                        board,
                        sq,
                        side,
                        r,
                        occupied,
                        t,
                    )
            },
            None => forall|r: Role, t: int| 0 <= t < 64 ==> !#[trigger] attacks_now(board, sq, side, r, occupied, t),
        },
{
    let by_side = board.color_bb(side);
    assert forall|r: Role| #[trigger] attackers_of(board, sq, side, occupied, r) == reaches_through(sq, side, r, occupied)
        & board.role_bb(r) & by_side & occupied by {}
    assert forall|r: Role, t: int|
        0 <= t < 64 && attackers_of(board, sq, side, occupied, r) == 0 implies !#[trigger] attacks_now(
        board,
        sq,
        side,
        r,
        occupied,
        t,
    ) by {
        lemma_meet_empty(reaches_through(sq, side, r, occupied), board.role_bb(r), by_side, occupied, t as u64);
    }
    match spec_least_valuable_attacker(board, sq, side, occupied) {
        Some((s, role)) => {
            let x = attackers_of(board, sq, side, occupied, role);
            assert(x != 0);
            lemma_and_occupied(reaches_through(sq, side, role, occupied), board.role_bb(role), by_side, occupied);
            lemma_lowest_square(x, occupied);
            assert(s as int == lowest_square(x));
            lemma_bit_of_meet(reaches_through(sq, side, role, occupied), board.role_bb(role), by_side, occupied, s as u64);
        },
        None => {},
    }
}

/// The lowest square of a bitboard of attackers (`Bitboard::first`).
fn first_square(x: u64, Ghost(occupied): Ghost<u64>) -> (r: u8)
    requires
        x != 0,
        x & occupied == x,
    ensures
        r == lowest_square(x),
        r < 64,
        bit(occupied, r as int),
{
    proof {
        lemma_lowest_square(x, occupied);
    }
    x.trailing_zeros() as u8
}

/// Return the least-valuable attacker of `sq` belonging to `side`.
/// Tries pawns first, then knights, bishops, rooks, queens, king.
/// Returns `None` when `side` has no attacker.
pub fn least_valuable_attacker(board: &Position, sq: u8, side: Color, occupied: u64) -> (r: Option<(u8, Role)>)
    requires
        sq < 64,
    ensures
        r == spec_least_valuable_attacker(*board, sq, side, occupied),
        r matches Some((s, _)) ==> s < 64 && bit(occupied, s as int),
{
    let by_side = board.by_color(side);
    let bishop_reach = bishop_attacks(sq, occupied);
    let rook_reach = rook_attacks(sq, occupied);
    let pawn_attackers = pawn_attacks(side.other(), sq) & board.pawns & by_side & occupied;
    let knight_attackers = knight_attacks(sq) & board.knights & by_side & occupied;
    let bishop_attackers = bishop_reach & board.bishops & by_side & occupied;
    let rook_attackers = rook_reach & board.rooks & by_side & occupied;
    let queen_attackers = (bishop_reach | rook_reach) & board.queens & by_side & occupied;
    let king_attackers = king_attacks(sq) & board.kings & by_side & occupied;
    proof {
        lemma_and_occupied(pawn_attacks_of(side.spec_other(), sq), board.pawns, by_side, occupied);
        lemma_and_occupied(knight_attacks_of(sq), board.knights, by_side, occupied);
        lemma_and_occupied(bishop_reach, board.bishops, by_side, occupied);
        lemma_and_occupied(rook_reach, board.rooks, by_side, occupied);
        lemma_and_occupied(bishop_reach | rook_reach, board.queens, by_side, occupied);
        lemma_and_occupied(king_attacks_of(sq), board.kings, by_side, occupied);
    }
    if pawn_attackers != 0 {
        return Some((first_square(pawn_attackers, Ghost(occupied)), Role::Pawn));
    }
    if knight_attackers != 0 {
        return Some((first_square(knight_attackers, Ghost(occupied)), Role::Knight));
    }
    if bishop_attackers != 0 {
        return Some((first_square(bishop_attackers, Ghost(occupied)), Role::Bishop));
    }
    if rook_attackers != 0 {
        return Some((first_square(rook_attackers, Ghost(occupied)), Role::Rook));
    }
    if queen_attackers != 0 {
        return Some((first_square(queen_attackers, Ghost(occupied)), Role::Queen));
    }
    if king_attackers != 0 {
        return Some((first_square(king_attackers, Ghost(occupied)), Role::King));
    }
    None
}

/// Whether the exchange stops before the capture worth `g` to its
/// maker: both that capture and the previous one, worth `g_prev` to the
/// other side, would leave their makers behind.
pub open spec fn pruned(g_prev: int, g: int) -> bool {
    -g_prev < 0 && g < 0
}

/// The swap algorithm from one capture onward.  `g_prev` is the
/// balance, for the side that made the last capture, if the exchange
/// stopped there; `cur` is the value of its piece now on the target;
/// `side` may capture it next with its least valuable attacker among
/// `occ`.  The result is that balance once the later captures are
/// resolved backwards, each side choosing between stopping and going on
/// (`gain[d - 1] = -max(-gain[d - 1], gain[d])`).  The exchange also
/// stops when capturing is pruned, or after `n` more captures.
pub open spec fn swap_value(board: Position, target: u8, side: Color, occ: u64, cur: int, g_prev: int, n: nat) -> int
    decreases n,
{
    let g = cur - g_prev;
    if n == 0 || pruned(g_prev, g) {
        g_prev
    } else {
        match spec_least_valuable_attacker(board, target, side, occ) {
            None => g_prev,
            Some((sq, role)) => {
                let next = swap_value(
                    board,
                    target,
                    side.spec_other(),
                    occ ^ (1u64 << (sq as u64)),
                    spec_piece_value(role),
                    g,
                    (n - 1) as nat,
                );
                if -g_prev > next {
                    g_prev
                } else {
                    -next
                }
            },
        }
    }
}

/// Resolving the later captures never improves the balance of the side
/// that made the last capture.
pub proof fn lemma_swap_value_at_most(board: Position, target: u8, side: Color, occ: u64, cur: int, g_prev: int, n: nat)
    ensures
        swap_value(board, target, side, occ, cur, g_prev, n) <= g_prev,
    decreases n,
{
}

/// The static exchange evaluation of capturing on `target` from
/// `attacker_sq`: nothing when either square is empty, else the swap
/// algorithm after the first capture, with at most 32 captures.
pub open spec fn spec_see(board: Position, target: u8, attacker_sq: u8) -> int {
    match (board.piece_at(attacker_sq as int), board.piece_at(target as int)) {
        (Some(a), Some(v)) => swap_value(
            board,
            target,
            a.color.spec_other(),
            (board.white | board.black) ^ (1u64 << (attacker_sq as u64)),
            spec_piece_value(a.role),
            spec_piece_value(v.role),
            32,
        ),
        _ => 0,
    }
}

/// Capturing a piece that the other side cannot take back wins its full
/// value: when no piece of the victim's colour attacks the target through
/// the board less the capturer, the exchange is worth the victim's value.
pub proof fn lemma_see_undefended(board: Position, target: u8, attacker_sq: u8)
    requires
        target < 64,
        board.piece_at(attacker_sq as int) is Some,
        board.piece_at(target as int) is Some,
        forall|r: Role, t: int|
            0 <= t < 64 ==> !#[trigger] attacks_now(
                board,
                target,
                board.piece_at(attacker_sq as int)->0.color.spec_other(),
                r,
                (board.white | board.black) ^ (1u64 << (attacker_sq as u64)),
                t,
            ),
    ensures
        spec_see(board, target, attacker_sq) == spec_piece_value(board.piece_at(target as int)->0.role),
{
    let a = board.piece_at(attacker_sq as int)->0;
    let occ = (board.white | board.black) ^ (1u64 << (attacker_sq as u64));
    lemma_least_valuable_attacker_attacks_now(board, target, a.color.spec_other(), occ);
    assert(spec_least_valuable_attacker(board, target, a.color.spec_other(), occ) is None);
}

/// One step of the swap algorithm: the capture of the piece worth `cur`
/// by `side`, then the later captures resolved backwards.
fn swap(board: &Position, target: u8, side: Color, occ: u64, cur: i32, g_prev: i32, n: u32) -> (r: i32)
    requires
        target < 64,
        n <= 32,
        0 <= cur <= 20000,
        -20000 * (33 - n) <= g_prev <= 20000 * (33 - n),
    ensures
        r == swap_value(*board, target, side, occ, cur as int, g_prev as int, n as nat),
        -20000 * (34 - n) <= r <= 20000 * (34 - n),
    decreases n,
{
    let g = cur - g_prev;
    if n == 0 || (-g_prev < 0 && g < 0) {
        return g_prev;
    }
    match least_valuable_attacker(board, target, side, occ) {
        None => g_prev,
        Some((sq, role)) => {
            let next = swap(
                board,
                target,
                side.other(),
                occ ^ (1u64 << (sq as u64)),
                piece_value(role),
                g,
                n - 1,
            );
            if -g_prev > next {
                g_prev
            } else {
                -next
            }
        },
    }
}

/// Static Exchange Evaluation: the net material gain or loss from a
/// sequence of captures on `target`, both sides always recapturing with
/// their least valuable attacker, resolved by the swap algorithm.
///
/// A positive result means the initial capture from `attacker_sq` wins
/// material; negative means it loses material.  The result is zero when
/// either square is empty, and otherwise lies between the victim's value
/// less the attacker's and the victim's value.  With at most 32 pieces
/// on the board the exchange never reaches 32 captures.
pub fn see(board: &Position, target: u8, attacker_sq: u8) -> (r: i32)
    requires
        target < 64,
        attacker_sq < 64,
        count_bits(board.white | board.black, 64) <= 32,
    ensures
        r == spec_see(*board, target, attacker_sq),
        board.piece_at(attacker_sq as int) is None || board.piece_at(target as int) is None ==> r
            == 0,
        board.piece_at(attacker_sq as int) matches Some(a) ==> board.piece_at(target as int) matches Some(v) ==> spec_piece_value(v.role) - spec_piece_value(a.role) <= r <= spec_piece_value(v.role),
{
    let attacker_piece = match board.get_piece(attacker_sq) {
        Some(p) => p,
        None => return 0,
    };
    let victim_piece = match board.get_piece(target) {
        Some(p) => p,
        None => return 0,
    };
    // Remove the initial attacker so x-ray attacks through it appear.
    let occupied = (board.white | board.black) ^ (1u64 << (attacker_sq as u64));
    let a = piece_value(attacker_piece.role);
    let v = piece_value(victim_piece.role);
    let r = swap(board, target, attacker_piece.color.other(), occupied, a, v, 32);
    proof {
        let g = a - v;
        if !pruned(v as int, g as int) {
            match spec_least_valuable_attacker(*board, target, attacker_piece.color.spec_other(), occupied) {
                Some((sq, role)) => {
                    lemma_swap_value_at_most(
                        *board,
                        target,
                        attacker_piece.color.spec_other().spec_other(),
                        occupied ^ (1u64 << (sq as u64)),
                        spec_piece_value(role),
                        g as int,
                        31,
                    );
                },
                None => {},
            }
        }
    }
    r
}

} // verus!
