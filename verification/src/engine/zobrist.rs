//! Zobrist hashing: fixed pseudo-random keys for every (square, piece),
//! the side to move, every castling-rook square and every en passant
//! file, combined by exclusive or.

use vstd::prelude::*;

use crate::board::{bit, has_bit, Color, Position, Role};

verus! {

pub open spec fn spec_piece_index(color: Color, role: Role) -> int {
    (if color == Color::White {
        0int
    } else {
        6int
    }) + role.spec_index()
}

/// Maps a (color, role) pair to a 0..11 index for Zobrist table lookup.
/// White pieces occupy indices 0..5, Black pieces 6..11.
pub fn piece_index(color: Color, role: Role) -> (r: usize)
    ensures
        r == spec_piece_index(color, role),
        r < 12,
{
    let c: usize = if color == Color::White {
        0
    } else {
        6
    };
    c + role.index()
}

/// Pre-computed random keys for Zobrist hashing, generated
/// deterministically from a fixed seed so values are stable across runs.
pub struct ZobristKeys {
    pub pieces: [[u64; 12]; 64],
    pub side_to_move: u64,
    pub castling_sq: [u64; 64],
    pub en_passant: [u64; 8],
}

/// The seed of the key sequence.
pub const ZOBRIST_SEED: u64 = 0x123456789ABCDEF0;

/// One step of the xorshift64 generator.
pub open spec fn xorshift_step(x: u64) -> u64 {
    let a = x ^ (x << 13u64);
    let b = a ^ (a >> 7u64);
    b ^ (b << 17u64)
}

/// The generator state after `n` steps from the seed.
pub open spec fn xorshift_state(n: nat) -> u64
    decreases n,
{
    if n == 0 {
        ZOBRIST_SEED
    } else {
        xorshift_step(xorshift_state((n - 1) as nat))
    }
}

/// Simple xorshift64 PRNG for deterministic Zobrist key generation.
/// The state must never be zero.
pub fn xorshift64(state: &mut u64) -> (r: u64)
    ensures
        r == xorshift_step(*old(state)),
        *final(state) == r,
{
    let mut x = *state;
    x ^= x << 13u64;
    x ^= x >> 7u64;
    x ^= x << 17u64;
    *state = x;
    x
}

/// A nonzero state stays nonzero: each of the three shift-and-xor steps
/// is invertible and fixes only zero.
pub proof fn lemma_xorshift_nonzero(x: u64)
    requires
        x != 0,
    ensures
        xorshift_step(x) != 0,
{
    let a = x ^ (x << 13u64);
    let b = a ^ (a >> 7u64);
    assert(x != 0 ==> x ^ (x << 13u64) != 0) by (bit_vector);
    assert(a != 0 ==> a ^ (a >> 7u64) != 0) by (bit_vector);
    assert(b != 0 ==> b ^ (b << 17u64) != 0) by (bit_vector);
}

/// Every state of the sequence is nonzero, so no key is zero.
pub proof fn lemma_states_nonzero(n: nat)
    ensures
        xorshift_state(n) != 0,
    decreases n,
{
    if n > 0 {
        lemma_states_nonzero((n - 1) as nat);
        lemma_xorshift_nonzero(xorshift_state((n - 1) as nat));
    }
}

/// Where each key comes from: piece keys are states 1..=768 in square
/// then piece order, the side key is state 769, castling keys states
/// 770..=833 and en passant keys states 834..=841.
pub open spec fn keys_are_standard(k: ZobristKeys) -> bool {
    &&& forall|sq: int, pc: int|
        0 <= sq < 64 && 0 <= pc < 12 ==> #[trigger] k.pieces[sq][pc] == xorshift_state(
            (sq * 12 + pc + 1) as nat,
        )
    &&& k.side_to_move == xorshift_state(769)
    &&& forall|i: int| 0 <= i < 64 ==> #[trigger] k.castling_sq[i] == xorshift_state((770 + i) as nat)
    &&& forall|i: int| 0 <= i < 8 ==> #[trigger] k.en_passant[i] == xorshift_state((834 + i) as nat)
}

/// Builds the key table from the fixed seed.  Every call builds the same
/// table, so every hash uses the same constants.
pub fn zobrist_keys() -> (k: ZobristKeys)
    ensures
        keys_are_standard(k),
{
    let mut rng: u64 = ZOBRIST_SEED;
    let mut pieces = [[0u64; 12]; 64];
    let mut sq: usize = 0;
    while sq < 64
        invariant
            sq <= 64,
            rng == xorshift_state((sq * 12) as nat),
            forall|s: int, pc: int|
                0 <= s < sq && 0 <= pc < 12 ==> #[trigger] pieces[s][pc] == xorshift_state(
                    (s * 12 + pc + 1) as nat,
                ),
        decreases 64 - sq,
    {
        let mut row = [0u64; 12];
        let mut pc: usize = 0;
        while pc < 12
            invariant
                sq < 64,
                pc <= 12,
                rng == xorshift_state((sq * 12 + pc) as nat),
                forall|q: int| 0 <= q < pc ==> #[trigger] row[q] == xorshift_state((sq * 12 + q + 1) as nat),
            decreases 12 - pc,
        {
            let v = xorshift64(&mut rng);
            row[pc] = v;
            pc += 1;
        }
        pieces[sq] = row;
        sq += 1;
    }
    let side_to_move = xorshift64(&mut rng);
    let mut castling_sq = [0u64; 64];
    let mut i: usize = 0;
    while i < 64
        invariant
            i <= 64,
            rng == xorshift_state((769 + i) as nat),
            forall|j: int| 0 <= j < i ==> #[trigger] castling_sq[j] == xorshift_state((770 + j) as nat),
        decreases 64 - i,
    {
        let v = xorshift64(&mut rng);
        castling_sq[i] = v;
        i += 1;
    }
    let mut en_passant = [0u64; 8];
    let mut i: usize = 0;
    while i < 8
        invariant
            i <= 8,
            rng == xorshift_state((833 + i) as nat),
            forall|j: int| 0 <= j < i ==> #[trigger] en_passant[j] == xorshift_state((834 + j) as nat),
        decreases 8 - i,
    {
        let v = xorshift64(&mut rng);
        en_passant[i] = v;
        i += 1;
    }
    ZobristKeys { pieces, side_to_move, castling_sq, en_passant }
}

/// The key of the piece on `sq`, or zero for an empty square.
pub open spec fn piece_key(p: Position, sq: int) -> u64 {
    match p.piece_at(sq) {
        Some(pc) => xorshift_state((sq * 12 + spec_piece_index(pc.color, pc.role) + 1) as nat),
        None => 0,
    }
}

/// Exclusive or of the piece keys of the first `n` squares.
pub open spec fn board_hash(p: Position, n: int) -> u64
    decreases n,
{
    if n <= 0 {
        0
    } else {
        board_hash(p, n - 1) ^ piece_key(p, n - 1)
    }
}

/// Exclusive or of the castling keys of the set bits among the first `n`
/// squares.
pub open spec fn castling_hash(rights: u64, n: int) -> u64
    decreases n,
{
    if n <= 0 {
        0
    } else {
        castling_hash(rights, n - 1) ^ (if bit(rights, n - 1) {
            xorshift_state((770 + n - 1) as nat)
        } else {
            0u64
        })
    }
}

/// The side-to-move component: the side key when Black is to move.
pub open spec fn turn_hash(p: Position) -> u64 {
    if p.white_to_move {
        0
    } else {
        xorshift_state(769)
    }
}

/// The en passant component: the key of the en passant square's file.
pub open spec fn ep_hash(p: Position) -> u64 {
    match p.ep_square {
        Some(ep) => xorshift_state((834 + ep % 8) as nat),
        None => 0,
    }
}

/// The Zobrist hash of a position: piece placement, then side to move,
/// then castling rights, then the en passant file.
pub open spec fn spec_zobrist_hash(p: Position) -> u64 {
    board_hash(p, 64) ^ turn_hash(p) ^ castling_hash(p.castling, 64) ^ ep_hash(p)
}

/// Computes the Zobrist hash with a key table built by `zobrist_keys`.
pub fn zobrist_hash_with(keys: &ZobristKeys, pos: &Position) -> (hash: u64)
    requires
        keys_are_standard(*keys),
    ensures
        hash == spec_zobrist_hash(*pos),
{
    let mut hash: u64 = 0;
    let mut sq: u8 = 0;
    while sq < 64
        invariant
            sq <= 64,
            keys_are_standard(*keys),
            hash == board_hash(*pos, sq as int),
        decreases 64 - sq,
    {
        let key: u64 = match pos.get_piece(sq) {
            Some(piece) => {
                let pi = piece_index(piece.color, piece.role);
                keys.pieces[sq as usize][pi]
            },
            None => 0,
        };
        hash = hash ^ key;
        sq += 1;
    }
    let turn_key: u64 = if pos.white_to_move {
        0
    } else {
        keys.side_to_move
    };
    let mut castles: u64 = 0;
    let mut sq: u8 = 0;
    while sq < 64
        invariant
            sq <= 64,
            keys_are_standard(*keys),
            castles == castling_hash(pos.castling, sq as int),
        decreases 64 - sq,
    {
        let key: u64 = if has_bit(pos.castling, sq) {
            keys.castling_sq[sq as usize]
        } else {
            0
        };
        castles = castles ^ key;
        sq += 1;
    }
    let ep_key: u64 = match pos.ep_square {
        Some(ep) => keys.en_passant[(ep % 8) as usize],
        None => 0,
    };
    hash ^ turn_key ^ castles ^ ep_key
}

/// Compute a full Zobrist hash for a chess position, incorporating
/// piece placement, side to move, castling rights and the en passant
/// file.
pub fn zobrist_hash(pos: &Position) -> (hash: u64)
    ensures
        hash == spec_zobrist_hash(*pos),
{
    let keys = zobrist_keys();
    zobrist_hash_with(&keys, pos)
}

/// Passing the turn toggles exactly the side key: two positions that
/// differ only in the side to move hash to values that differ by the
/// side key.
pub proof fn lemma_hash_turn_toggle(p: Position, q: Position)
    requires
        forall|sq: int| 0 <= sq < 64 ==> p.piece_at(sq) == q.piece_at(sq),
        p.castling == q.castling,
        p.ep_square == q.ep_square,
        p.white_to_move != q.white_to_move,
    ensures
        spec_zobrist_hash(q) == spec_zobrist_hash(p) ^ xorshift_state(769),
{
    lemma_board_hash_same(p, q, 64);
    let a = board_hash(p, 64);
    let c = castling_hash(p.castling, 64);
    let e = ep_hash(p);
    let s = xorshift_state(769);
    assert((a ^ 0u64 ^ c ^ e) ^ s == a ^ s ^ c ^ e) by (bit_vector);
    assert((a ^ s ^ c ^ e) ^ s == a ^ 0u64 ^ c ^ e) by (bit_vector);
}

proof fn lemma_board_hash_same(p: Position, q: Position, n: int)
    requires
        n <= 64,
        forall|sq: int| 0 <= sq < 64 ==> p.piece_at(sq) == q.piece_at(sq),
    ensures
        board_hash(p, n) == board_hash(q, n),
    decreases n,
{
    if n > 0 {
        lemma_board_hash_same(p, q, n - 1);
        assert(p.piece_at(n - 1) == q.piece_at(n - 1));
    }
}

} // verus!
