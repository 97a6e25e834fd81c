//! The board model the library reasons about: colours, roles, squares,
//! positions held as bitboards, and moves.
//!
//! Squares are numbered `0..64` with a1 = 0, b1 = 1, ..., h8 = 63, so the
//! file of a square is `sq % 8` and its rank `sq / 8`.  A bitboard holds
//! one bit per square, bit `sq` standing for square `sq`.

use vstd::prelude::*;

use crate::variant::Variant;

verus! {

/// A side.
#[derive(Clone, Copy, Debug, PartialEq, Eq, Structural)]
pub enum Color {
    White,
    Black,
}

impl Color {
    pub open spec fn spec_other(self) -> Color {
        match self {
            Color::White => Color::Black,
            Color::Black => Color::White,
        }
    }

    /// The opposing side.
    #[verifier::when_used_as_spec(spec_other)]
    pub fn other(self) -> (r: Color)
        ensures
            r == self.spec_other(),
    {
        match self {
            Color::White => Color::Black,
            Color::Black => Color::White,
        }
    }

    pub open spec fn spec_is_white(self) -> bool {
        self == Color::White
    }

    #[verifier::when_used_as_spec(spec_is_white)]
    pub fn is_white(self) -> (r: bool)
        ensures
            r == (self == Color::White),
    {
        match self {
            Color::White => true,
            Color::Black => false,
        }
    }
}

/// A kind of piece.
#[derive(Clone, Copy, Debug, PartialEq, Eq, Structural)]
pub enum Role {
    Pawn,
    Knight,
    Bishop,
    Rook,
    Queen,
    King,
}

impl Role {
    /// Position of the role in the order pawn, knight, bishop, rook,
    /// queen, king.
    pub open spec fn spec_index(self) -> usize {
        match self {
            Role::Pawn => 0,
            Role::Knight => 1,
            Role::Bishop => 2,
            Role::Rook => 3,
            Role::Queen => 4,
            Role::King => 5,
        }
    }

    #[verifier::when_used_as_spec(spec_index)]
    pub fn index(self) -> (r: usize)
        ensures
            r == self.spec_index(),
            r < 6,
    {
        match self {
            Role::Pawn => 0,
            Role::Knight => 1,
            Role::Bishop => 2,
            Role::Rook => 3,
            Role::Queen => 4,
            Role::King => 5,
        }
    }

    /// The lowercase letter that names the role in move notation.
    pub open spec fn spec_letter(self) -> char {
        match self {
            Role::Pawn => 'p',
            Role::Knight => 'n',
            Role::Bishop => 'b',
            Role::Rook => 'r',
            Role::Queen => 'q',
            Role::King => 'k',
        }
    }

    #[verifier::when_used_as_spec(spec_letter)]
    pub fn letter(self) -> (r: char)
        ensures
            r == self.spec_letter(),
    {
        match self {
            Role::Pawn => 'p',
            Role::Knight => 'n',
            Role::Bishop => 'b',
            Role::Rook => 'r',
            Role::Queen => 'q',
            Role::King => 'k',
        }
    }
}

/// A coloured piece.
#[derive(Clone, Copy, Debug, PartialEq, Eq, Structural)]
pub struct Piece {
    pub color: Color,
    pub role: Role,
}

/// Whether bit `sq` of a bitboard is set.
pub open spec fn bit(bb: u64, sq: int) -> bool {
    (bb >> (sq as u64)) & 1u64 == 1u64
}

/// Tests bit `sq` of a bitboard.
pub fn has_bit(bb: u64, sq: u8) -> (r: bool)
    requires
        sq < 64,
    ensures
        r == bit(bb, sq as int),
{
    (bb >> (sq as u64)) & 1u64 == 1u64
}

pub open spec fn file_of(sq: int) -> int {
    sq % 8
}

pub open spec fn rank_of(sq: int) -> int {
    sq / 8
}

/// A position of one of the supported variants, held as plain values:
/// one bitboard per role and per colour, the side to move, the castling
/// rights as the squares of the rooks that may still castle, the en
/// passant target square, the checks each side still has to give (only
/// meaningful in Three-Check) and the move counters.
#[derive(Clone, Copy, Debug, PartialEq, Eq, Structural)]
pub struct Position {
    pub variant: Variant,
    pub pawns: u64,
    pub knights: u64,
    pub bishops: u64,
    pub rooks: u64,
    pub queens: u64,
    pub kings: u64,
    pub white: u64,
    pub black: u64,
    pub white_to_move: bool,
    pub castling: u64,
    pub ep_square: Option<u8>,
    pub checks_white: u32,
    pub checks_black: u32,
    pub halfmoves: u32,
    pub fullmoves: u32,
}

impl Position {
    /// The bitboards agree with each other: no square holds two roles, no
    /// square belongs to both sides, and the squares with a piece are
    /// exactly those with a side.  Each role is compared with the roles
    /// before it in the order pawn, knight, bishop, rook, queen, king.
    pub open spec fn consistent(self) -> bool {
        &&& self.knights & self.pawns == 0
        &&& self.bishops & (self.pawns | self.knights) == 0
        &&& self.rooks & (self.pawns | self.knights | self.bishops) == 0
        &&& self.queens & (self.pawns | self.knights | self.bishops | self.rooks) == 0
        &&& self.kings & (self.pawns | self.knights | self.bishops | self.rooks | self.queens) == 0
        &&& self.white & self.black == 0
        &&& (self.pawns | self.knights | self.bishops | self.rooks | self.queens | self.kings) == (
        self.white | self.black)
    }

    /// Whether the bitboards agree with each other (`consistent`).
    pub fn is_consistent(&self) -> (r: bool)
        ensures
            r == self.consistent(),
    {
        self.knights & self.pawns == 0
            && self.bishops & (self.pawns | self.knights) == 0
            && self.rooks & (self.pawns | self.knights | self.bishops) == 0
            && self.queens & (self.pawns | self.knights | self.bishops | self.rooks) == 0
            && self.kings & (self.pawns | self.knights | self.bishops | self.rooks | self.queens) == 0
            && self.white & self.black == 0
            && (self.pawns | self.knights | self.bishops | self.rooks | self.queens | self.kings) == (
            self.white | self.black)
    }

    pub open spec fn role_bb(self, r: Role) -> u64 {
        match r {
            Role::Pawn => self.pawns,
            Role::Knight => self.knights,
            Role::Bishop => self.bishops,
            Role::Rook => self.rooks,
            Role::Queen => self.queens,
            Role::King => self.kings,
        }
    }

    pub open spec fn color_bb(self, c: Color) -> u64 {
        match c {
            Color::White => self.white,
            Color::Black => self.black,
        }
    }

    /// Bitboard of the pieces of one role.
    pub fn by_role(&self, r: Role) -> (b: u64)
        ensures
            b == self.role_bb(r),
    {
        match r {
            Role::Pawn => self.pawns,
            Role::Knight => self.knights,
            Role::Bishop => self.bishops,
            Role::Rook => self.rooks,
            Role::Queen => self.queens,
            Role::King => self.kings,
        }
    }

    /// Bitboard of the pieces of one side.
    pub fn by_color(&self, c: Color) -> (b: u64)
        ensures
            b == self.color_bb(c),
    {
        match c {
            Color::White => self.white,
            Color::Black => self.black,
        }
    }

    /// Bitboard of all pieces.
    pub fn occupied(&self) -> (b: u64)
        ensures
            b == self.white | self.black,
    {
        self.white | self.black
    }

    /// The side to move.
    pub open spec fn side(self) -> Color {
        if self.white_to_move {
            Color::White
        } else {
            Color::Black
        }
    }

    pub fn turn(&self) -> (c: Color)
        ensures
            c == self.side(),
    {
        if self.white_to_move {
            Color::White
        } else {
            Color::Black
        }
    }

    /// The role of the piece on `sq`, read from the role bitboards in the
    /// order pawn, knight, bishop, rook, queen, king.
    pub open spec fn role_at(self, sq: int) -> Option<Role> {
        if bit(self.pawns, sq) {
            Some(Role::Pawn)
        } else if bit(self.knights, sq) {
            Some(Role::Knight)
        } else if bit(self.bishops, sq) {
            Some(Role::Bishop)
        } else if bit(self.rooks, sq) {
            Some(Role::Rook)
        } else if bit(self.queens, sq) {
            Some(Role::Queen)
        } else if bit(self.kings, sq) {
            Some(Role::King)
        } else {
            None
        }
    }

    /// The side of the piece on `sq`.
    pub open spec fn color_at(self, sq: int) -> Option<Color> {
        if bit(self.white, sq) {
            Some(Color::White)
        } else if bit(self.black, sq) {
            Some(Color::Black)
        } else {
            None
        }
    }

    /// The piece on `sq`: present when both a side and a role claim it.
    pub open spec fn piece_at(self, sq: int) -> Option<Piece> {
        match (self.color_at(sq), self.role_at(sq)) {
            (Some(c), Some(r)) => Some(Piece { color: c, role: r }),
            _ => None,
        }
    }

    pub fn get_role(&self, sq: u8) -> (r: Option<Role>)
        requires
            sq < 64,
        ensures
            r == self.role_at(sq as int),
    {
        if has_bit(self.pawns, sq) {
            Some(Role::Pawn)
        } else if has_bit(self.knights, sq) {
            Some(Role::Knight)
        } else if has_bit(self.bishops, sq) {
            Some(Role::Bishop)
        } else if has_bit(self.rooks, sq) {
            Some(Role::Rook)
        } else if has_bit(self.queens, sq) {
            Some(Role::Queen)
        } else if has_bit(self.kings, sq) {
            Some(Role::King)
        } else {
            None
        }
    }

    pub fn get_color(&self, sq: u8) -> (r: Option<Color>)
        requires
            sq < 64,
        ensures
            r == self.color_at(sq as int),
    {
        if has_bit(self.white, sq) {
            Some(Color::White)
        } else if has_bit(self.black, sq) {
            Some(Color::Black)
        } else {
            None
        }
    }

    /// The piece on `sq`, if any.
    pub fn get_piece(&self, sq: u8) -> (r: Option<Piece>)
        requires
            sq < 64,
        ensures
            r == self.piece_at(sq as int),
    {
        match (self.get_color(sq), self.get_role(sq)) {
            (Some(c), Some(r)) => Some(Piece { color: c, role: r }),
            _ => None,
        }
    }
}

/// How a move is made.
#[derive(Clone, Copy, Debug, PartialEq, Eq, Structural)]
pub enum MoveKind {
    Normal,
    EnPassant,
    Castle,
}

/// A move.  For castling, `from` is the king's square and `to` the
/// square of the rook it castles with; an en passant capture records a
/// captured pawn.
#[derive(Clone, Copy, Debug, PartialEq, Eq, Structural)]
pub struct Move {
    pub kind: MoveKind,
    pub role: Role,
    pub from: u8,
    pub to: u8,
    pub capture: Option<Role>,
    pub promotion: Option<Role>,
}

pub const FILE_LETTERS: [char; 8] = ['a', 'b', 'c', 'd', 'e', 'f', 'g', 'h'];

pub const RANK_DIGITS: [char; 8] = ['1', '2', '3', '4', '5', '6', '7', '8'];

/// The two characters that name a square, such as `e4`.
pub open spec fn square_name(sq: int) -> Seq<char> {
    seq![FILE_LETTERS[file_of(sq)], RANK_DIGITS[rank_of(sq)]]
}

/// Appends one character to a string (`String::push`).
#[verifier::external_body]
pub(crate) fn push_char(s: &mut String, c: char)
    ensures
        final(s)@ == old(s)@.push(c),
{
    s.push(c);
}

impl Move {
    pub open spec fn spec_is_capture(&self) -> bool {
        self.capture is Some
    }

    #[verifier::when_used_as_spec(spec_is_capture)]
    pub fn is_capture(&self) -> (r: bool)
        ensures
            r == self.capture is Some,
    {
        self.capture.is_some()
    }

    pub open spec fn spec_is_promotion(&self) -> bool {
        self.promotion is Some
    }

    #[verifier::when_used_as_spec(spec_is_promotion)]
    pub fn is_promotion(&self) -> (r: bool)
        ensures
            r == self.promotion is Some,
    {
        self.promotion.is_some()
    }

    /// The square a castling king lands on: the g-file when castling
    /// towards a rook on a higher file, the c-file otherwise.
    pub open spec fn castle_target(self) -> int {
        if self.from < self.to {
            rank_of(self.from as int) * 8 + 6
        } else {
            rank_of(self.from as int) * 8 + 2
        }
    }

    /// The move in UCI notation with standard castling: origin square,
    /// target square (the king's landing square when castling), and the
    /// lowercase letter of the promotion role, if any.
    pub open spec fn uci(self) -> Seq<char> {
        let target = if self.kind == MoveKind::Castle {
            self.castle_target()
        } else {
            self.to as int
        };
        let base = square_name(self.from as int) + square_name(target);
        match self.promotion {
            Some(r) => base.push(r.spec_letter()),
            None => base,
        }
    }

    /// Renders the move in UCI notation.
    pub fn to_uci(&self) -> (s: String)
        requires
            self.from < 64,
            self.to < 64,
        ensures
            s@ == self.uci(),
    {
        let target: u8 = if self.kind == MoveKind::Castle {
            if self.from < self.to {
                (self.from / 8) * 8 + 6
            } else {
                (self.from / 8) * 8 + 2
            }
        } else {
            self.to
        };
        let mut s = String::new();
        push_char(&mut s, FILE_LETTERS[(self.from % 8) as usize]);
        push_char(&mut s, RANK_DIGITS[(self.from / 8) as usize]);
        push_char(&mut s, FILE_LETTERS[(target % 8) as usize]);
        push_char(&mut s, RANK_DIGITS[(target / 8) as usize]);
        match self.promotion {
            Some(r) => push_char(&mut s, r.letter()),
            None => {},
        }
        assert(s@ =~= self.uci());
        s
    }
}

} // verus!
