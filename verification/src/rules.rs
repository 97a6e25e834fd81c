//! The rules of the game, as the shakmaty crate implements them: move
//! generation, playing moves, check and game-end detection, attack sets,
//! and the FEN and UCI notations.
//!
//! The `external_body` functions here are trusted: each hands a
//! consistent position held as plain values to shakmaty and converts the
//! answer back, and shakmaty's answers are named by uninterpreted spec
//! functions, so the rest of the library is verified for whatever
//! shakmaty answers.  The public entry points (`analyze`, `play`,
//! `swap_turn`, `fen`, `parse_uci_move`) and what is derived from the
//! answers (`is_game_over`, `is_checkmate`, `outcome`) are verified: they
//! keep a position whose bitboards disagree away from shakmaty and give
//! it the answers the open spec functions state.

use vstd::prelude::*;

use core::num::NonZeroU32;
use shakmaty::fen::Fen;
use shakmaty::uci::UciMove;
use shakmaty::variant::VariantPosition;
use shakmaty::{attacks, Bitboard, Board, ByColor, ByRole, CastlingMode, EnPassantMode, Outcome};
use shakmaty::{Position as _, RemainingChecks, Setup, Square};
use shakmaty::{Color as SkColor, Move as SkMove, Role as SkRole};
use shakmaty::variant::Variant as SkVariant;

use crate::board::{bit, Color, Move, MoveKind, Position, Role};
use crate::variant::Variant;

verus! {

#[verifier::external_type_specification]
#[verifier::external_body]
pub struct ExVariantPosition(VariantPosition);

#[verifier::external_type_specification]
#[verifier::external_body]
pub struct ExBoard(Board);

#[verifier::external_type_specification]
#[verifier::external_body]
pub struct ExShakmatyMove(SkMove);

#[verifier::external_type_specification]
#[verifier::external_body]
pub struct ExShakmatyRole(SkRole);

#[verifier::external_type_specification]
#[verifier::external_body]
pub struct ExShakmatyColor(SkColor);

#[verifier::external_type_specification]
#[verifier::external_body]
pub struct ExShakmatyVariant(SkVariant);

#[verifier::external_type_specification]
#[verifier::external_body]
pub struct ExOutcome(Outcome);

/// How a finished game ended.
#[derive(Clone, Copy, Debug, PartialEq, Eq, Structural)]
pub enum GameOutcome {
    Decisive(Color),
    Draw,
}

/// Why a FEN was refused.
#[derive(Clone, Copy, Debug, PartialEq, Eq, Structural)]
pub enum FenError {
    /// The text is not FEN.
    Syntax,
    /// The FEN describes a position that the variant's rules reject.
    Position,
}

/// Why a move in UCI notation was refused.
#[derive(Clone, Copy, Debug, PartialEq, Eq, Structural)]
pub enum MoveError {
    /// The text is not UCI move notation.
    Malformed,
    /// The move is not legal in the position.
    Illegal,
}

// ── Names for what shakmaty computes ─────────────────────────────────

/// shakmaty's legal moves of a consistent position, in its generation
/// order (none when shakmaty refuses the position).
pub uninterp spec fn shakmaty_legal_moves(p: Position) -> Seq<Move>;

/// shakmaty's answer whether the side to move is in check.
pub uninterp spec fn shakmaty_in_check(p: Position) -> bool;

/// shakmaty's answer whether a variant-specific end condition holds.
pub uninterp spec fn shakmaty_variant_end(p: Position) -> bool;

/// shakmaty's variant-specific result, if a variant rule decides the game.
pub uninterp spec fn shakmaty_variant_outcome(p: Position) -> Option<GameOutcome>;

/// shakmaty's answer whether neither side has sufficient material to win.
pub uninterp spec fn shakmaty_insufficient(p: Position) -> bool;

/// shakmaty's position after a legal move.
pub uninterp spec fn shakmaty_after_move(p: Position, m: Move) -> Position;

/// shakmaty's position with the other side to move, if it accepts it.
pub uninterp spec fn shakmaty_null_move(p: Position) -> Option<Position>;

/// shakmaty's FEN of a position.
pub uninterp spec fn shakmaty_fen(p: Position) -> Seq<char>;

/// The move shakmaty reads from a UCI string in a position.
pub uninterp spec fn shakmaty_uci_move(p: Position, s: Seq<char>) -> Result<Move, MoveError>;

// ── The rules, for every position ────────────────────────────────────
//
// A position whose bitboards disagree is never handed to shakmaty: it
// has no legal move, no check, no end condition, no result, no FEN and
// no null move, and no UCI string names a move in it.

/// The legal moves of a position, in shakmaty's generation order.
pub open spec fn legal_moves_of(p: Position) -> Seq<Move> {
    if p.consistent() {
        shakmaty_legal_moves(p)
    } else {
        Seq::empty()
    }
}

/// Whether the side to move is in check.
pub open spec fn in_check(p: Position) -> bool {
    p.consistent() && shakmaty_in_check(p)
}

/// Whether a variant-specific end condition holds.
pub open spec fn variant_end(p: Position) -> bool {
    p.consistent() && shakmaty_variant_end(p)
}

/// The variant-specific result, if a variant rule decides the game.
pub open spec fn variant_outcome_of(p: Position) -> Option<GameOutcome> {
    if p.consistent() {
        shakmaty_variant_outcome(p)
    } else {
        None
    }
}

/// Whether neither side has sufficient material to win.
pub open spec fn insufficient_material(p: Position) -> bool {
    p.consistent() && shakmaty_insufficient(p)
}

/// The position after a move.
pub open spec fn after_move(p: Position, m: Move) -> Position {
    if p.consistent() {
        shakmaty_after_move(p, m)
    } else {
        p
    }
}

/// The position with the other side to move and no en passant square,
/// if the rules accept it.
pub open spec fn null_move_of(p: Position) -> Option<Position> {
    if p.consistent() {
        shakmaty_null_move(p)
    } else {
        None
    }
}

/// The FEN of a position.
pub open spec fn fen_of(p: Position) -> Seq<char> {
    if p.consistent() {
        shakmaty_fen(p)
    } else {
        Seq::empty()
    }
}

/// The position a FEN describes in a variant.
pub uninterp spec fn fen_position(v: Variant, s: Seq<char>) -> Result<Position, FenError>;

/// The move a UCI string denotes in a position.
pub open spec fn uci_move_in(p: Position, s: Seq<char>) -> Result<Move, MoveError> {
    if p.consistent() {
        shakmaty_uci_move(p, s)
    } else {
        Err(MoveError::Illegal)
    }
}

/// Squares attacked by a pawn of `c` on `sq`.
pub uninterp spec fn pawn_attacks_of(c: Color, sq: u8) -> u64;

/// Squares attacked by a knight on `sq`.
pub uninterp spec fn knight_attacks_of(sq: u8) -> u64;

/// Squares attacked by a king on `sq`.
pub uninterp spec fn king_attacks_of(sq: u8) -> u64;

/// Squares attacked by a bishop on `sq` given the occupied squares.
pub uninterp spec fn bishop_attacks_of(sq: u8, occupied: u64) -> u64;

/// Squares attacked by a rook on `sq` given the occupied squares.
pub uninterp spec fn rook_attacks_of(sq: u8, occupied: u64) -> u64;

/// The squares strictly between two aligned squares; none when they are
/// not on a common rank, file or diagonal.
pub uninterp spec fn between_of(a: u8, b: u8) -> u64;

/// `t` is one step `d` away from `sq` on the board: shakmaty's tables
/// keep a step whose file changes by at most two, which drops the steps
/// that would wrap round the board's edge.
pub open spec fn stepped(sq: int, t: int, d: int) -> bool {
    t == sq + d && 0 <= t < 64 && -2 <= t % 8 - sq % 8 <= 2
}

/// A knight on `sq` attacks `t`.
pub open spec fn knight_target(sq: int, t: int) -> bool {
    stepped(sq, t, 17) || stepped(sq, t, 15) || stepped(sq, t, 10) || stepped(sq, t, 6)
        || stepped(sq, t, -17) || stepped(sq, t, -15) || stepped(sq, t, -10) || stepped(sq, t, -6)
}

/// A king on `sq` attacks `t`.
pub open spec fn king_target(sq: int, t: int) -> bool {
    stepped(sq, t, 9) || stepped(sq, t, 8) || stepped(sq, t, 7) || stepped(sq, t, 1)
        || stepped(sq, t, -9) || stepped(sq, t, -8) || stepped(sq, t, -7) || stepped(sq, t, -1)
}

/// A pawn of `c` on `sq` attacks `t`: one rank forward, one file aside.
pub open spec fn pawn_target(c: Color, sq: int, t: int) -> bool {
    match c {
        Color::White => stepped(sq, t, 7) || stepped(sq, t, 9),
        Color::Black => stepped(sq, t, -7) || stepped(sq, t, -9),
    }
}

/// `t` lies on the line of rank, file, diagonal or anti-diagonal that
/// joins `a` and `b`.
pub open spec fn on_line(a: int, b: int, t: int) -> bool {
    ||| a % 8 == b % 8 && t % 8 == a % 8
    ||| a / 8 == b / 8 && t / 8 == a / 8
    ||| a / 8 - a % 8 == b / 8 - b % 8 && t / 8 - t % 8 == a / 8 - a % 8
    ||| a / 8 + a % 8 == b / 8 + b % 8 && t / 8 + t % 8 == a / 8 + a % 8
}

/// `t` lies strictly between the distinct squares `a` and `b` on the
/// line that joins them.
pub open spec fn strictly_between(a: int, b: int, t: int) -> bool {
    a != b && on_line(a, b, t) && (if a < b {
        a < t < b
    } else {
        b < t < a
    })
}

/// A rook on `sq` attacks `t` through the occupied squares `occupied`:
/// `t` shares its rank or file, and no occupied square lies between.
pub open spec fn rook_target(sq: int, t: int, occupied: u64) -> bool {
    &&& t != sq
    &&& (t % 8 == sq % 8 || t / 8 == sq / 8)
    &&& forall|u: int| 0 <= u < 64 && #[trigger] strictly_between(sq, t, u) ==> !bit(occupied, u)
}

/// A bishop on `sq` attacks `t` through the occupied squares `occupied`:
/// `t` shares a diagonal, and no occupied square lies between.
pub open spec fn bishop_target(sq: int, t: int, occupied: u64) -> bool {
    &&& t != sq
    &&& (t / 8 - t % 8 == sq / 8 - sq % 8 || t / 8 + t % 8 == sq / 8 + sq % 8)
    &&& forall|u: int| 0 <= u < 64 && #[trigger] strictly_between(sq, t, u) ==> !bit(occupied, u)
}

// ── Conversions between the library's values and shakmaty's ─────────

/// Converts a variant to shakmaty's variant of the same name.
#[verifier::external_body]
fn shakmaty_variant(v: Variant) -> SkVariant {
    match v {
        Variant::Standard => SkVariant::Chess,
        Variant::KingOfTheHill => SkVariant::KingOfTheHill,
        Variant::ThreeCheck => SkVariant::ThreeCheck,
        Variant::Antichess => SkVariant::Antichess,
    }
}

/// Converts a role to shakmaty's role of the same name.
#[verifier::external_body]
fn shakmaty_role(r: Role) -> SkRole {
    match r {
        Role::Pawn => SkRole::Pawn,
        Role::Knight => SkRole::Knight,
        Role::Bishop => SkRole::Bishop,
        Role::Rook => SkRole::Rook,
        Role::Queen => SkRole::Queen,
        Role::King => SkRole::King,
    }
}

/// Converts one of shakmaty's roles to the role of the same name.
#[verifier::external_body]
fn role_of(r: SkRole) -> Role {
    match r {
        SkRole::Pawn => Role::Pawn,
        SkRole::Knight => Role::Knight,
        SkRole::Bishop => Role::Bishop,
        SkRole::Rook => Role::Rook,
        SkRole::Queen => Role::Queen,
        SkRole::King => Role::King,
    }
}

/// Converts one of shakmaty's colours.
#[verifier::external_body]
fn color_of(c: SkColor) -> Color {
    match c {
        SkColor::White => Color::White,
        SkColor::Black => Color::Black,
    }
}

/// Converts one of shakmaty's outcomes.
#[verifier::external_body]
fn outcome_of(o: Outcome) -> GameOutcome {
    match o {
        Outcome::Decisive { winner } => GameOutcome::Decisive(color_of(winner)),
        Outcome::Draw => GameOutcome::Draw,
    }
}

/// Builds shakmaty's board from the position's bitboards
/// (`Board::from_bitboards`, which panics unless they agree).
#[verifier::external_body]
fn shakmaty_board(p: &Position) -> Board
    requires
        p.consistent(),
{
    Board::from_bitboards(
        ByRole {
            pawn: Bitboard(p.pawns),
            knight: Bitboard(p.knights),
            bishop: Bitboard(p.bishops),
            rook: Bitboard(p.rooks),
            queen: Bitboard(p.queens),
            king: Bitboard(p.kings),
        },
        ByColor { white: Bitboard(p.white), black: Bitboard(p.black) },
    )
}

/// Sets a consistent position up in shakmaty (`VariantPosition::from_setup`
/// with standard castling); `None` when a field is out of range or
/// shakmaty rejects the position.
#[verifier::external_body]
fn setup_position(p: &Position) -> Option<VariantPosition>
    requires
        p.consistent(),
{
    let setup = Setup {
        board: shakmaty_board(p),
        promoted: Bitboard::EMPTY,
        pockets: None,
        turn: SkColor::from_white(p.white_to_move),
        castling_rights: Bitboard(p.castling),
        ep_square: p.ep_square.map(Square::try_from).transpose().ok()?,
        remaining_checks: Some(ByColor {
            white: RemainingChecks::try_from(p.checks_white).ok()?,
            black: RemainingChecks::try_from(p.checks_black).ok()?,
        }),
        halfmoves: p.halfmoves,
        fullmoves: NonZeroU32::new(p.fullmoves)?,
    };
    VariantPosition::from_setup(shakmaty_variant(p.variant), setup, CastlingMode::Standard).ok()
}

/// Reads a shakmaty position back into plain values
/// (`Position::into_setup` with the en passant square always kept).
/// Positions without a check counter record three remaining checks.
/// shakmaty's board keeps its bitboards in agreement, so the position
/// read back is consistent.
#[verifier::external_body]
fn snapshot(variant: Variant, vp: VariantPosition) -> (r: Position)
    ensures
        r.consistent(),
        r.variant == variant,
{
    let s = vp.into_setup(EnPassantMode::Always);
    let checks = s.remaining_checks.unwrap_or_default();
    let (r, c) = s.board.into_bitboards();
    Position {
        variant,
        pawns: r.pawn.0, knights: r.knight.0, bishops: r.bishop.0,
        rooks: r.rook.0, queens: r.queen.0, kings: r.king.0,
        white: c.white.0, black: c.black.0,
        white_to_move: s.turn.is_white(), castling: s.castling_rights.0,
        ep_square: s.ep_square.map(u8::from),
        checks_white: u32::from(checks.white), checks_black: u32::from(checks.black),
        halfmoves: s.halfmoves, fullmoves: s.fullmoves.get(),
    }
}

/// Converts one of shakmaty's moves.  Drops cannot occur in the
/// supported variants; one would be recorded as a move from its target
/// square.
#[verifier::external_body]
fn move_of(m: &SkMove) -> Move {
    let kind = match *m {
        SkMove::Normal { .. } => MoveKind::Normal,
        SkMove::EnPassant { .. } => MoveKind::EnPassant,
        SkMove::Castle { .. } => MoveKind::Castle,
        SkMove::Put { .. } => MoveKind::Normal,
    };
    Move {
        kind,
        role: role_of(m.role()),
        from: u8::from(m.from().unwrap_or(m.to())),
        to: u8::from(m.to()),
        capture: m.capture().map(role_of),
        promotion: m.promotion().map(role_of),
    }
}

/// Converts a move back to shakmaty's move.
#[verifier::external_body]
fn shakmaty_move(m: &Move) -> SkMove
    requires
        m.from < 64,
        m.to < 64,
{
    let (from, to) = (Square::new(m.from as u32), Square::new(m.to as u32));
    match m.kind {
        MoveKind::Normal => SkMove::Normal {
            role: shakmaty_role(m.role),
            from,
            capture: m.capture.map(shakmaty_role),
            to,
            promotion: m.promotion.map(shakmaty_role),
        },
        MoveKind::EnPassant => SkMove::EnPassant { from, to },
        MoveKind::Castle => SkMove::Castle { king: from, rook: to },
    }
}

// ── Starting positions ───────────────────────────────────────────────

/// The starting position of a variant: the standard array, White to
/// move, castling with all four rooks (none in Antichess), no en passant
/// square, three checks still to give, and the move counters at 0 and 1.
pub open spec fn initial_position(v: Variant) -> Position {
    Position {
        variant: v,
        pawns: 0x00ff_0000_0000_ff00,
        knights: 0x4200_0000_0000_0042,
        bishops: 0x2400_0000_0000_0024,
        rooks: 0x8100_0000_0000_0081,
        queens: 0x0800_0000_0000_0008,
        kings: 0x1000_0000_0000_0010,
        white: 0xffff,
        black: 0xffff_0000_0000_0000,
        white_to_move: true,
        castling: if v == Variant::Antichess {
            0
        } else {
            0x8100_0000_0000_0081
        },
        ep_square: None,
        checks_white: 3,
        checks_black: 3,
        halfmoves: 0,
        fullmoves: 1,
    }
}

/// shakmaty's starting position of a variant (`VariantPosition::new`),
/// read back as plain values.  shakmaty's source builds it from
/// `Board::new()`, `Castles::new()` (`Castles::empty` for Antichess),
/// White to move, no en passant square, counters 0 and 1, and three
/// remaining checks per side.
#[verifier::external_body]
pub fn start_position(v: Variant) -> (r: Position)
    ensures
        r == initial_position(v),
{
    snapshot(v, VariantPosition::new(shakmaty_variant(v)))
}

// ── Queries ──────────────────────────────────────────────────────────

/// What the search needs to know about a position.
pub struct NodeInfo {
    pub moves: Vec<Move>,
    pub check: bool,
    pub variant_end: bool,
    pub variant_outcome: Option<GameOutcome>,
    pub insufficient: bool,
}

/// shakmaty's answers about a position it accepted: legal moves, check,
/// variant end and result, insufficient material.
#[verifier::external_body]
fn node_info(vp: &VariantPosition) -> NodeInfo {
    NodeInfo {
        moves: vp.legal_moves().iter().map(move_of).collect(),
        check: vp.is_check(),
        variant_end: vp.is_variant_end(),
        variant_outcome: vp.variant_outcome().map(outcome_of),
        insufficient: vp.is_insufficient_material(),
    }
}

/// Asks shakmaty about a consistent position: the legal moves
/// (`Position::legal_moves`), whether the side to move is in check
/// (`is_check`), whether a variant end condition holds
/// (`is_variant_end`), the variant result (`variant_outcome`) and whether
/// the material is insufficient for both sides
/// (`is_insufficient_material`); every generated move has squares on the
/// board.  A position shakmaty refuses gets negative answers.
#[verifier::external_body]
fn shakmaty_analyze(p: &Position) -> (r: NodeInfo)
    requires
        p.consistent(),
    ensures
        r.moves@ == shakmaty_legal_moves(*p),
        r.check == shakmaty_in_check(*p),
        r.variant_end == shakmaty_variant_end(*p),
        r.variant_outcome == shakmaty_variant_outcome(*p),
        r.insufficient == shakmaty_insufficient(*p),
        forall|i: int| 0 <= i < r.moves@.len() ==> (#[trigger] r.moves@[i]).from < 64 && r.moves@[i].to < 64,
{
    match setup_position(p) {
        Some(vp) => node_info(&vp),
        None => NodeInfo { moves: Vec::new(), check: false, variant_end: false, variant_outcome: None, insufficient: false },
    }
}

/// What the rules say about a position: its legal moves, check, variant
/// end and result, insufficient material.  A position whose bitboards
/// disagree is not handed to shakmaty: it has no moves and every answer
/// is negative.
pub fn analyze(p: &Position) -> (r: NodeInfo)
    ensures
        r.moves@ == legal_moves_of(*p),
        r.check == in_check(*p),
        r.variant_end == variant_end(*p),
        r.variant_outcome == variant_outcome_of(*p),
        r.insufficient == insufficient_material(*p),
        forall|i: int| 0 <= i < r.moves@.len() ==> (#[trigger] r.moves@[i]).from < 64 && r.moves@[i].to < 64,
        !p.consistent() ==> r.moves@.len() == 0 && !r.check && !r.variant_end && r.variant_outcome is None
            && !r.insufficient,
{
    if p.is_consistent() {
        shakmaty_analyze(p)
    } else {
        NodeInfo {
            moves: Vec::new(),
            check: false,
            variant_end: false,
            variant_outcome: None,
            insufficient: false,
        }
    }
}

/// Plays a legal move in a consistent position
/// (`Position::play_unchecked`, which may panic on an illegal move, hence
/// the precondition).  The variant is kept, and the position reached is
/// read back from shakmaty's board, so it is consistent.
#[verifier::external_body]
fn shakmaty_play(p: &Position, m: &Move) -> (r: Position)
    requires
        p.consistent(),
        shakmaty_legal_moves(*p).contains(*m),
    ensures
        r == shakmaty_after_move(*p, *m),
        r.variant == p.variant,
        r.consistent(),
{
    match setup_position(p) {
        Some(mut vp) => {
            vp.play_unchecked(&shakmaty_move(m));
            snapshot(p.variant, vp)
        },
        None => *p,
    }
}

/// Plays a legal move; the variant is kept and the position reached is
/// consistent.
pub fn play(p: &Position, m: &Move) -> (r: Position)
    requires
        legal_moves_of(*p).contains(*m),
    ensures
        r == after_move(*p, *m),
        r.variant == p.variant,
        r.consistent(),
{
    shakmaty_play(p, m)
}

/// Passes the turn in a consistent position
/// (`VariantPosition::swap_turn`); `None` when shakmaty refuses.
#[verifier::external_body]
fn shakmaty_swap_turn(p: &Position) -> (r: Option<Position>)
    requires
        p.consistent(),
    ensures
        r == shakmaty_null_move(*p),
        r matches Some(q) ==> q.consistent() && q.variant == p.variant,
{
    Some(snapshot(p.variant, setup_position(p)?.swap_turn().ok()?))
}

/// Passes the turn; `None` when the rules refuse, as for a position whose
/// bitboards disagree.
pub fn swap_turn(p: &Position) -> (r: Option<Position>)
    ensures
        r == null_move_of(*p),
        r matches Some(q) ==> q.consistent() && q.variant == p.variant,
        !p.consistent() ==> r is None,
{
    if p.is_consistent() {
        shakmaty_swap_turn(p)
    } else {
        None
    }
}

/// The FEN of a consistent position, with the en passant square always
/// written (`Fen::from_position`); empty when shakmaty refuses it.
#[verifier::external_body]
fn shakmaty_fen_text(p: &Position) -> (r: String)
    requires
        p.consistent(),
    ensures
        r@ == shakmaty_fen(*p),
{
    match setup_position(p) {
        Some(vp) => Fen::from_position(vp, EnPassantMode::Always).to_string(),
        None => String::new(),
    }
}

/// The FEN of a position; empty for one whose bitboards disagree.
pub fn fen(p: &Position) -> (r: String)
    ensures
        r@ == fen_of(*p),
        !p.consistent() ==> r@.len() == 0,
{
    if p.is_consistent() {
        shakmaty_fen_text(p)
    } else {
        String::new()
    }
}

/// Reads a FEN (`Fen::from_ascii`) and sets the position up in a variant
/// with standard castling (`VariantPosition::from_setup`).  A position
/// read this way carries its variant.
#[verifier::external_body]
pub fn parse_fen(v: Variant, s: &str) -> (r: Result<Position, FenError>)
    ensures
        r == fen_position(v, s@),
        r matches Ok(p) ==> p.variant == v && p.consistent(),
{
    let setup = match Fen::from_ascii(s.as_bytes()) {
        Ok(f) => f.into_setup(),
        Err(_) => return Err(FenError::Syntax),
    };
    match VariantPosition::from_setup(shakmaty_variant(v), setup, CastlingMode::Standard) {
        Ok(vp) => Ok(snapshot(v, vp)),
        Err(_) => Err(FenError::Position),
    }
}

/// Reads a move in UCI notation (`UciMove::from_ascii`) and resolves it
/// in a consistent position (`UciMove::to_move`), which accepts only a
/// legal move.
#[verifier::external_body]
fn shakmaty_parse_uci(p: &Position, s: &str) -> (r: Result<Move, MoveError>)
    requires
        p.consistent(),
    ensures
        r == shakmaty_uci_move(*p, s@),
        r matches Ok(m) ==> shakmaty_legal_moves(*p).contains(m),
{
    let u = match UciMove::from_ascii(s.as_bytes()) {
        Ok(u) => u,
        Err(_) => return Err(MoveError::Malformed),
    };
    match setup_position(p).map(|vp| u.to_move(&vp)) {
        Some(Ok(m)) => Ok(move_of(&m)),
        _ => Err(MoveError::Illegal),
    }
}

/// The legal move a UCI string names in a position; no string names a
/// move in a position whose bitboards disagree.
pub fn parse_uci_move(p: &Position, s: &str) -> (r: Result<Move, MoveError>)
    ensures
        r == uci_move_in(*p, s@),
        r matches Ok(m) ==> legal_moves_of(*p).contains(m),
        !p.consistent() ==> r is Err,
{
    if p.is_consistent() {
        shakmaty_parse_uci(p, s)
    } else {
        Err(MoveError::Illegal)
    }
}

/// Pawn attacks (`attacks::pawn_attacks`): the squares `pawn_target`
/// names, read from shakmaty's table of steps.
#[verifier::external_body]
pub fn pawn_attacks(c: Color, sq: u8) -> (r: u64)
    requires
        sq < 64,
    ensures
        r == pawn_attacks_of(c, sq),
        forall|t: int| 0 <= t < 64 ==> (bit(r, t) <==> pawn_target(c, sq as int, t)),
{
    let color = SkColor::from_white(c == Color::White);
    attacks::pawn_attacks(color, Square::new(sq as u32)).0
}

/// Knight attacks (`attacks::knight_attacks`): the squares
/// `knight_target` names, read from shakmaty's table of steps.
#[verifier::external_body]
pub fn knight_attacks(sq: u8) -> (r: u64)
    requires
        sq < 64,
    ensures
        r == knight_attacks_of(sq),
        forall|t: int| 0 <= t < 64 ==> (bit(r, t) <==> knight_target(sq as int, t)),
{
    attacks::knight_attacks(Square::new(sq as u32)).0
}

/// King attacks (`attacks::king_attacks`): the squares `king_target`
/// names, read from shakmaty's table of steps.
#[verifier::external_body]
pub fn king_attacks(sq: u8) -> (r: u64)
    requires
        sq < 64,
    ensures
        r == king_attacks_of(sq),
        forall|t: int| 0 <= t < 64 ==> (bit(r, t) <==> king_target(sq as int, t)),
{
    attacks::king_attacks(Square::new(sq as u32)).0
}

/// Bishop attacks through the occupied squares (`attacks::bishop_attacks`):
/// the squares `bishop_target` names, each ray stopping at its first
/// occupied square.
#[verifier::external_body]
pub fn bishop_attacks(sq: u8, occupied: u64) -> (r: u64)
    requires
        sq < 64,
    ensures
        r == bishop_attacks_of(sq, occupied),
        forall|t: int| 0 <= t < 64 ==> (bit(r, t) <==> bishop_target(sq as int, t, occupied)),
{
    attacks::bishop_attacks(Square::new(sq as u32), Bitboard(occupied)).0
}

/// Rook attacks through the occupied squares (`attacks::rook_attacks`):
/// the squares `rook_target` names, each ray stopping at its first
/// occupied square.
#[verifier::external_body]
pub fn rook_attacks(sq: u8, occupied: u64) -> (r: u64)
    requires
        sq < 64,
    ensures
        r == rook_attacks_of(sq, occupied),
        forall|t: int| 0 <= t < 64 ==> (bit(r, t) <==> rook_target(sq as int, t, occupied)),
{
    attacks::rook_attacks(Square::new(sq as u32), Bitboard(occupied)).0
}

/// The squares strictly between two squares on a line
/// (`attacks::between`, the line's squares after the lower square and
/// before the higher one); none when the squares are not aligned.
#[verifier::external_body]
pub fn between(a: u8, b: u8) -> (r: u64)
    requires
        a < 64,
        b < 64,
    ensures
        r == between_of(a, b),
        forall|t: int| 0 <= t < 64 ==> (bit(r, t) <==> strictly_between(a as int, b as int, t)),
{
    attacks::between(Square::new(a as u32), Square::new(b as u32)).0
}

// ── What follows from the answers above ─────────────────────────────

/// Whether a node description holds shakmaty's answers for a position.
pub open spec fn info_matches(info: NodeInfo, p: Position) -> bool {
    &&& info.moves@ == legal_moves_of(p)
    &&& info.check == in_check(p)
    &&& info.variant_end == variant_end(p)
    &&& info.variant_outcome == variant_outcome_of(p)
    &&& info.insufficient == insufficient_material(p)
    &&& forall|i: int| 0 <= i < info.moves@.len() ==> (#[trigger] info.moves@[i]).from < 64 && info.moves@[i].to < 64
}

/// The game is over when a variant end condition holds, no legal move
/// remains, or neither side can win (shakmaty's `is_game_over`).
pub open spec fn spec_is_game_over(p: Position) -> bool {
    variant_end(p) || legal_moves_of(p).len() == 0 || insufficient_material(p)
}

/// Checkmate: in check with no legal move.
pub open spec fn spec_is_checkmate(p: Position) -> bool {
    in_check(p) && legal_moves_of(p).len() == 0
}

/// How the game ended (shakmaty's `outcome`): a variant rule decides
/// first; otherwise having no legal move loses when in check and draws
/// when not, and insufficient material draws.
pub open spec fn spec_outcome(p: Position) -> Option<GameOutcome> {
    match variant_outcome_of(p) {
        Some(o) => Some(o),
        None => if legal_moves_of(p).len() == 0 {
            if in_check(p) {
                Some(GameOutcome::Decisive(p.side().spec_other()))
            } else {
                Some(GameOutcome::Draw)
            }
        } else if insufficient_material(p) {
            Some(GameOutcome::Draw)
        } else {
            None
        },
    }
}

/// Whether the game is over, from a node description.
pub fn is_game_over(info: &NodeInfo, Ghost(p): Ghost<Position>) -> (r: bool)
    requires
        info_matches(*info, p),
    ensures
        r == spec_is_game_over(p),
{
    info.variant_end || info.moves.len() == 0 || info.insufficient
}

/// Whether the side to move is checkmated, from a node description.
pub fn is_checkmate(info: &NodeInfo, Ghost(p): Ghost<Position>) -> (r: bool)
    requires
        info_matches(*info, p),
    ensures
        r == spec_is_checkmate(p),
{
    info.check && info.moves.len() == 0
}

/// How the game ended, from a node description.
pub fn outcome(pos: &Position, info: &NodeInfo) -> (r: Option<GameOutcome>)
    requires
        info_matches(*info, *pos),
    ensures
        r == spec_outcome(*pos),
{
    match info.variant_outcome {
        Some(o) => Some(o),
        None => if info.moves.len() == 0 {
            if info.check {
                Some(GameOutcome::Decisive(pos.turn().other()))
            } else {
                Some(GameOutcome::Draw)
            }
        } else if info.insufficient {
            Some(GameOutcome::Draw)
        } else {
            None
        },
    }
}

} // verus!
