//! The integer side of preparing training data for the surrogate model:
//! clipping engine evaluations and classifying positions by game phase.

use vstd::prelude::*;

use rand::rngs::StdRng;
use rand::seq::SliceRandom;
use rand::{Rng, SeedableRng};

use crate::board::{Move, Position, Role};
use crate::engine::eval::{phase_count, phase_count_upto};
use crate::rules::{after_move, analyze, initial_position, is_game_over, legal_moves_of, play, spec_is_game_over, start_position};
use crate::variant::Variant;

verus! {

/// Largest evaluation magnitude kept in training targets.
///
/// A UCI engine reports forced mates near ±10000; letting those through
/// would make the surrogate fit a handful of enormous targets at the
/// expense of the ordinary swings the explanations are about.
pub const EVAL_CLIP_CP: i32 = 1000;

/// Clamp an engine evaluation into the range the surrogate is fit over.
pub fn clip_eval(cp: i32) -> (r: i32)
    ensures
        r == (if cp < -EVAL_CLIP_CP {
            -EVAL_CLIP_CP as int
        } else if cp > EVAL_CLIP_CP {
            EVAL_CLIP_CP as int
        } else {
            cp as int
        }),
{
    if cp < -EVAL_CLIP_CP {
        -EVAL_CLIP_CP
    } else if cp > EVAL_CLIP_CP {
        EVAL_CLIP_CP
    } else {
        cp
    }
}

/// The number of queens, rooks, bishops and knights on the board.
pub fn board_phase_value(pos: &Position) -> (r: i32)
    ensures
        r == phase_count(*pos),
        0 <= r <= 64,
{
    let mut val: i32 = 0;
    let mut sq: u8 = 0;
    while sq < 64
        invariant
            sq <= 64,
            val == phase_count_upto(*pos, sq as int),
            0 <= val <= sq,
        decreases 64 - sq,
    {
        if let Some(piece) = pos.get_piece(sq) {
            match piece.role {
                Role::Queen | Role::Rook | Role::Bishop | Role::Knight => {
                    val += 1;
                },
                _ => {},
            }
        }
        sq += 1;
    }
    val
}

/// The phase a count of queens, rooks, bishops and knights indicates:
/// twelve or more is the opening, six or more the middlegame, fewer the
/// endgame.
pub open spec fn phase_name(phase: int) -> Seq<char> {
    if phase >= 12 {
        "opening"@
    } else if phase >= 6 {
        "middlegame"@
    } else {
        "endgame"@
    }
}

/// The game phase of a position by its count of minor and major pieces.
pub fn classify_phase(pos: &Position) -> (r: String)
    ensures
        r@ == phase_name(phase_count(*pos)),
{
    let phase = board_phase_value(pos);
    if phase >= 12 {
        "opening".to_owned()
    } else if phase >= 6 {
        "middlegame".to_owned()
    } else {
        "endgame".to_owned()
    }
}

// ── Sampling positions ───────────────────────────────────────────────

/// The game phases positions are sampled from.
#[derive(Clone, Copy, Debug, PartialEq, Eq, Structural)]
pub enum GamePhase {
    Opening,
    Middlegame,
    Endgame,
}

/// The phase a count of queens, rooks, bishops and knights indicates.
pub open spec fn phase_of(phase: int) -> GamePhase {
    if phase >= 12 {
        GamePhase::Opening
    } else if phase >= 6 {
        GamePhase::Middlegame
    } else {
        GamePhase::Endgame
    }
}

/// Classifies a count of queens, rooks, bishops and knights.
pub fn phase_of_count(phase: i32) -> (r: GamePhase)
    ensures
        r == phase_of(phase as int),
{
    if phase >= 12 {
        GamePhase::Opening
    } else if phase >= 6 {
        GamePhase::Middlegame
    } else {
        GamePhase::Endgame
    }
}

#[verifier::external_type_specification]
#[verifier::external_body]
pub struct ExStdRng(StdRng);

/// One call made on a seeded generator, with the arguments that decide
/// how much of its stream the call consumes.
pub ghost enum DrawCall {
    /// `gen_range(lo..hi)` over `i32`.
    InRange(i32, i32),
    /// `gen_ratio(numerator, denominator)`.
    Ratio(u32, u32),
    /// `SliceRandom::choose` on a slice of this length.
    Choice(nat),
    /// `SliceRandom::shuffle` of a slice of this length.
    Shuffle(nat),
}

// What a generator seeded with `StdRng::seed_from_u64(seed)` gives for a
// call, after the calls `earlier` were made on it.  ChaCha's stream is a
// function of the seed, and each of rand's calls reads from it in a way
// fixed by its arguments (`choose` and `shuffle` draw their indices as
// 32-bit numbers whatever the width of `usize`), so the answer depends on
// these values alone.

/// The number `gen_range(lo..hi)` draws.
pub uninterp spec fn seeded_in_range(seed: u64, earlier: Seq<DrawCall>, lo: i32, hi: i32) -> i32;

/// The answer `gen_ratio(numerator, denominator)` draws.
pub uninterp spec fn seeded_ratio(seed: u64, earlier: Seq<DrawCall>, numerator: u32, denominator: u32) -> bool;

/// The index `choose` picks in a slice of length `len`.
pub uninterp spec fn seeded_choice(seed: u64, earlier: Seq<DrawCall>, len: nat) -> int;

/// The order `shuffle` leaves a slice of length `len` in: position `i`
/// then holds the element that stood at `order[i]`.
pub uninterp spec fn seeded_shuffle(seed: u64, earlier: Seq<DrawCall>, len: nat) -> Seq<int>;

/// Whether `order` lists each index below `len` once.
pub open spec fn is_order(order: Seq<int>, len: nat) -> bool {
    &&& order.len() == len
    &&& forall|i: int| 0 <= i < len ==> 0 <= #[trigger] order[i] < len
    &&& forall|i: int, j: int| 0 <= i < j < len ==> #[trigger] order[i] != #[trigger] order[j]
}

/// A random number generator seeded deterministically, with a ghost record
/// of its seed and of the calls made on it.  The record changes only
/// with the calls below, so it always tells what the generator will give.
pub struct SeededRng {
    rng: StdRng,
    seed: Ghost<u64>,
    calls: Ghost<Seq<DrawCall>>,
}

impl SeededRng {
    /// The seed the generator was made from.
    pub closed spec fn seed(&self) -> u64 {
        self.seed@
    }

    /// The calls made on it so far.
    pub closed spec fn calls(&self) -> Seq<DrawCall> {
        self.calls@
    }

    /// A generator seeded with `seed`, no call made yet.
    pub fn new(seed: u64) -> (r: SeededRng)
        ensures
            r.seed() == seed,
            r.calls() == Seq::<DrawCall>::empty(),
    {
        SeededRng { rng: seeded_std_rng(seed), seed: Ghost(seed), calls: Ghost(Seq::empty()) }
    }
}

/// A ChaCha generator seeded from a number (`StdRng::seed_from_u64`).
#[verifier::external_body]
fn seeded_std_rng(seed: u64) -> StdRng {
    StdRng::seed_from_u64(seed)
}

/// A seed drawn from the thread's generator (`rand::thread_rng().gen()`).
#[verifier::external_body]
fn fresh_seed() -> u64 {
    rand::thread_rng().gen()
}

/// A number drawn from `lo..hi` (`Rng::gen_range`, which panics on an
/// empty range): `seeded_in_range` of the seed and the calls so far.  The
/// ghost record grows by this call.
#[verifier::external_body]
fn random_in(g: &mut SeededRng, lo: i32, hi: i32) -> (r: i32)
    requires
        lo < hi,
    ensures
        lo <= r < hi,
        r == seeded_in_range(old(g).seed(), old(g).calls(), lo, hi),
        final(g).seed() == old(g).seed(),
        final(g).calls() == old(g).calls().push(DrawCall::InRange(lo, hi)),
{
    g.rng.gen_range(lo..hi)
}

/// True with probability `numerator / denominator` (`Rng::gen_ratio`,
/// which panics unless `numerator <= denominator` and `denominator > 0`):
/// `seeded_ratio` of the seed and the calls so far.  The ghost record
/// grows by this call.
#[verifier::external_body]
fn random_ratio(g: &mut SeededRng, numerator: u32, denominator: u32) -> (r: bool)
    requires
        0 < denominator,
        numerator <= denominator,
    ensures
        r == seeded_ratio(old(g).seed(), old(g).calls(), numerator, denominator),
        final(g).seed() == old(g).seed(),
        final(g).calls() == old(g).calls().push(DrawCall::Ratio(numerator, denominator)),
{
    g.rng.gen_ratio(numerator, denominator)
}

/// One of the moves (`SliceRandom::choose`, which finds none only in an
/// empty slice): the one at the index `seeded_choice` draws.  The ghost
/// record grows by this call.
#[verifier::external_body]
fn choose_move(g: &mut SeededRng, moves: &Vec<Move>) -> (r: Move)
    requires
        moves@.len() > 0,
    ensures
        0 <= seeded_choice(old(g).seed(), old(g).calls(), moves@.len()) < moves@.len(),
        r == moves@[seeded_choice(old(g).seed(), old(g).calls(), moves@.len())],
        final(g).seed() == old(g).seed(),
        final(g).calls() == old(g).calls().push(DrawCall::Choice(moves@.len())),
{
    *moves.choose(&mut g.rng).unwrap()
}

/// Puts the positions in the order `seeded_shuffle` draws
/// (`SliceRandom::shuffle`, a Fisher-Yates shuffle).  The ghost record
/// grows by this call.
#[verifier::external_body]
fn shuffle_positions(g: &mut SeededRng, v: &mut Vec<Position>)
    ensures
        is_order(seeded_shuffle(old(g).seed(), old(g).calls(), old(v)@.len()), old(v)@.len()),
        final(v)@ == Seq::new(
            old(v)@.len(),
            |i: int| old(v)@[seeded_shuffle(old(g).seed(), old(g).calls(), old(v)@.len())[i]],
        ),
        final(v)@.to_multiset() == old(v)@.to_multiset(),
        final(g).seed() == old(g).seed(),
        final(g).calls() == old(g).calls().push(DrawCall::Shuffle(old(v)@.len())),
{
    v.shuffle(&mut g.rng);
}

/// A position fit for training: standard chess, game not over.
pub open spec fn is_sample(p: Position) -> bool {
    p.variant == Variant::Standard && !spec_is_game_over(p)
}

/// Whether a position lies in a phase.
pub open spec fn lies_in(ph: GamePhase) -> spec_fn(Position) -> bool {
    |p: Position| phase_of(phase_count(p)) == ph
}

/// How many of the positions lie in a phase.
pub open spec fn in_phase(s: Seq<Position>, ph: GamePhase) -> nat {
    s.to_multiset().filter(lies_in(ph)).len()
}

proof fn lemma_in_phase_push(s: Seq<Position>, x: Position, ph: GamePhase)
    ensures
        in_phase(s.push(x), ph) == in_phase(s, ph) + if phase_of(phase_count(x)) == ph {
            1nat
        } else {
            0nat
        },
{
    let f = lies_in(ph);
    vstd::seq_lib::to_multiset_build(s, x);
    if f(x) {
        assert(s.to_multiset().insert(x).filter(f) =~= s.to_multiset().filter(f).insert(x));
    } else {
        assert(s.to_multiset().insert(x).filter(f) =~= s.to_multiset().filter(f));
    }
}

proof fn lemma_in_phase_empty(ph: GamePhase)
    ensures
        in_phase(Seq::<Position>::empty(), ph) == 0,
{
    let e = Seq::<Position>::empty();
    e.to_multiset_ensures();
    assert(e.to_multiset() =~= vstd::multiset::Multiset::<Position>::empty());
    assert(e.to_multiset().filter(lies_in(ph)) =~= vstd::multiset::Multiset::<Position>::empty());
}

/// The place of a phase in the order the sample is filled.
pub open spec fn phase_rank(ph: GamePhase) -> int {
    match ph {
        GamePhase::Opening => 0,
        GamePhase::Middlegame => 1,
        GamePhase::Endgame => 2,
    }
}

/// How many positions of each phase a sample of `n` aims for: a quarter
/// openings, half middlegames, a quarter endgames.
pub open spec fn phase_target(n: int, phase: GamePhase) -> int {
    match phase {
        GamePhase::Middlegame => n / 2,
        _ => n / 4,
    }
}

/// The captures among the moves, in their order.
pub open spec fn captures_of(ms: Seq<Move>) -> Seq<Move>
    decreases ms.len(),
{
    if ms.len() == 0 {
        ms
    } else {
        let before = captures_of(ms.drop_last());
        if ms.last().capture is Some {
            before.push(ms.last())
        } else {
            before
        }
    }
}

proof fn lemma_captures_of_contained(ms: Seq<Move>)
    ensures
        forall|k: int| 0 <= k < captures_of(ms).len() ==> ms.contains(#[trigger] captures_of(ms)[k]),
    decreases ms.len(),
{
    if ms.len() > 0 {
        lemma_captures_of_contained(ms.drop_last());
        assert forall|k: int| 0 <= k < captures_of(ms).len() implies ms.contains(#[trigger] captures_of(ms)[k]) by {
            let before = captures_of(ms.drop_last());
            if k < before.len() {
                assert(ms.drop_last().contains(before[k]));
                let j = choose|j: int| 0 <= j < ms.drop_last().len() && ms.drop_last()[j] == before[k];
                assert(ms[j] == before[k]);
            } else {
                assert(ms[ms.len() - 1] == ms.last());
            }
        }
    }
}

/// The moves a draw picks from in `b`: the captures, when captures are
/// preferred, there is one, and the draw's coin came up; all legal
/// moves otherwise.
pub open spec fn offered_moves(b: Position, prefer_captures: bool, coin: bool) -> Seq<Move> {
    let caps = captures_of(legal_moves_of(b));
    if prefer_captures && caps.len() > 0 && coin {
        caps
    } else {
        legal_moves_of(b)
    }
}

/// The position after one drawn ply: the offered move at the drawn
/// index (taken modulo their number) is played; nothing changes when no
/// move is offered.
pub open spec fn playout_step(b: Position, prefer_captures: bool, draw: (bool, usize)) -> Position {
    let ms = offered_moves(b, prefer_captures, draw.0);
    if ms.len() == 0 {
        b
    } else {
        after_move(b, ms[(draw.1 as int) % (ms.len() as int)])
    }
}

/// The position reached from `b` by the drawn plies, one draw (a coin for
/// preferring a capture and an index among the offered moves) per ply;
/// once the game is over the remaining draws change nothing.
pub open spec fn spec_playout(b: Position, prefer_captures: bool, draws: Seq<(bool, usize)>) -> Position
    decreases draws.len(),
{
    if draws.len() == 0 {
        b
    } else {
        let prev = spec_playout(b, prefer_captures, draws.drop_last());
        if spec_is_game_over(prev) {
            prev
        } else {
            playout_step(prev, prefer_captures, draws.last())
        }
    }
}

/// The captures among the moves, in their order.
fn capture_moves(moves: &Vec<Move>) -> (r: Vec<Move>)
    ensures
        r@ == captures_of(moves@),
{
    let mut captures: Vec<Move> = Vec::new();
    let mut i: usize = 0;
    while i < moves.len()
        invariant
            i <= moves@.len(),
            captures@ == captures_of(moves@.take(i as int)),
        decreases moves@.len() - i,
    {
        proof {
            assert(moves@.take(i + 1).drop_last() =~= moves@.take(i as int));
            assert(moves@.take(i + 1).last() == moves@[i as int]);
        }
        if moves[i].is_capture() {
            captures.push(moves[i]);
        }
        i += 1;
    }
    proof {
        assert(moves@.take(moves@.len() as int) =~= moves@);
    }
    captures
}

/// Where a move stands among the moves: its first index.
fn index_of(moves: &Vec<Move>, m: Move) -> (r: usize)
    requires
        moves@.contains(m),
    ensures
        r < moves@.len(),
        moves@[r as int] == m,
{
    let mut i: usize = 0;
    while i < moves.len()
        invariant
            i <= moves@.len(),
            moves@.contains(m),
            forall|k: int| 0 <= k < i ==> moves@[k] != m,
        decreases moves@.len() - i,
    {
        if moves[i] == m {
            return i;
        }
        i += 1;
    }
    i
}

/// Replays a random game of standard chess from the start with the given
/// draws (`spec_playout`).
pub fn playout(draws: &Vec<(bool, usize)>, prefer_captures: bool) -> (r: Position)
    ensures
        r == spec_playout(initial_position(Variant::Standard), prefer_captures, draws@),
{
    let mut b = start_position(Variant::Standard);
    let mut k: usize = 0;
    while k < draws.len()
        invariant
            k <= draws@.len(),
            b == spec_playout(initial_position(Variant::Standard), prefer_captures, draws@.take(k as int)),
        decreases draws@.len() - k,
    {
        proof {
            assert(draws@.take(k + 1).drop_last() =~= draws@.take(k as int));
            assert(draws@.take(k + 1).last() == draws@[k as int]);
        }
        let info = analyze(&b);
        if !is_game_over(&info, Ghost(b)) {
            let captures = capture_moves(&info.moves);
            let (coin, pick) = draws[k];
            let offered = if prefer_captures && captures.len() > 0 && coin {
                captures
            } else {
                info.moves
            };
            if offered.len() > 0 {
                let m = offered[pick % offered.len()];
                proof {
                    lemma_captures_of_contained(legal_moves_of(b));
                    assert(offered@[(pick % offered.len()) as int] == m);
                    if offered@ != legal_moves_of(b) {
                        assert(captures_of(legal_moves_of(b)).contains(m));
                    }
                    assert(legal_moves_of(b).contains(m));
                }
                b = play(&b, &m);
            }
        }
        k += 1;
    }
    proof {
        assert(draws@.take(draws@.len() as int) =~= draws@);
    }
    b
}

/// The game a seeded generator plays from `b` for up to `left` more
/// plies, after the calls `calls`: it stops when the game is over;
/// otherwise, when captures are preferred and there is one, it draws
/// three chances in five to play a capture, and then picks one of the
/// offered moves.  The position reached and the calls made by then.
pub open spec fn seeded_playout(
    seed: u64,
    calls: Seq<DrawCall>,
    b: Position,
    left: nat,
    prefer_captures: bool,
) -> (Position, Seq<DrawCall>)
    decreases left,
{
    if left == 0 || spec_is_game_over(b) {
        (b, calls)
    } else {
        let ms = legal_moves_of(b);
        let caps = captures_of(ms);
        let tries = prefer_captures && caps.len() > 0;
        let coin = tries && seeded_ratio(seed, calls, 3, 5);
        let drawn = if tries {
            calls.push(DrawCall::Ratio(3, 5))
        } else {
            calls
        };
        let offered = if coin {
            caps
        } else {
            ms
        };
        let m = offered[seeded_choice(seed, drawn, offered.len())];
        seeded_playout(
            seed,
            drawn.push(DrawCall::Choice(offered.len())),
            after_move(b, m),
            (left - 1) as nat,
            prefer_captures,
        )
    }
}

/// How a game is drawn for a phase: its range of plies and whether
/// captures are preferred (in the endgame).
pub open spec fn phase_draw(ph: GamePhase) -> (i32, i32, bool) {
    match ph {
        GamePhase::Opening => (4, 14, false),
        GamePhase::Middlegame => (15, 35, false),
        GamePhase::Endgame => (36, 60, true),
    }
}

/// Filling one phase of a sample of `n`: while fewer than the phase's
/// target are kept and fewer than fifty times the target games were
/// drawn, a number of plies is drawn from the phase's range, a game of
/// that length is played from the start, and its end is kept when the
/// game is not over and the position lies in the phase.  The positions
/// kept so far and the calls made.
pub open spec fn seeded_fill(
    seed: u64,
    n: int,
    calls: Seq<DrawCall>,
    phase: GamePhase,
    count: int,
    attempts: int,
    boards: Seq<Position>,
) -> (Seq<Position>, Seq<DrawCall>)
    decreases phase_target(n, phase) * 50 - attempts,
{
    if count < phase_target(n, phase) && attempts < phase_target(n, phase) * 50 {
        let (lo, hi, prefer) = phase_draw(phase);
        let plies = seeded_in_range(seed, calls, lo, hi);
        let (b, after) = seeded_playout(
            seed,
            calls.push(DrawCall::InRange(lo, hi)),
            initial_position(Variant::Standard),
            plies as nat,
            prefer,
        );
        if !spec_is_game_over(b) && phase_of(phase_count(b)) == phase {
            seeded_fill(seed, n, after, phase, count + 1, attempts + 1, boards.push(b))
        } else {
            seeded_fill(seed, n, after, phase, count, attempts + 1, boards)
        }
    } else {
        (boards, calls)
    }
}

/// The phases in the order a sample fills them.
pub open spec fn phase_at(k: int) -> GamePhase {
    if k == 0 {
        GamePhase::Opening
    } else if k == 1 {
        GamePhase::Middlegame
    } else {
        GamePhase::Endgame
    }
}

/// The positions kept and the calls made once the first `k` phases are
/// filled.
pub open spec fn sample_stage(seed: u64, n: int, k: int) -> (Seq<Position>, Seq<DrawCall>)
    decreases k,
{
    if k <= 0 {
        (Seq::empty(), Seq::empty())
    } else {
        let (boards, calls) = sample_stage(seed, n, k - 1);
        seeded_fill(seed, n, calls, phase_at(k - 1), 0, 0, boards)
    }
}

/// The sample of `n` positions drawn from `seed`: openings, middlegames
/// and endgames filled in turn, then shuffled.
pub open spec fn spec_sample(n: int, seed: u64) -> Seq<Position> {
    let (boards, calls) = sample_stage(seed, n, 3);
    let order = seeded_shuffle(seed, calls, boards.len());
    Seq::new(boards.len(), |i: int| boards[order[i]])
}

/// Plays one random game of `plies` moves from the start, stopping early
/// when the game ends.  Endgame samples prefer captures: when one is
/// available, a capture is played three times in five.  Returns the
/// position reached with the draws made, one per ply played; fewer than
/// `plies` only when the game ended.
fn random_playout(g: &mut SeededRng, plies: i32, prefer_captures: bool) -> (r: (Position, Vec<(bool, usize)>))
    requires
        0 <= plies,
    ensures
        (r.0, final(g).calls()) == seeded_playout(
            old(g).seed(),
            old(g).calls(),
            initial_position(Variant::Standard),
            plies as nat,
            prefer_captures,
        ),
        final(g).seed() == old(g).seed(),
        r.0 == spec_playout(initial_position(Variant::Standard), prefer_captures, r.1@),
        r.1@.len() <= plies,
        r.1@.len() < plies ==> spec_is_game_over(r.0),
        r.0.variant == Variant::Standard,
{
    let mut b = start_position(Variant::Standard);
    let mut draws: Vec<(bool, usize)> = Vec::new();
    let mut ply: i32 = 0;
    let ghost target = seeded_playout(g.seed(), g.calls(), b, plies as nat, prefer_captures);
    while ply < plies
        invariant
            0 <= ply <= plies,
            g.seed() == old(g).seed(),
            target == seeded_playout(g.seed(), g.calls(), b, (plies - ply) as nat, prefer_captures),
            draws@.len() == ply,
            b == spec_playout(initial_position(Variant::Standard), prefer_captures, draws@),
            b.variant == Variant::Standard,
        ensures
            g.seed() == old(g).seed(),
            target == (b, g.calls()),
            b.variant == Variant::Standard,
            draws@.len() <= plies,
            draws@.len() < plies ==> spec_is_game_over(b),
            b == spec_playout(initial_position(Variant::Standard), prefer_captures, draws@),
        decreases plies - ply,
    {
        let info = analyze(&b);
        if info.moves.len() == 0 || is_game_over(&info, Ghost(b)) {
            break;
        }
        let captures = capture_moves(&info.moves);
        let coin = if prefer_captures && captures.len() > 0 {
            random_ratio(g, 3, 5)
        } else {
            false
        };
        let offered = if prefer_captures && captures.len() > 0 && coin {
            captures
        } else {
            info.moves
        };
        proof {
            lemma_captures_of_contained(legal_moves_of(b));
        }
        let m = choose_move(g, &offered);
        let pick = index_of(&offered, m);
        proof {
            lemma_captures_of_contained(legal_moves_of(b));
            if offered@ != legal_moves_of(b) {
                assert(captures_of(legal_moves_of(b)).contains(m));
            }
            assert(legal_moves_of(b).contains(m));
            assert((pick as int) % (offered@.len() as int) == pick as int) by (nonlinear_arith)
                requires
                    0 <= pick < offered@.len(),
            ;
            assert(draws@.push((coin, pick)).drop_last() =~= draws@);
        }
        b = play(&b, &m);
        draws.push((coin, pick));
        ply += 1;
    }
    let r = playout(&draws, prefer_captures);
    (r, draws)
}

/// The number of plies a random game is drawn to for a phase: `lo..hi`.
pub open spec fn ply_range(ph: GamePhase) -> (int, int) {
    match ph {
        GamePhase::Opening => (4, 14),
        GamePhase::Middlegame => (15, 35),
        GamePhase::Endgame => (36, 60),
    }
}

/// Whether `p` is the position a random game reaches with the draws
/// `draws`, drawn for the phase `p` lies in: as many draws as its ply
/// range allows, captures preferred for the endgame.
pub open spec fn is_playout_of(p: Position, draws: Seq<(bool, usize)>) -> bool {
    let ph = phase_of(phase_count(p));
    &&& ply_range(ph).0 <= draws.len() < ply_range(ph).1
    &&& p == spec_playout(initial_position(Variant::Standard), ph == GamePhase::Endgame, draws)
}

/// A position fit for training that a random game from the start reached.
pub open spec fn is_drawn_sample(p: Position) -> bool {
    is_sample(p) && exists|draws: Seq<(bool, usize)>| #[trigger] is_playout_of(p, draws)
}

/// Sample positions from a given seed: random games from the start,
/// kept when they end in the phase being filled and the game is not
/// over, with up to fifty attempts per position wanted; then shuffled.
/// Each position kept is the end of a random game (`is_drawn_sample`):
/// its draws number as many plies as its phase's range allows.
///
/// The sample is `spec_sample(n, seed)`, a function of `n` and the seed:
/// a run can be repeated and two measurements over it compared.
pub fn generate_stratified_positions_seeded(n: usize, seed: u64) -> (r: Vec<Position>)
    requires
        n <= usize::MAX / 50,
    ensures
        r@.len() <= n / 4 + n / 2 + n / 4,
        forall|i: int| 0 <= i < r@.len() ==> is_drawn_sample(#[trigger] r@[i]),
        forall|ph: GamePhase| #[trigger] in_phase(r@, ph) <= phase_target(n as int, ph),
        r@ == spec_sample(n as int, seed),
{
    let mut rng = SeededRng::new(seed);
    let phases = [GamePhase::Opening, GamePhase::Middlegame, GamePhase::Endgame];
    let mut boards: Vec<Position> = Vec::new();
    let ghost mut wanted: int = 0;
    proof {
        assert forall|q: GamePhase| #[trigger] in_phase(boards@, q) == 0 by {
            lemma_in_phase_empty(q);
        }
    }
    let mut pi: usize = 0;
    while pi < 3
        invariant
            pi <= 3,
            n <= usize::MAX / 50,
            phases@ == seq![GamePhase::Opening, GamePhase::Middlegame, GamePhase::Endgame],
            wanted == if pi == 0 {
                0int
            } else if pi == 1 {
                (n / 4) as int
            } else if pi == 2 {
                n / 4 + n / 2
            } else {
                n / 4 + n / 2 + n / 4
            },
            boards@.len() <= wanted,
            forall|i: int| 0 <= i < boards@.len() ==> is_drawn_sample(#[trigger] boards@[i]),
            forall|q: GamePhase| #[trigger] in_phase(boards@, q) <= if phase_rank(q) < pi {
                phase_target(n as int, q)
            } else {
                0
            },
            rng.seed() == seed,
            (boards@, rng.calls()) == sample_stage(seed, n as int, pi as int),
        decreases 3 - pi,
    {
        let phase = phases[pi];
        let target: usize = if phase == GamePhase::Middlegame {
            n / 2
        } else {
            n / 4
        };
        let max_attempts = target * 50;
        let mut count: usize = 0;
        let mut attempts: usize = 0;
        let ghost filled = seeded_fill(seed, n as int, rng.calls(), phase, 0, 0, boards@);
        proof {
            assert(phase == phase_at(pi as int));
            assert(filled == sample_stage(seed, n as int, pi + 1));
        }
        while count < target && attempts < max_attempts
            invariant
                count <= target,
                attempts <= max_attempts,
                boards@.len() <= wanted + count,
                forall|i: int| 0 <= i < boards@.len() ==> is_drawn_sample(#[trigger] boards@[i]),
                phases@ == seq![GamePhase::Opening, GamePhase::Middlegame, GamePhase::Endgame],
                phase == phases@[pi as int],
                pi < 3,
                target == phase_target(n as int, phase),
                max_attempts == target * 50,
                rng.seed() == seed,
                filled == seeded_fill(seed, n as int, rng.calls(), phase, count as int, attempts as int, boards@),
                forall|q: GamePhase| #[trigger] in_phase(boards@, q) <= if phase_rank(q) < pi {
                    phase_target(n as int, q)
                } else if q == phase {
                    count as int
                } else {
                    0
                },
            decreases max_attempts - attempts,
        {
            attempts += 1;
            let (lo, hi, prefer): (i32, i32, bool) = match phase {
                GamePhase::Opening => (4, 14, false),
                GamePhase::Middlegame => (15, 35, false),
                GamePhase::Endgame => (36, 60, true),
            };
            proof {
                assert((lo, hi, prefer) == phase_draw(phase));
            }
            let plies = random_in(&mut rng, lo, hi);
            let (b, draws) = random_playout(&mut rng, plies, prefer);
            let info = analyze(&b);
            if !is_game_over(&info, Ghost(b)) && phase_of_count(board_phase_value(&b)) == phase {
                proof {
                    assert forall|q: GamePhase| #[trigger] in_phase(boards@.push(b), q) == in_phase(boards@, q) + if q == phase {
                        1nat
                    } else {
                        0nat
                    } by {
                        lemma_in_phase_push(boards@, b, q);
                    }
                }
                proof {
                    assert(is_playout_of(b, draws@));
                }
                boards.push(b);
                count += 1;
            }
        }
        proof {
            wanted = wanted + target;
            assert((boards@, rng.calls()) == filled);
        }
        pi += 1;
    }
    let ghost before = boards@;
    shuffle_positions(&mut rng, &mut boards);
    proof {
        assert(boards@ =~= spec_sample(n as int, seed));
        before.to_multiset_ensures();
        boards@.to_multiset_ensures();
        assert forall|q: GamePhase| #[trigger] in_phase(boards@, q) <= phase_target(n as int, q) by {
            assert(in_phase(boards@, q) == in_phase(before, q));
        }
        assert forall|i: int| 0 <= i < boards@.len() implies is_drawn_sample(#[trigger] boards@[i]) by {
            let x = boards@[i];
            assert(boards@.contains(x));
            assert(boards@.to_multiset().count(x) > 0);
            assert(before.to_multiset().count(x) > 0);
            assert(before.contains(x));
        }
    }
    boards
}

/// Sample positions from a fresh random seed: the sample of some seed.
pub fn generate_stratified_positions(n: usize) -> (r: Vec<Position>)
    requires
        n <= usize::MAX / 50,
    ensures
        r@.len() <= n / 4 + n / 2 + n / 4,
        forall|i: int| 0 <= i < r@.len() ==> is_drawn_sample(#[trigger] r@[i]),
        forall|ph: GamePhase| #[trigger] in_phase(r@, ph) <= phase_target(n as int, ph),
        exists|seed: u64| r@ == #[trigger] spec_sample(n as int, seed),
{
    let seed = fresh_seed();
    let r = generate_stratified_positions_seeded(n, seed);
    assert(r@ == spec_sample(n as int, seed));
    r
}

} // verus!
