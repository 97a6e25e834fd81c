//! Alpha-beta search with a transposition table, killer moves, the
//! history heuristic, null-move pruning, late move reductions and a
//! quiescence search, driven by iterative deepening with aspiration
//! windows.

use vstd::prelude::*;
use vstd::array::spec_array_update;

use crate::board::{Color, Move, Position, Role};
use crate::variant::Variant;
use crate::engine::eval::{evaluate_variant, piece_value, spec_evaluate_variant, spec_piece_value, EVAL_LIMIT};
use crate::engine::order::{lemma_sort_desc_contains, sort_by_score_desc, sort_desc};
use crate::engine::zobrist::{
    keys_are_standard, piece_index, spec_piece_index, spec_zobrist_hash, zobrist_hash_with,
    zobrist_keys, ZobristKeys,
};
use crate::rules::{
    after_move, analyze, parse_fen, FenError, in_check, info_matches, is_game_over, legal_moves_of, null_move_of, outcome, play, spec_is_game_over,
    spec_outcome, swap_turn, GameOutcome, NodeInfo,
};

verus! {

// ── Transposition Table & Search Context ─────────────────────────────

pub const MAX_PLY: usize = 64;

/// Number of transposition-table slots, `1 << 20`.
pub const TT_SIZE: usize = 1048576;

/// A history counter above this makes every counter halve.
pub const HISTORY_LIMIT: i32 = 1_000_000;

/// Whether a transposition-table score is exact, a lower bound
/// (failed high), or an upper bound (failed low).
#[derive(Clone, Copy, Debug, PartialEq, Eq, Structural)]
pub enum TTFlag {
    Exact,
    LowerBound,
    UpperBound,
}

/// A single entry in the transposition table, storing the best
/// information discovered for one position at a given search depth.
#[derive(Clone, Copy, Debug, PartialEq, Eq, Structural)]
pub struct TTEntry {
    pub key: u64,
    pub depth: u8,
    pub score: i32,
    pub flag: TTFlag,
    pub best_move: Option<Move>,
}

/// The entry an empty slot holds.
pub open spec fn empty_entry() -> TTEntry {
    TTEntry { key: 0, depth: 0, score: 0, flag: TTFlag::Exact, best_move: None }
}

impl Default for TTEntry {
    fn default() -> (e: TTEntry)
        ensures
            e == empty_entry(),
    {
        TTEntry { key: 0, depth: 0, score: 0, flag: TTFlag::Exact, best_move: None }
    }
}

/// The slot a key occupies.
pub open spec fn tt_index(key: u64) -> int {
    (key % (TT_SIZE as u64)) as int
}

/// What probing a table for a key finds: the entry in the key's slot
/// when it was stored for that key.
pub open spec fn spec_tt_probe(tt: Seq<TTEntry>, key: u64) -> Option<TTEntry> {
    let e = tt[tt_index(key)];
    if e.key == key {
        Some(e)
    } else {
        None
    }
}

/// Mutable state threaded through the search: transposition table,
/// killer-move slots, and history heuristic counters.
pub struct SearchContext {
    pub tt: Vec<TTEntry>,
    pub killers: [[Option<Move>; 2]; MAX_PLY],
    pub history: [[i32; 64]; 12],
    pub ply: usize,
    pub allow_null: bool,
}

/// What a search reads and changes of its context: the table, the
/// killer slots of each ply and the history counters.
pub ghost struct SearchMemory {
    pub tt: Seq<TTEntry>,
    pub killers: [[Option<Move>; 2]; MAX_PLY],
    pub history: [[i32; 64]; 12],
}

/// The killer slots after `m` caused a cutoff at `ply`: it moves to the
/// first slot of the ply and the former first slot to the second, unless
/// it already is the first or the ply lies beyond the slots.
pub open spec fn killers_after(k: [[Option<Move>; 2]; MAX_PLY], ply: int, m: Move) -> [[Option<Move>; 2]; MAX_PLY] {
    if 0 <= ply < MAX_PLY && k[ply][0] != Some(m) {
        spec_array_update(k, ply, [Some(m), k[ply][0]])
    } else {
        k
    }
}

/// Whether every counter of `g` is the counter of `h` halved.
pub open spec fn is_halved(g: [[i32; 64]; 12], h: [[i32; 64]; 12]) -> bool {
    forall|p: int, s: int| 0 <= p < 12 && 0 <= s < 64 ==> #[trigger] g[p][s] == h[p][s] / 2
}

/// Every history counter halved.
pub open spec fn halved(h: [[i32; 64]; 12]) -> [[i32; 64]; 12] {
    choose|g: [[i32; 64]; 12]| is_halved(g, h)
}

/// The history counters after the move `m` of `pos` caused a cutoff at
/// `depth`: the counter of the moving piece on the target square grows
/// by `depth * depth`, and when it passes `HISTORY_LIMIT` every counter
/// is halved.  Nothing changes when no piece stands on the origin.
pub open spec fn history_after(h: [[i32; 64]; 12], pos: Position, m: Move, depth: int) -> [[i32; 64]; 12] {
    match pos.piece_at(m.from as int) {
        None => h,
        Some(pc) => {
            let pi = spec_piece_index(pc.color, pc.role);
            let bumped = h[pi][m.to as int] + depth * depth;
            let raised = spec_array_update(h, pi, spec_array_update(h[pi], m.to as int, bumped as i32));
            if bumped > HISTORY_LIMIT {
                halved(raised)
            } else {
                raised
            }
        },
    }
}

/// Whether the memory is that of a fresh context: every slot of the
/// table empty, no killer and every history counter zero.
pub open spec fn is_fresh(mem: SearchMemory) -> bool {
    &&& mem.tt.len() == TT_SIZE
    &&& forall|i: int| 0 <= i < TT_SIZE ==> #[trigger] mem.tt[i] == empty_entry()
    &&& forall|p: int, k: int| 0 <= p < MAX_PLY && 0 <= k < 2 ==> #[trigger] mem.killers[p][k] is None
    &&& forall|p: int, s: int| 0 <= p < 12 && 0 <= s < 64 ==> #[trigger] mem.history[p][s] == 0
}

/// The memory of a fresh context.
pub open spec fn fresh_memory() -> SearchMemory {
    choose|mem: SearchMemory| is_fresh(mem)
}

impl SearchContext {
    /// The table, killer slots and history counters.
    pub open spec fn memory(&self) -> SearchMemory {
        SearchMemory { tt: self.tt@, killers: self.killers, history: self.history }
    }

    /// The table has its fixed size, every history counter lies in
    /// `0..=HISTORY_LIMIT`, and the two killer slots of a ply never hold
    /// the same move.
    pub open spec fn wf(&self) -> bool {
        &&& self.tt@.len() == TT_SIZE
        &&& forall|p: int, s: int|
            0 <= p < 12 && 0 <= s < 64 ==> 0 <= #[trigger] self.history[p][s] <= HISTORY_LIMIT
        &&& forall|p: int|
            0 <= p < MAX_PLY ==> #[trigger] self.killers[p][0] == self.killers[p][1]
                ==> self.killers[p][0] is None
    }

    /// Allocate a fresh search context with an empty TT.
    pub fn new() -> (ctx: SearchContext)
        ensures
            ctx.wf(),
            ctx.ply == 0,
            ctx.allow_null,
            forall|i: int| 0 <= i < TT_SIZE ==> #[trigger] ctx.tt@[i] == empty_entry(),
            forall|p: int, k: int| 0 <= p < MAX_PLY && 0 <= k < 2 ==> #[trigger] ctx.killers[p][k] is None,
            forall|p: int, s: int| 0 <= p < 12 && 0 <= s < 64 ==> #[trigger] ctx.history[p][s] == 0,
            ctx.memory() == fresh_memory(),
    {
        let mut tt: Vec<TTEntry> = Vec::new();
        while tt.len() < TT_SIZE
            invariant
                tt@.len() <= TT_SIZE,
                forall|i: int| 0 <= i < tt@.len() ==> #[trigger] tt@[i] == empty_entry(),
            decreases TT_SIZE - tt@.len(),
        {
            tt.push(TTEntry::default());
        }
        let ctx = SearchContext {
            tt,
            killers: [[None;2];MAX_PLY],
            history: [[0;64];12],
            ply: 0,
            allow_null: true,
        };
        proof {
            assert(is_fresh(ctx.memory()));
            let f = fresh_memory();
            assert(f.tt =~= ctx.tt@);
            assert forall|p: int| 0 <= p < MAX_PLY implies f.killers[p] == ctx.killers[p] by {
                assert(f.killers[p] =~= ctx.killers[p]);
            }
            assert(f.killers =~= ctx.killers);
            assert forall|p: int| 0 <= p < 12 implies f.history[p] == ctx.history[p] by {
                assert(f.history[p] =~= ctx.history[p]);
            }
            assert(f.history =~= ctx.history);
        }
        ctx
    }

    /// Probe the TT for a matching entry.  Returns `None` when the
    /// slot is empty or holds a different position.
    pub fn tt_probe(&self, key: u64) -> (r: Option<&TTEntry>)
        requires
            self.tt@.len() == TT_SIZE,
        ensures
            r matches Some(e) ==> spec_tt_probe(self.tt@, key) == Some(*e),
            r is None ==> spec_tt_probe(self.tt@, key) is None,
    {
        let idx = (key % (TT_SIZE as u64)) as usize;
        let entry = &self.tt[idx];
        if entry.key == key {
            Some(entry)
        } else {
            None
        }
    }

    /// Store search results in the TT (always-replace policy).
    pub fn tt_store(&mut self, key: u64, depth: u8, score: i32, flag: TTFlag, best_move: Option<Move>)
        requires
            old(self).tt@.len() == TT_SIZE,
        ensures
            old(self).wf() ==> final(self).wf(),
            final(self).tt@ == old(self).tt@.update(
                tt_index(key),
                TTEntry { key, depth, score, flag, best_move },
            ),
            final(self).killers == old(self).killers,
            final(self).history == old(self).history,
            final(self).ply == old(self).ply,
            final(self).allow_null == old(self).allow_null,
    {
        let idx = (key % (TT_SIZE as u64)) as usize;
        self.tt.set(idx, TTEntry { key, depth, score, flag, best_move });
    }

    /// Record a killer move for the current ply (quiet moves that
    /// caused a beta cutoff).
    pub fn store_killer(&mut self, ply: usize, m: Move)
        ensures
            old(self).wf() ==> final(self).wf(),
            final(self).tt == old(self).tt,
            final(self).history == old(self).history,
            final(self).ply == old(self).ply,
            final(self).allow_null == old(self).allow_null,
            final(self).killers == killers_after(old(self).killers, ply as int, m),
    {
        if ply < MAX_PLY && self.killers[ply][0] != Some(m) {
            let first = self.killers[ply][0];
            self.killers[ply] = [Some(m), first];
            proof {
                let target = spec_array_update(old(self).killers, ply as int, [Some(m), first]);
                assert(self.killers[ply as int] =~= target[ply as int]);
                assert(self.killers =~= target);
            }
        }
    }

    /// Bump the history counter for a quiet move that caused a beta
    /// cutoff, aging all counters when they grow too large.
    pub fn update_history(&mut self, pos: &Position, m: &Move, depth: u8)
        requires
            old(self).wf(),
            m.from < 64,
            m.to < 64,
        ensures
            final(self).wf(),
            final(self).tt == old(self).tt,
            final(self).killers == old(self).killers,
            final(self).ply == old(self).ply,
            final(self).allow_null == old(self).allow_null,
            final(self).history == history_after(old(self).history, *pos, *m, depth as int),
    {
        if let Some(piece) = pos.get_piece(m.from) {
            let pi = piece_index(piece.color, piece.role);
            let to = m.to as usize;
            let d = depth as i32;
            assert(0 <= d * d <= 65025) by (nonlinear_arith)
                requires
                    0 <= d <= 255,
            ;
            let bumped = self.history[pi][to] + d * d;
            self.history[pi][to] = bumped;
            proof {
                let target = spec_array_update(
                    old(self).history,
                    pi as int,
                    spec_array_update(old(self).history[pi as int], to as int, bumped),
                );
                assert forall|q: int| 0 <= q < 12 implies self.history[q] == target[q] by {
                    assert(self.history[q] =~= target[q]);
                }
                assert(self.history =~= target);
            }
            if bumped > HISTORY_LIMIT {
                let ghost raised = self.history;
                let mut p: usize = 0;
                while p < 12
                    invariant
                        p <= 12,
                        forall|q: int, s: int|
                            0 <= q < 12 && 0 <= s < 64 ==> #[trigger] self.history[q][s] == if q < p {
                                raised[q][s] / 2
                            } else {
                                raised[q][s] as int
                            },
                        forall|q: int, s: int| 0 <= q < 12 && 0 <= s < 64 ==> 0 <= #[trigger] raised[q][s] <= 2 * HISTORY_LIMIT,
                        self.tt == old(self).tt,
                        self.killers == old(self).killers,
                        self.ply == old(self).ply,
                        self.allow_null == old(self).allow_null,
                    decreases 12 - p,
                {
                    let mut s: usize = 0;
                    while s < 64
                        invariant
                            p < 12,
                            s <= 64,
                            forall|q: int, t: int|
                                0 <= q < 12 && 0 <= t < 64 ==> #[trigger] self.history[q][t] == if q < p || (q == p && t < s) {
                                    raised[q][t] / 2
                                } else {
                                    raised[q][t] as int
                                },
                            forall|q: int, t: int| 0 <= q < 12 && 0 <= t < 64 ==> 0 <= #[trigger] raised[q][t] <= 2 * HISTORY_LIMIT,
                            self.tt == old(self).tt,
                            self.killers == old(self).killers,
                            self.ply == old(self).ply,
                            self.allow_null == old(self).allow_null,
                        decreases 64 - s,
                    {
                        self.history[p][s] = self.history[p][s] / 2;
                        s += 1;
                    }
                    p += 1;
                }
                proof {
                    assert(is_halved(self.history, raised));
                    let h = halved(raised);
                    assert forall|q: int| 0 <= q < 12 implies h[q] == self.history[q] by {
                        assert(h[q] =~= self.history[q]);
                    }
                    assert(h =~= self.history);
                }
            }
        }
    }
}

impl Default for SearchContext {
    /// Allocate a fresh search context with an empty TT.
    fn default() -> (ctx: SearchContext)
        ensures
            ctx.wf(),
            ctx.ply == 0,
            ctx.allow_null,
    {
        SearchContext::new()
    }
}

/// A store is seen by the next probe of the same key.
pub proof fn lemma_probe_after_store(tt: Seq<TTEntry>, key: u64, depth: u8, score: i32, flag: TTFlag, best_move: Option<Move>)
    requires
        tt.len() == TT_SIZE,
    ensures
        spec_tt_probe(tt.update(tt_index(key), TTEntry { key, depth, score, flag, best_move }), key)
            == Some(TTEntry { key, depth, score, flag, best_move }),
{
}

/// A store leaves the probe of a key that lives in another slot as it was.
pub proof fn lemma_probe_other_slot(tt: Seq<TTEntry>, key: u64, entry: TTEntry, other: u64)
    requires
        tt.len() == TT_SIZE,
        tt_index(other) != tt_index(key),
    ensures
        spec_tt_probe(tt.update(tt_index(key), entry), other) == spec_tt_probe(tt, other),
{
}

// ── Move ordering ────────────────────────────────────────────────────

/// The role of the piece a capture takes, a pawn when the target square
/// is empty (en passant).
pub open spec fn victim_role(pos: Position, m: Move) -> Role {
    match pos.piece_at(m.to as int) {
        Some(p) => p.role,
        None => Role::Pawn,
    }
}

/// The role of the moving piece as the board shows it.
pub open spec fn mover_role(pos: Position, m: Move) -> Role {
    match pos.piece_at(m.from as int) {
        Some(p) => p.role,
        None => Role::Pawn,
    }
}

/// Most valuable victim, least valuable attacker.
pub open spec fn mvv_lva(pos: Position, m: Move) -> int {
    10000 + spec_piece_value(victim_role(pos, m)) - spec_piece_value(mover_role(pos, m))
}

/// The priority of a move: the TT move, then promotions, then captures
/// by MVV-LVA, then the two killers of the ply, then the history
/// counter of the moving piece on the target square (capped below the
/// killers).
pub open spec fn spec_move_score(pos: Position, mem: SearchMemory, ply: int, tt_move: Option<Move>, m: Move) -> int {
    if tt_move == Some(m) {
        30000
    } else if m.promotion is Some {
        20000
    } else if m.capture is Some {
        mvv_lva(pos, m)
    } else if 0 <= ply < MAX_PLY && mem.killers[ply][0] == Some(m) {
        9000
    } else if 0 <= ply < MAX_PLY && mem.killers[ply][1] == Some(m) {
        8999
    } else {
        match pos.piece_at(m.from as int) {
            Some(p) => {
                let h = mem.history[spec_piece_index(p.color, p.role)][m.to as int] as int;
                if h < 8998 {
                    h
                } else {
                    8998
                }
            },
            None => 0,
        }
    }
}

fn capture_order(pos: &Position, m: &Move) -> (r: i32)
    requires
        m.from < 64,
        m.to < 64,
    ensures
        r == mvv_lva(*pos, *m),
{
    let victim = match pos.get_piece(m.to) {
        Some(p) => p.role,
        None => Role::Pawn,
    };
    let attacker = match pos.get_piece(m.from) {
        Some(p) => p.role,
        None => Role::Pawn,
    };
    10000 + piece_value(victim) - piece_value(attacker)
}

/// Assign a priority score to each legal move so the most promising
/// moves are searched first.  Ordering: TT move > promotions >
/// captures (MVV-LVA) > killers > history heuristic.
pub fn score_moves(pos: &Position, moves: &Vec<Move>, ctx: &SearchContext, tt_move: Option<Move>) -> (r: Vec<(i32, Move)>)
    requires
        ctx.wf(),
        forall|i: int| 0 <= i < moves@.len() ==> (#[trigger] moves@[i]).from < 64 && moves@[i].to < 64,
    ensures
        r@.len() == moves@.len(),
        forall|i: int|
            0 <= i < moves@.len() ==> #[trigger] r@[i] == (
                spec_move_score(*pos, ctx.memory(), ctx.ply as int, tt_move, moves@[i]) as i32,
                moves@[i],
            ),
{
    let mut out: Vec<(i32, Move)> = Vec::new();
    let mut i: usize = 0;
    while i < moves.len()
        invariant
            i <= moves@.len(),
            out@.len() == i,
            ctx.wf(),
            forall|k: int| 0 <= k < moves@.len() ==> (#[trigger] moves@[k]).from < 64 && moves@[k].to < 64,
            forall|k: int|
                0 <= k < i ==> #[trigger] out@[k] == (
                    spec_move_score(*pos, ctx.memory(), ctx.ply as int, tt_move, moves@[k]) as i32,
                    moves@[k],
                ),
        decreases moves@.len() - i,
    {
        let m = moves[i];
        let score: i32 = if tt_move == Some(m) {
            30000
        } else if m.is_promotion() {
            20000
        } else if m.is_capture() {
            capture_order(pos, &m)
        } else if ctx.ply < MAX_PLY && ctx.killers[ctx.ply][0] == Some(m) {
            9000
        } else if ctx.ply < MAX_PLY && ctx.killers[ctx.ply][1] == Some(m) {
            8999
        } else {
            match pos.get_piece(m.from) {
                Some(p) => {
                    let h = ctx.history[piece_index(p.color, p.role)][m.to as usize];
                    if h < 8998 {
                        h
                    } else {
                        8998
                    }
                },
                None => 0,
            }
        };
        out.push((score, m));
        i += 1;
    }
    out
}

// ── Quiescence ───────────────────────────────────────────────────────

/// Windows and scores of the search stay within this magnitude.
pub const SEARCH_BOUND: i32 = 1_000_000_000;

/// Quiescence plies searched at most below a leaf.  A line of captures
/// and promotions cannot be longer than the 30 captures and 16
/// promotions a game allows, so the limit is never what ends a line.
pub const QUIESCE_LIMIT: u32 = 64;

/// `v` clamped into `[lo, hi]`.
pub open spec fn clamp(v: int, lo: int, hi: int) -> int {
    if v >= hi {
        hi
    } else if v > lo {
        v
    } else {
        lo
    }
}

/// The ordering score of a tactical move: MVV-LVA for a capture, plus
/// 20000 for a promotion.
pub open spec fn tactical_score(pos: Position, m: Move) -> int {
    (if m.capture is Some {
        mvv_lva(pos, m)
    } else {
        0
    }) + (if m.promotion is Some {
        20000int
    } else {
        0int
    })
}

/// The value of the piece on a capture's target square, a pawn's when
/// the square is empty (en passant).
fn victim_value(pos: &Position, m: &Move) -> (v: i32)
    requires
        m.to < 64,
    ensures
        v == spec_piece_value(victim_role(*pos, *m)),
{
    match pos.get_piece(m.to) {
        Some(p) => piece_value(p.role),
        None => 100,
    }
}

/// The tactical moves among `ms` (captures and promotions), each with
/// its ordering score, in generation order.
pub open spec fn scored_tactical(p: Position, ms: Seq<Move>) -> Seq<(i32, Move)>
    decreases ms.len(),
{
    if ms.len() == 0 {
        Seq::empty()
    } else {
        let before = scored_tactical(p, ms.drop_last());
        let m = ms.last();
        if m.capture is Some || m.promotion is Some {
            before.push((tactical_score(p, m) as i32, m))
        } else {
            before
        }
    }
}

/// Delta pruning: a capture that is not a promotion is skipped when even
/// winning the captured piece and two pawns more would not reach `a`.
pub open spec fn delta_pruned(p: Position, m: Move, stand_pat: int, a: int) -> bool {
    m.promotion is None && m.capture is Some && stand_pat + spec_piece_value(victim_role(p, m))
        + 200 < a
}

/// The quiescence value of a position within `[alpha, beta]`: the
/// standing evaluation fails high at `beta`, otherwise it raises alpha,
/// and the tactical moves, best ordering score first, are searched with
/// the window narrowing as they improve it, cutting off at `beta`.
/// Below `budget` further plies only the standing evaluation counts.
pub open spec fn spec_quiesce(p: Position, alpha: int, beta: int, budget: nat) -> int
    decreases budget, 1int, 0int,
{
    let stand_pat = spec_evaluate_variant(p);
    if stand_pat >= beta {
        beta
    } else {
        let a = if stand_pat > alpha {
            stand_pat
        } else {
            alpha
        };
        if budget == 0 {
            a
        } else {
            quiesce_fold(
                p,
                sort_desc(scored_tactical(p, legal_moves_of(p))),
                0,
                a,
                beta,
                stand_pat,
                budget,
            )
        }
    }
}

/// The search of the moves `ms[k..]` with the window `[a, beta]`.
pub open spec fn quiesce_fold(
    p: Position,
    ms: Seq<(i32, Move)>,
    k: int,
    a: int,
    beta: int,
    stand_pat: int,
    budget: nat,
) -> int
    decreases budget, 0int, ms.len() - k,
{
    if k < 0 || k >= ms.len() || budget == 0 {
        a
    } else {
        let m = ms[k].1;
        if delta_pruned(p, m, stand_pat, a) {
            quiesce_fold(p, ms, k + 1, a, beta, stand_pat, budget)
        } else {
            let score = -spec_quiesce(after_move(p, m), -beta, -a, (budget - 1) as nat);
            if score >= beta {
                beta
            } else {
                quiesce_fold(
                    p,
                    ms,
                    k + 1,
                    if score > a {
                        score
                    } else {
                        a
                    },
                    beta,
                    stand_pat,
                    budget,
                )
            }
        }
    }
}

/// The quiescence value stays within its window `[alpha, beta]`, is
/// `beta` when the standing evaluation reaches `beta`, and is never below
/// the standing evaluation clamped into the window.
pub proof fn lemma_quiesce_window(p: Position, alpha: int, beta: int, budget: nat)
    requires
        alpha < beta,
    ensures
        alpha <= spec_quiesce(p, alpha, beta, budget) <= beta,
        spec_evaluate_variant(p) >= beta ==> spec_quiesce(p, alpha, beta, budget) == beta,
        spec_quiesce(p, alpha, beta, budget) >= clamp(spec_evaluate_variant(p), alpha, beta),
    decreases budget, 1int, 0int,
{
    let stand_pat = spec_evaluate_variant(p);
    if stand_pat < beta && budget > 0 {
        let a = if stand_pat > alpha {
            stand_pat
        } else {
            alpha
        };
        lemma_quiesce_fold_window(
            p,
            sort_desc(scored_tactical(p, legal_moves_of(p))),
            0,
            a,
            beta,
            stand_pat,
            budget,
        );
    }
}

/// The search of the remaining tactical moves stays within `[a, beta]`.
pub proof fn lemma_quiesce_fold_window(
    p: Position,
    ms: Seq<(i32, Move)>,
    k: int,
    a: int,
    beta: int,
    stand_pat: int,
    budget: nat,
)
    requires
        a < beta,
    ensures
        a <= quiesce_fold(p, ms, k, a, beta, stand_pat, budget) <= beta,
    decreases budget, 0int, ms.len() - k,
{
    if !(k < 0 || k >= ms.len() || budget == 0) {
        let m = ms[k].1;
        if delta_pruned(p, m, stand_pat, a) {
            lemma_quiesce_fold_window(p, ms, k + 1, a, beta, stand_pat, budget);
        } else {
            lemma_quiesce_window(after_move(p, m), -beta, -a, (budget - 1) as nat);
            let score = -spec_quiesce(after_move(p, m), -beta, -a, (budget - 1) as nat);
            if score < beta {
                let a2 = if score > a {
                    score
                } else {
                    a
                };
                lemma_quiesce_fold_window(p, ms, k + 1, a2, beta, stand_pat, budget);
            }
        }
    }
}

/// A finished game scores `terminal_score` whatever the depth and window,
/// and leaves the memory as it was: a checkmate against the side to move
/// scores `-MATE_VALUE` plus the distance from the root, so a mate found
/// sooner weighs more.
pub proof fn lemma_alpha_beta_terminal(
    p: Position,
    alpha: int,
    beta: int,
    depth: nat,
    ply: int,
    allow_null: bool,
    mem: SearchMemory,
)
    requires
        spec_is_game_over(p),
    ensures
        spec_alpha_beta(p, alpha, beta, depth, ply, allow_null, mem) == (terminal_score(p, ply), mem),
        crate::rules::variant_outcome_of(p) is None && crate::rules::spec_is_checkmate(p) ==> spec_alpha_beta(
            p,
            alpha,
            beta,
            depth,
            ply,
            allow_null,
            mem,
        ).0 == -MATE_VALUE + ply,
{
}

/// At depth zero an unfinished position is valued by quiescence, which
/// stays within the window.
pub proof fn lemma_alpha_beta_leaf(
    p: Position,
    alpha: int,
    beta: int,
    ply: int,
    allow_null: bool,
    mem: SearchMemory,
)
    requires
        !spec_is_game_over(p),
        alpha < beta,
    ensures
        spec_alpha_beta(p, alpha, beta, 0, ply, allow_null, mem) == (
            spec_quiesce(p, alpha, beta, QUIESCE_LIMIT as nat),
            mem,
        ),
        alpha <= spec_alpha_beta(p, alpha, beta, 0, ply, allow_null, mem).0 <= beta,
{
    lemma_quiesce_window(p, alpha, beta, QUIESCE_LIMIT as nat);
}

fn quiesce_node(pos: &Position, info: &NodeInfo, alpha: i32, beta: i32, budget: u32) -> (r: i32)
    requires
        info_matches(*info, *pos),
        alpha < beta,
    ensures
        r == spec_quiesce(*pos, alpha as int, beta as int, budget as nat),
        alpha <= r <= beta,
        r >= clamp(spec_evaluate_variant(*pos), alpha as int, beta as int),
    decreases budget,
{
    let stand_pat = evaluate_variant(pos);
    if stand_pat >= beta {
        return beta;
    }
    let mut a = alpha;
    if stand_pat > a {
        a = stand_pat;
    }
    if budget == 0 {
        return a;
    }
    let mut tactical: Vec<(i32, Move)> = Vec::new();
    let mut i: usize = 0;
    while i < info.moves.len()
        invariant
            i <= info.moves@.len(),
            info_matches(*info, *pos),
            tactical@ == scored_tactical(*pos, info.moves@.take(i as int)),
            forall|k: int| 0 <= k < tactical@.len() ==> info.moves@.contains(#[trigger] tactical@[k].1),
        decreases info.moves@.len() - i,
    {
        let m = info.moves[i];
        proof {
            assert(info.moves@.take(i + 1).drop_last() =~= info.moves@.take(i as int));
            assert(info.moves@.take(i + 1).last() == m);
            assert(info.moves@[i as int] == m);
        }
        if m.is_capture() || m.is_promotion() {
            let mut score: i32 = 0;
            if m.is_capture() {
                score = capture_order(pos, &m);
            }
            if m.is_promotion() {
                score += 20000;
            }
            tactical.push((score, m));
        }
        i += 1;
    }
    proof {
        assert(info.moves@.take(info.moves@.len() as int) =~= info.moves@);
    }
    let sorted = sort_by_score_desc(&tactical);
    proof {
        lemma_sort_desc_contains(tactical@);
    }
    let ghost target = spec_quiesce(*pos, alpha as int, beta as int, budget as nat);
    let mut k: usize = 0;
    while k < sorted.len()
        invariant
            k <= sorted@.len(),
            sorted@ == sort_desc(tactical@),
            tactical@ == scored_tactical(*pos, legal_moves_of(*pos)),
            forall|j: int| 0 <= j < sorted@.len() ==> tactical@.contains(#[trigger] sorted@[j]),
            forall|j: int| 0 <= j < tactical@.len() ==> info.moves@.contains(#[trigger] tactical@[j].1),
            info_matches(*info, *pos),
            alpha <= a < beta,
            alpha < beta,
            i32::MIN < a,
            a >= clamp(spec_evaluate_variant(*pos), alpha as int, beta as int),
            stand_pat == spec_evaluate_variant(*pos),
            -EVAL_LIMIT <= stand_pat <= EVAL_LIMIT,
            budget > 0,
            target == spec_quiesce(*pos, alpha as int, beta as int, budget as nat),
            target == quiesce_fold(*pos, sorted@, k as int, a as int, beta as int, stand_pat as int, budget as nat),
        decreases sorted@.len() - k,
    {
        let m = sorted[k].1;
        proof {
            assert(tactical@.contains(sorted@[k as int]));
            let j = choose|j: int| 0 <= j < tactical@.len() && tactical@[j] == sorted@[k as int];
            assert(info.moves@.contains(tactical@[j].1));
            let q = choose|q: int| 0 <= q < info.moves@.len() && info.moves@[q] == m;
            assert(info.moves@[q].from < 64 && info.moves@[q].to < 64);
        }
        // Delta pruning: skip captures whose best-case gain cannot reach
        // alpha (promotions are always searched).
        let pruned = if !m.is_promotion() && m.is_capture() {
            let victim_val = victim_value(pos, &m);
            stand_pat + victim_val + 200 < a
        } else {
            false
        };
        if !pruned {
            let child = play(pos, &m);
            let child_info = analyze(&child);
            let score = -quiesce_node(&child, &child_info, -beta, -a, budget - 1);
            proof {
                assert(!delta_pruned(*pos, m, stand_pat as int, a as int));
                assert(score == -spec_quiesce(
                    after_move(*pos, m),
                    -beta,
                    -a,
                    (budget - 1) as nat,
                ));
            }
            if score >= beta {
                assert(target == beta);
                return beta;
            }
            if score > a {
                a = score;
            }
        }
        k += 1;
    }
    a
}

/// Quiescence search with delta pruning: keeps searching tactical moves
/// (captures / promotions) until the position is quiet, while pruning
/// captures that cannot possibly raise alpha.  The result is the
/// quiescence value `spec_quiesce`: it stays within the window and never
/// falls below the standing evaluation clamped into it.
pub fn quiesce(pos: &Position, alpha: i32, beta: i32) -> (r: i32)
    requires
        alpha < beta,
    ensures
        r == spec_quiesce(*pos, alpha as int, beta as int, QUIESCE_LIMIT as nat),
        alpha <= r <= beta,
        r >= clamp(spec_evaluate_variant(*pos), alpha as int, beta as int),
{
    let info = analyze(pos);
    quiesce_node(pos, &info, alpha, beta, QUIESCE_LIMIT)
}

// ── Alpha-beta ───────────────────────────────────────────────────────

/// Plies the search may reach below the root.
pub const PLY_LIMIT: usize = 1024;

/// Score of a mate, before the distance adjustment that prefers faster
/// mates.
pub const MATE_VALUE: i32 = 30000;

/// Every stored score lies within `[-bound, bound]`.
pub open spec fn tt_within(tt: Seq<TTEntry>, bound: int) -> bool {
    forall|i: int| 0 <= i < tt.len() ==> -bound <= #[trigger] tt[i].score <= bound
}

proof fn lemma_tt_within_update(tt: Seq<TTEntry>, bound: int, i: int, e: TTEntry)
    requires
        tt_within(tt, bound),
        -bound <= e.score <= bound,
        0 <= i < tt.len(),
    ensures
        tt_within(tt.update(i, e), bound),
{
}

/// The score of a finished game for the side to move at `ply` plies from
/// the root: a win the sooner the better, a loss the later the better,
/// and zero for a draw.
pub open spec fn terminal_score(p: Position, ply: int) -> int {
    match spec_outcome(p) {
        Some(GameOutcome::Decisive(w)) => if w == p.side() {
            30000 - ply
        } else {
            -30000 + ply
        },
        _ => 0,
    }
}

fn terminal_value(pos: &Position, info: &NodeInfo, ply: usize) -> (r: i32)
    requires
        info_matches(*info, *pos),
        ply <= PLY_LIMIT,
    ensures
        r == terminal_score(*pos, ply as int),
{
    match outcome(pos, info) {
        Some(GameOutcome::Decisive(w)) => if w == pos.turn() {
            MATE_VALUE - ply as i32
        } else {
            -MATE_VALUE + ply as i32
        },
        _ => 0,
    }
}

/// Whether the side to move has a piece besides pawns and its king, the
/// condition under which passing the turn is tried.
pub open spec fn has_officers(p: Position) -> bool {
    p.color_bb(p.side()) & !p.pawns & !p.kings != 0
}

/// The answer a table entry gives at once for a search of `depth` plies
/// with the window `[alpha, beta]`: an exact score, a lower bound at or
/// above `beta`, or an upper bound at or below `alpha`, each only when
/// stored for at least as deep a search.
pub open spec fn tt_cutoff(probe: Option<TTEntry>, depth: int, alpha: int, beta: int) -> Option<int> {
    match probe {
        Some(e) => if e.depth >= depth {
            match e.flag {
                TTFlag::Exact => Some(e.score as int),
                TTFlag::LowerBound => if e.score >= beta {
                    Some(e.score as int)
                } else {
                    None
                },
                TTFlag::UpperBound => if e.score <= alpha {
                    Some(e.score as int)
                } else {
                    None
                },
            }
        } else {
            None
        },
        None => None,
    }
}

/// The legal moves of `p`, each with its ordering priority.
pub open spec fn scored_moves(p: Position, mem: SearchMemory, ply: int, tt_move: Option<Move>) -> Seq<(i32, Move)> {
    legal_moves_of(p).map_values(|m: Move| (spec_move_score(p, mem, ply, tt_move, m) as i32, m))
}

/// The table with the entry of a finished search stored in the key's slot.
pub open spec fn stored(mem: SearchMemory, key: u64, depth: int, score: int, flag: TTFlag, best_move: Option<Move>) -> SearchMemory {
    SearchMemory {
        tt: mem.tt.update(tt_index(key), TTEntry { key, depth: depth as u8, score: score as i32, flag, best_move }),
        ..mem
    }
}

/// Whether a move neither captures nor promotes.
pub open spec fn is_quiet(m: Move) -> bool {
    m.capture is None && m.promotion is None
}

/// The value of `p` searched `depth` plies deep with the window
/// `[alpha, beta]`, `ply` plies below the root, with passing the turn
/// allowed or not, and the memory the search leaves.
///
/// A finished game scores `terminal_score`; at depth zero the quiescence
/// value counts.  Otherwise a table entry for the position may answer at
/// once (`tt_cutoff`).  Then, when allowed, not in check, at least three
/// plies deep and with a piece besides pawns and king, the side to move
/// passes and a search two plies shallower (three from depth six) with
/// the null window at `beta` failing high returns `beta`.  Last the moves
/// are searched best priority first (`ab_fold`).
pub open spec fn spec_alpha_beta(
    p: Position,
    alpha: int,
    beta: int,
    depth: nat,
    ply: int,
    allow_null: bool,
    mem: SearchMemory,
) -> (int, SearchMemory)
    decreases depth, 2int, 0int,
{
    if spec_is_game_over(p) {
        (terminal_score(p, ply), mem)
    } else if depth == 0 {
        (spec_quiesce(p, alpha, beta, QUIESCE_LIMIT as nat), mem)
    } else {
        let hash = spec_zobrist_hash(p);
        let probe = spec_tt_probe(mem.tt, hash);
        let tt_move = match probe {
            Some(e) => e.best_move,
            None => None,
        };
        match tt_cutoff(probe, depth as int, alpha, beta) {
            Some(score) => (score, mem),
            None => {
                let tries_null = allow_null && !in_check(p) && depth >= 3 && has_officers(p)
                    && null_move_of(p) is Some;
                let r: nat = if depth >= 6 {
                    3
                } else {
                    2
                };
                let (null_score, after_null) = if tries_null {
                    let (v, m2) = spec_alpha_beta(
                        null_move_of(p)->0,
                        -beta,
                        -beta + 1,
                        (depth - 1 - r) as nat,
                        ply + 1,
                        false,
                        mem,
                    );
                    (-v, m2)
                } else {
                    (0int, mem)
                };
                if tries_null && null_score >= beta {
                    (beta, after_null)
                } else {
                    ab_fold(
                        p,
                        sort_desc(scored_moves(p, after_null, ply, tt_move)),
                        0,
                        alpha,
                        alpha,
                        beta,
                        depth,
                        ply,
                        allow_null,
                        hash,
                        -50000,
                        None,
                        after_null,
                    )
                }
            },
        }
    }
}

/// The value for the side to move in `p` of its `i`-th move `m` in
/// search order, with the window `[a, beta]`, and the memory after.
///
/// From the fifth move on, at depth three or more, a quiet move that
/// gives no check, played when not in check, is first searched one ply
/// shallower (two from depth six and the ninth move) with the null window
/// at `a`, and searched in full only when that beats `a`.
pub open spec fn ab_child(
    p: Position,
    m: Move,
    i: int,
    a: int,
    beta: int,
    depth: nat,
    ply: int,
    allow_null: bool,
    mem: SearchMemory,
) -> (int, SearchMemory)
    decreases depth, 0int, 0int,
{
    if depth == 0 {
        (a, mem)
    } else {
        let child = after_move(p, m);
        let reduced = i >= 4 && depth >= 3 && is_quiet(m) && !in_check(child) && !in_check(p);
        let reduction: nat = if depth >= 6 && i >= 8 {
            2
        } else {
            1
        };
        if reduced {
            let (v, m2) = spec_alpha_beta(child, -a - 1, -a, (depth - 1 - reduction) as nat, ply + 1, allow_null, mem);
            if -v > a {
                let (w, m3) = spec_alpha_beta(child, -beta, -a, (depth - 1) as nat, ply + 1, allow_null, m2);
                (-w, m3)
            } else {
                (-v, m2)
            }
        } else {
            let (w, m3) = spec_alpha_beta(child, -beta, -a, (depth - 1) as nat, ply + 1, allow_null, mem);
            (-w, m3)
        }
    }
}

/// The search of the moves `ms[i..]` of `p` with the window `[a, beta]`
/// (the search began at `alpha`), the best score and move so far, and the
/// memory so far, each move valued by `ab_child`.  A move reaching
/// `beta` stops the search: a quiet one becomes the ply's killer and
/// bumps its history counter, the table keeps `beta` as a lower bound
/// with the move, and `beta` is the value.  When all moves are searched
/// the table keeps the best score, an upper bound when it did not beat
/// `alpha` and exact otherwise, with the best move.
pub open spec fn ab_fold(
    p: Position,
    ms: Seq<(i32, Move)>,
    i: int,
    a: int,
    alpha: int,
    beta: int,
    depth: nat,
    ply: int,
    allow_null: bool,
    hash: u64,
    best_score: int,
    best_move: Option<Move>,
    mem: SearchMemory,
) -> (int, SearchMemory)
    decreases depth, 1int, ms.len() - i,
{
    if i < 0 || i >= ms.len() || depth == 0 {
        let flag = if best_score <= alpha {
            TTFlag::UpperBound
        } else {
            TTFlag::Exact
        };
        (best_score, stored(mem, hash, depth as int, best_score, flag, best_move))
    } else {
        let m = ms[i].1;
        let (score, searched) = ab_child(p, m, i, a, beta, depth, ply, allow_null, mem);
        let (best_score2, best_move2) = if score > best_score {
            (score, Some(m))
        } else {
            (best_score, best_move)
        };
        if score >= beta {
            let learned = if is_quiet(m) {
                SearchMemory {
                    killers: killers_after(searched.killers, ply, m),
                    history: history_after(searched.history, p, m, depth as int),
                    ..searched
                }
            } else {
                searched
            };
            (beta, stored(learned, hash, depth as int, beta, TTFlag::LowerBound, Some(m)))
        } else {
            ab_fold(
                p,
                ms,
                i + 1,
                if score > a {
                    score
                } else {
                    a
                },
                alpha,
                beta,
                depth,
                ply,
                allow_null,
                hash,
                best_score2,
                best_move2,
                searched,
            )
        }
    }
}

/// Alpha-beta search enhanced with transposition table lookups,
/// null-move pruning, and late move reductions.  Falls back to
/// quiescence search at the leaves.  The value and the memory it leaves
/// are those of `spec_alpha_beta`.
fn alpha_beta(
    pos: &Position,
    info: &NodeInfo,
    alpha: i32,
    beta: i32,
    depth: u8,
    ctx: &mut SearchContext,
    keys: &ZobristKeys,
    Ghost(bound): Ghost<int>,
) -> (r: i32)
    requires
        info_matches(*info, *pos),
        old(ctx).wf(),
        tt_within(old(ctx).tt@, bound),
        EVAL_LIMIT <= bound <= SEARCH_BOUND,
        -bound <= alpha < beta <= bound,
        old(ctx).ply + depth <= PLY_LIMIT,
        keys_are_standard(*keys),
    ensures
        final(ctx).wf(),
        tt_within(final(ctx).tt@, bound),
        final(ctx).ply == old(ctx).ply,
        final(ctx).allow_null == old(ctx).allow_null,
        -bound <= r <= bound,
        (r as int, final(ctx).memory()) == spec_alpha_beta(
            *pos,
            alpha as int,
            beta as int,
            depth as nat,
            old(ctx).ply as int,
            old(ctx).allow_null,
            old(ctx).memory(),
        ),
    decreases depth,
{
    let ghost target = spec_alpha_beta(
        *pos,
        alpha as int,
        beta as int,
        depth as nat,
        ctx.ply as int,
        ctx.allow_null,
        ctx.memory(),
    );
    // ── Terminal checks ──────────────────────────────────────────────
    if is_game_over(info, Ghost(*pos)) {
        return terminal_value(pos, info, ctx.ply);
    }
    if depth == 0 {
        return quiesce_node(pos, info, alpha, beta, QUIESCE_LIMIT);
    }

    let hash = zobrist_hash_with(keys, pos);
    let orig_alpha = alpha;
    let mut a = alpha;

    // ── TT probe ─────────────────────────────────────────────────────
    let tt_move: Option<Move>;
    match ctx.tt_probe(hash) {
        Some(entry) => {
            tt_move = entry.best_move;
            if entry.depth >= depth {
                match entry.flag {
                    TTFlag::Exact => return entry.score,
                    TTFlag::LowerBound => {
                        if entry.score >= beta {
                            return entry.score;
                        }
                    },
                    TTFlag::UpperBound => {
                        if entry.score <= a {
                            return entry.score;
                        }
                    },
                }
            }
        },
        None => {
            tt_move = None;
        },
    }

    let in_check = info.check;

    // ── Null-move pruning ────────────────────────────────────────────
    if ctx.allow_null && !in_check && depth >= 3 {
        let us = pos.turn();
        let has_pieces = (pos.by_color(us) & !pos.pawns & !pos.kings) != 0;
        if has_pieces {
            if let Some(null_pos) = swap_turn(pos) {
                let null_info = analyze(&null_pos);
                let r: u8 = if depth >= 6 {
                    3
                } else {
                    2
                };
                let prev_null = ctx.allow_null;
                ctx.allow_null = false;
                ctx.ply += 1;
                let null_score = -alpha_beta(
                    &null_pos,
                    &null_info,
                    -beta,
                    -beta + 1,
                    depth - 1 - r,
                    ctx,
                    keys,
                    Ghost(bound),
                );
                ctx.ply -= 1;
                ctx.allow_null = prev_null;
                if null_score >= beta {
                    return beta;
                }
            }
        }
    }
    let ghost after_null = ctx.memory();

    // ── Move generation & ordering ───────────────────────────────────
    if info.moves.len() == 0 {
        return if in_check {
            -MATE_VALUE + ctx.ply as i32
        } else {
            0
        };
    }

    let scored = score_moves(pos, &info.moves, ctx, tt_move);
    proof {
        assert(scored@ =~= scored_moves(*pos, after_null, ctx.ply as int, tt_move));
    }
    let sorted = sort_by_score_desc(&scored);
    proof {
        lemma_sort_desc_contains(scored@);
    }

    let mut best_score: i32 = -50000;
    let mut best_move: Option<Move> = None;
    let ply = ctx.ply;

    let mut i: usize = 0;
    while i < sorted.len()
        invariant
            i <= sorted@.len(),
            sorted@ == sort_desc(scored@),
            scored@.len() == info.moves@.len(),
            forall|j: int| 0 <= j < sorted@.len() ==> scored@.contains(#[trigger] sorted@[j]),
            forall|j: int| 0 <= j < scored@.len() ==> #[trigger] scored@[j].1 == info.moves@[j],
            info_matches(*info, *pos),
            ctx.wf(),
            tt_within(ctx.tt@, bound),
            ctx.ply == ply,
            ply == old(ctx).ply,
            ctx.allow_null == old(ctx).allow_null,
            ply + depth <= PLY_LIMIT,
            depth >= 1,
            EVAL_LIMIT <= bound <= SEARCH_BOUND,
            -bound <= alpha < beta <= bound,
            orig_alpha == alpha,
            alpha <= a < beta,
            -bound <= best_score <= bound,
            keys_are_standard(*keys),
            !spec_is_game_over(*pos),
            in_check == info.check,
            hash == spec_zobrist_hash(*pos),
            target == spec_alpha_beta(
                *pos,
                alpha as int,
                beta as int,
                depth as nat,
                old(ctx).ply as int,
                old(ctx).allow_null,
                old(ctx).memory(),
            ),
            target == ab_fold(
                *pos,
                sorted@,
                i as int,
                a as int,
                alpha as int,
                beta as int,
                depth as nat,
                ply as int,
                ctx.allow_null,
                hash,
                best_score as int,
                best_move,
                ctx.memory(),
            ),
        decreases sorted@.len() - i,
    {
        let m = sorted[i].1;
        let ghost mem_i = ctx.memory();
        proof {
            assert(scored@.contains(sorted@[i as int]));
            let j = choose|j: int| 0 <= j < scored@.len() && scored@[j] == sorted@[i as int];
            assert(info.moves@[j] == m);
            assert(info.moves@[j].from < 64 && info.moves@[j].to < 64);
            assert(legal_moves_of(*pos).contains(m));
        }
        let child = play(pos, &m);
        let child_info = analyze(&child);
        let gives_check = child_info.check;

        // ── Late Move Reductions (LMR) ──────────────────────────────
        let score: i32 = if i >= 4 && depth >= 3 && !m.is_capture() && !m.is_promotion()
            && !gives_check && !in_check {
            let reduction: u8 = if depth >= 6 && i >= 8 {
                2
            } else {
                1
            };
            let reduced_depth = depth - 1 - reduction;
            ctx.ply += 1;
            let lmr_score = -alpha_beta(
                &child,
                &child_info,
                -a - 1,
                -a,
                reduced_depth,
                ctx,
                keys,
                Ghost(bound),
            );
            ctx.ply -= 1;

            if lmr_score > a {
                // Re-search at full depth to verify.
                ctx.ply += 1;
                let full = -alpha_beta(&child, &child_info, -beta, -a, depth - 1, ctx, keys, Ghost(bound));
                ctx.ply -= 1;
                full
            } else {
                lmr_score
            }
        } else {
            ctx.ply += 1;
            let full = -alpha_beta(&child, &child_info, -beta, -a, depth - 1, ctx, keys, Ghost(bound));
            ctx.ply -= 1;
            full
        };
        proof {
            assert((score as int, ctx.memory()) == ab_child(
                *pos,
                m,
                i as int,
                a as int,
                beta as int,
                depth as nat,
                ply as int,
                ctx.allow_null,
                mem_i,
            ));
        }

        if score > best_score {
            best_score = score;
            best_move = Some(m);
        }
        if score >= beta {
            if !m.is_capture() && !m.is_promotion() {
                ctx.store_killer(ply, m);
                ctx.update_history(pos, &m, depth);
            }
            proof {
                lemma_tt_within_update(
                    ctx.tt@,
                    bound,
                    tt_index(hash),
                    TTEntry { key: hash, depth, score: beta, flag: TTFlag::LowerBound, best_move: Some(m) },
                );
            }
            ctx.tt_store(hash, depth, beta, TTFlag::LowerBound, Some(m));
            return beta;
        }
        if score > a {
            a = score;
        }
        i += 1;
    }

    let flag = if best_score <= orig_alpha {
        TTFlag::UpperBound
    } else {
        TTFlag::Exact
    };
    proof {
        lemma_tt_within_update(
            ctx.tt@,
            bound,
            tt_index(hash),
            TTEntry { key: hash, depth, score: best_score, flag, best_move },
        );
    }
    ctx.tt_store(hash, depth, best_score, flag, best_move);
    best_score
}

// ── Root searches ────────────────────────────────────────────────────

/// Half-width of the aspiration window around the previous iteration's
/// score.
pub const ASPIRATION_WINDOW: i32 = 25;

/// Whether `s` is the UCI notation of one of the legal moves.
pub open spec fn is_legal_uci(p: Position, s: Seq<char>) -> bool {
    exists|i: int| 0 <= i < legal_moves_of(p).len() && s == (#[trigger] legal_moves_of(p)[i]).uci()
}

/// One iteration of the root search at depth `d` from the memory `mem`:
/// the full window at depth one; deeper, the window of
/// `ASPIRATION_WINDOW` on each side of the previous score, searched again
/// with the full window when the value falls on or outside it.
pub open spec fn root_search(p: Position, d: nat, prev: int, mem: SearchMemory) -> (int, SearchMemory) {
    if d <= 1 {
        spec_alpha_beta(p, -50000, 50000, d, 0, true, mem)
    } else {
        let lo = prev - ASPIRATION_WINDOW;
        let hi = prev + ASPIRATION_WINDOW;
        let (s, m1) = spec_alpha_beta(p, lo, hi, d, 0, true, mem);
        if s <= lo || s >= hi {
            spec_alpha_beta(p, -50000, 50000, d, 0, true, m1)
        } else {
            (s, m1)
        }
    }
}

/// The move the table holds for the root `p`, when it is one of its
/// legal moves.
pub open spec fn table_move(p: Position, mem: SearchMemory) -> Option<Move> {
    match spec_tt_probe(mem.tt, spec_zobrist_hash(p)) {
        Some(e) => match e.best_move {
            Some(m) => if legal_moves_of(p).contains(m) {
                Some(m)
            } else {
                None
            },
            None => None,
        },
        None => None,
    }
}

/// Iterative deepening from depth `d` to `depth`: each iteration searches
/// the root (`root_search`) and takes the table's move for the root when
/// it holds a legal one, keeping the earlier choice otherwise.
pub open spec fn deepening(p: Position, d: nat, depth: nat, prev: int, best: Option<Move>, mem: SearchMemory) -> Option<Move>
    decreases depth + 1 - d,
{
    if d == 0 || d > depth {
        best
    } else {
        let (score, after) = root_search(p, d, prev, mem);
        let chosen = match table_move(p, after) {
            Some(m) => Some(m),
            None => best,
        };
        deepening(p, d + 1, depth, score, chosen, after)
    }
}

/// The move the search chooses at `depth`: the last table move that
/// iterative deepening from a fresh memory found, else the first legal
/// move.
pub open spec fn spec_best_move(p: Position, depth: nat) -> Move {
    match deepening(p, 1, depth, 0, None, fresh_memory()) {
        Some(m) => m,
        None => legal_moves_of(p)[0],
    }
}

/// Whether a move is among the node's moves.
fn contains_move(moves: &Vec<Move>, m: Move) -> (r: bool)
    ensures
        r == moves@.contains(m),
{
    let mut i: usize = 0;
    while i < moves.len()
        invariant
            i <= moves@.len(),
            forall|k: int| 0 <= k < i ==> moves@[k] != m,
        decreases moves@.len() - i,
    {
        if moves[i] == m {
            return true;
        }
        i += 1;
    }
    false
}

/// Core iterative-deepening search with aspiration windows.  The
/// transposition table persists across iterations so each deeper
/// search benefits from earlier results.
///
/// Returns `None` exactly when there is no legal move, and otherwise
/// `spec_best_move` in UCI notation: the root's best move from the table
/// when the table holds one of the root's legal moves, else the first
/// legal move.
pub fn find_best_reply_impl(pos: &Position, depth: u8) -> (r: Option<String>)
    ensures
        r is None <==> legal_moves_of(*pos).len() == 0,
        r matches Some(s) ==> s@ == spec_best_move(*pos, depth as nat).uci(),
        r matches Some(s) ==> is_legal_uci(*pos, s@),
{
    let info = analyze(pos);
    if info.moves.len() == 0 {
        return None;
    }

    let keys = zobrist_keys();
    let mut ctx = SearchContext::new();
    let mut best_move: Option<Move> = None;
    let mut prev_score: i32 = 0;
    let ghost mut bound: int = EVAL_LIMIT as int;
    let ghost target = deepening(*pos, 1, depth as nat, 0, None, ctx.memory());

    let mut d: u16 = 1;
    while d <= depth as u16
        invariant
            1 <= d,
            d <= depth + 1,
            depth <= 255,
            bound == EVAL_LIMIT + 25 * (d - 1),
            info_matches(info, *pos),
            info.moves@.len() > 0,
            ctx.wf(),
            ctx.ply == 0,
            tt_within(ctx.tt@, bound),
            -bound <= prev_score <= bound,
            keys_are_standard(keys),
            best_move matches Some(m) ==> info.moves@.contains(m),
            ctx.allow_null,
            target == deepening(*pos, d as nat, depth as nat, prev_score as int, best_move, ctx.memory()),
        decreases depth + 1 - d,
    {
        proof {
            bound = bound + 25;
        }
        // Aspiration windows: narrow search around the previous score
        // for d >= 2, falling back to a full window on fail.
        let du = d as u8;
        let score: i32 = if d <= 1 {
            alpha_beta(pos, &info, -50000, 50000, du, &mut ctx, &keys, Ghost(bound))
        } else {
            let a = prev_score - ASPIRATION_WINDOW;
            let b = prev_score + ASPIRATION_WINDOW;
            let s = alpha_beta(pos, &info, a, b, du, &mut ctx, &keys, Ghost(bound));
            if s <= a || s >= b {
                // Window failed -- re-search with full bounds.
                alpha_beta(pos, &info, -50000, 50000, du, &mut ctx, &keys, Ghost(bound))
            } else {
                s
            }
        };
        prev_score = score;

        // Retrieve the best move for the root position from the TT.
        let hash = zobrist_hash_with(&keys, pos);
        if let Some(entry) = ctx.tt_probe(hash) {
            if let Some(m) = entry.best_move {
                if contains_move(&info.moves, m) {
                    best_move = Some(m);
                }
            }
        }
        d += 1;
    }

    // Fallback: the first legal move if the table held none.
    let chosen = match best_move {
        Some(m) => m,
        None => info.moves[0],
    };
    proof {
        assert(info.moves@.contains(chosen));
        let i = choose|i: int| 0 <= i < info.moves@.len() && info.moves@[i] == chosen;
        assert(info.moves@[i].from < 64 && info.moves@[i].to < 64);
        assert(legal_moves_of(*pos)[i] == chosen);
    }
    Some(chosen.to_uci())
}

/// Why a FEN handed to a search was refused.
#[derive(Clone, Copy, Debug, PartialEq, Eq, Structural)]
pub enum SearchError {
    /// The text is not FEN.
    InvalidFen,
    /// The FEN describes an impossible position.
    InvalidPosition,
}

/// Reads a standard-chess FEN for a search.
fn read_fen(fen: &str) -> (r: Result<Position, SearchError>)
    ensures
        match crate::rules::fen_position(Variant::Standard, fen@) {
            Ok(p) => r == Ok::<Position, SearchError>(p),
            Err(FenError::Syntax) => r == Err::<Position, SearchError>(SearchError::InvalidFen),
            Err(FenError::Position) => r == Err::<Position, SearchError>(SearchError::InvalidPosition),
        },
{
    match parse_fen(Variant::Standard, fen) {
        Ok(p) => Ok(p),
        Err(FenError::Syntax) => Err(SearchError::InvalidFen),
        Err(FenError::Position) => Err(SearchError::InvalidPosition),
    }
}

/// Find the best reply for the given FEN string at the given depth.
pub fn find_best_reply(fen: &str, depth: u8) -> (r: Result<Option<String>, SearchError>)
    ensures
        match crate::rules::fen_position(Variant::Standard, fen@) {
            Ok(p) => r matches Ok(best) && (best is None <==> legal_moves_of(p).len() == 0) && (
            best matches Some(s) ==> s@ == spec_best_move(p, depth as nat).uci() && is_legal_uci(p, s@)),
            Err(FenError::Syntax) => r == Err::<Option<String>, SearchError>(SearchError::InvalidFen),
            Err(FenError::Position) => r == Err::<Option<String>, SearchError>(
                SearchError::InvalidPosition,
            ),
        },
{
    let pos = read_fen(fen)?;
    Ok(find_best_reply_impl(&pos, depth))
}

/// The largest swing over `base` among the moves `ms[i..]` of `p` and
/// `max_swing`: each capture or checking move is searched from the
/// memory so far one ply shallower (not below zero), and its value for
/// the side to move, less `base`, is its swing.
pub open spec fn swing_fold(p: Position, ms: Seq<Move>, i: int, depth: nat, base: int, max_swing: int, mem: SearchMemory) -> int
    decreases ms.len() - i,
{
    if i < 0 || i >= ms.len() {
        max_swing
    } else {
        let m = ms[i];
        let child = after_move(p, m);
        if m.capture is Some || in_check(child) {
            let child_depth: nat = if depth > 0 {
                (depth - 1) as nat
            } else {
                0
            };
            let (v, after) = spec_alpha_beta(child, -50000, 50000, child_depth, 0, true, mem);
            let swing = -v - base;
            swing_fold(p, ms, i + 1, depth, base, if swing > max_swing {
                swing
            } else {
                max_swing
            }, after)
        } else {
            swing_fold(p, ms, i + 1, depth, base, max_swing, mem)
        }
    }
}

/// The forcing swing of `p` at `depth`: the position is searched with
/// the full window from a fresh memory, and the largest swing of its
/// captures and checks over that value is taken, zero when none gains.
pub open spec fn spec_forcing_swing(p: Position, depth: nat) -> int {
    let (base, after) = spec_alpha_beta(p, -50000, 50000, depth, 0, true, fresh_memory());
    swing_fold(p, legal_moves_of(p), 0, depth, base, 0, after)
}

/// The value a search of depth zero gives a position from the root: its
/// result when the game is over, its quiescence value otherwise.
pub open spec fn leaf_value(p: Position) -> int {
    if spec_is_game_over(p) {
        terminal_score(p, 0)
    } else {
        spec_quiesce(p, -50000, 50000, QUIESCE_LIMIT as nat)
    }
}

/// Whether a move forces: it captures or gives check.
pub open spec fn is_forcing(p: Position, m: Move) -> bool {
    m.capture is Some || in_check(after_move(p, m))
}

/// A search of depth zero values a position by `leaf_value`, whatever
/// the memory.
proof fn lemma_depth_zero_value(p: Position, mem: SearchMemory)
    ensures
        spec_alpha_beta(p, -50000, 50000, 0, 0, true, mem).0 == leaf_value(p),
{
    if spec_is_game_over(p) {
        lemma_alpha_beta_terminal(p, -50000, 50000, 0, 0, true, mem);
    } else {
        lemma_alpha_beta_leaf(p, -50000, 50000, 0, true, mem);
    }
}

proof fn lemma_swing_fold_depth_zero(
    p: Position,
    ms: Seq<Move>,
    i: int,
    base: int,
    max_swing: int,
    mem: SearchMemory,
)
    requires
        0 <= i <= ms.len(),
    ensures
        swing_fold(p, ms, i, 0, base, max_swing, mem) >= max_swing,
        forall|j: int|
            i <= j < ms.len() && #[trigger] is_forcing(p, ms[j]) ==> swing_fold(p, ms, i, 0, base, max_swing, mem)
                >= -leaf_value(after_move(p, ms[j])) - base,
        swing_fold(p, ms, i, 0, base, max_swing, mem) == max_swing || exists|j: int|
            i <= j < ms.len() && #[trigger] is_forcing(p, ms[j]) && swing_fold(p, ms, i, 0, base, max_swing, mem)
                == -leaf_value(after_move(p, ms[j])) - base,
    decreases ms.len() - i,
{
    if i < ms.len() {
        let m = ms[i];
        let child = after_move(p, m);
        if m.capture is Some || in_check(child) {
            lemma_depth_zero_value(child, mem);
            let (v, after) = spec_alpha_beta(child, -50000, 50000, 0, 0, true, mem);
            let swing = -v - base;
            let next_max = if swing > max_swing {
                swing
            } else {
                max_swing
            };
            lemma_swing_fold_depth_zero(p, ms, i + 1, base, next_max, after);
            assert(is_forcing(p, ms[i]));
        } else {
            lemma_swing_fold_depth_zero(p, ms, i + 1, base, max_swing, mem);
            assert(!is_forcing(p, ms[i]));
        }
    }
}

/// At depth zero the forcing swing is the largest gain any forcing move
/// (a capture or a check, quiet checks included) makes over the
/// position's value, both valued by `leaf_value`, and zero when none
/// gains: it is at least every forcing move's swing, never negative, and
/// when positive it is the swing of one of the forcing moves.
pub proof fn lemma_forcing_swing_at_depth_zero(p: Position)
    ensures
        spec_forcing_swing(p, 0) >= 0,
        forall|m: Move|
            #[trigger] legal_moves_of(p).contains(m) && is_forcing(p, m) ==> spec_forcing_swing(p, 0)
                >= -leaf_value(after_move(p, m)) - leaf_value(p),
        spec_forcing_swing(p, 0) > 0 ==> exists|m: Move|
            #[trigger] legal_moves_of(p).contains(m) && is_forcing(p, m) && spec_forcing_swing(p, 0)
                == -leaf_value(after_move(p, m)) - leaf_value(p),
{
    let ms = legal_moves_of(p);
    let mem = fresh_memory();
    lemma_depth_zero_value(p, mem);
    let (base, after) = spec_alpha_beta(p, -50000, 50000, 0, 0, true, mem);
    lemma_swing_fold_depth_zero(p, ms, 0, base, 0, after);
    assert forall|m: Move|
        #[trigger] legal_moves_of(p).contains(m) && is_forcing(p, m) implies spec_forcing_swing(p, 0)
            >= -leaf_value(after_move(p, m)) - leaf_value(p) by {
        let j = choose|j: int| 0 <= j < ms.len() && ms[j] == m;
        assert(is_forcing(p, ms[j]));
    }
    if spec_forcing_swing(p, 0) > 0 {
        let j = choose|j: int|
            0 <= j < ms.len() && #[trigger] is_forcing(p, ms[j]) && swing_fold(p, ms, 0, 0, base, 0, after)
                == -leaf_value(after_move(p, ms[j])) - base;
        assert(legal_moves_of(p).contains(ms[j]));
    }
}

/// The largest evaluation swing a forcing move (a capture or a check)
/// obtains over the searched value of the position, in centipawns, and
/// never below zero.
pub fn forcing_swing(pos: &Position, depth: u8) -> (r: i32)
    ensures
        r == spec_forcing_swing(*pos, depth as nat),
        0 <= r <= 2 * EVAL_LIMIT,
{
    let keys = zobrist_keys();
    let mut ctx = SearchContext::new();
    let info = analyze(pos);
    let ghost bound = EVAL_LIMIT as int;
    let ghost target = spec_forcing_swing(*pos, depth as nat);
    let base_eval = alpha_beta(pos, &info, -50000, 50000, depth, &mut ctx, &keys, Ghost(bound));

    let mut max_swing: i32 = 0;
    let mut i: usize = 0;
    while i < info.moves.len()
        invariant
            i <= info.moves@.len(),
            info_matches(info, *pos),
            ctx.wf(),
            ctx.ply == 0,
            tt_within(ctx.tt@, bound),
            bound == EVAL_LIMIT,
            -bound <= base_eval <= bound,
            0 <= max_swing <= 2 * EVAL_LIMIT,
            keys_are_standard(keys),
            ctx.allow_null,
            target == swing_fold(*pos, info.moves@, i as int, depth as nat, base_eval as int, max_swing as int, ctx.memory()),
        decreases info.moves@.len() - i,
    {
        let m = info.moves[i];
        proof {
            assert(legal_moves_of(*pos)[i as int] == m);
        }
        let is_capture = m.is_capture();
        let child = play(pos, &m);
        let child_info = analyze(&child);
        let gives_check = child_info.check;
        if is_capture || gives_check {
            let child_depth: u8 = if depth > 0 {
                depth - 1
            } else {
                0
            };
            let ev_after = alpha_beta(&child, &child_info, -50000, 50000, child_depth, &mut ctx, &keys, Ghost(bound));
            let score_for_us = -ev_after;
            let swing = score_for_us - base_eval;
            if swing > max_swing {
                max_swing = swing;
            }
        }
        i += 1;
    }
    max_swing
}

} // verus!
