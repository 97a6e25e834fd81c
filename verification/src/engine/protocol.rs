//! Reading a UCI engine's replies: scores, best moves and the principal
//! variations of a multi-PV search.  Talking to the engine process is
//! left to the caller, which hands over each reply line split into its
//! whitespace-separated parts.

use vstd::prelude::*;

use crate::text::{contains_text, decimal_text, lemma_parse_decimal, parse_i32, spec_parse_i32, text_contains, text_eq};

verus! {

/// Score assigned to a forced mate, before the distance-to-mate
/// adjustment that makes shorter mates preferable.
pub const MATE_SCORE: i32 = 10000;

/// The characters of each part of a reply line.
pub open spec fn part_texts(parts: Seq<&str>) -> Seq<Seq<char>> {
    parts.map_values(|p: &str| p@)
}

/// A mate in `m` moves on the centipawn scale: positive when we mate,
/// and the sooner the mate the larger its magnitude.
pub open spec fn mate_score(m: int) -> int {
    if m > 0 {
        MATE_SCORE - m
    } else {
        -MATE_SCORE - m
    }
}

/// The score after reading part `i`: a `cp` part followed by a number
/// gives that number, a `mate` part followed by a number the mate
/// score; anything else keeps the score read so far.
pub open spec fn score_step(parts: Seq<Seq<char>>, i: int, prev: Option<i32>) -> Option<i32> {
    if parts[i] == "cp"@ && i + 1 < parts.len() {
        match spec_parse_i32(parts[i + 1]) {
            Some(cp) => Some(cp),
            None => prev,
        }
    } else if parts[i] == "mate"@ && i + 1 < parts.len() {
        match spec_parse_i32(parts[i + 1]) {
            Some(m) => Some(mate_score(m as int) as i32),
            None => prev,
        }
    } else {
        prev
    }
}

/// The score after reading the first `n` parts.
pub open spec fn score_upto(parts: Seq<Seq<char>>, n: int) -> Option<i32>
    decreases n,
{
    if n <= 0 {
        None
    } else {
        score_step(parts, n - 1, score_upto(parts, n - 1))
    }
}

/// The score a reply line carries: the last readable `cp` or `mate`
/// score.
pub open spec fn spec_parse_score(parts: Seq<Seq<char>>) -> Option<i32> {
    score_upto(parts, parts.len() as int)
}

/// Parse the `score cp` / `score mate` field out of a UCI `info` line.
///
/// Mate scores are folded into the centipawn scale so callers can treat
/// every score uniformly.  Returns `None` when the line carries no score.
pub fn parse_score(parts: &[&str]) -> (r: Option<i32>)
    ensures
        r == spec_parse_score(part_texts(parts@)),
{
    let ghost texts = part_texts(parts@);
    let mut score: Option<i32> = None;
    let mut i: usize = 0;
    while i < parts.len()
        invariant
            texts == part_texts(parts@),
            i <= parts@.len(),
            score == score_upto(texts, i as int),
        decreases parts@.len() - i,
    {
        assert(texts[i as int] == parts@[i as int]@);
        if text_eq(parts[i], "cp") && i + 1 < parts.len() {
            assert(texts[i + 1] == parts@[i + 1]@);
            match parse_i32(parts[i + 1]) {
                Some(cp) => {
                    score = Some(cp);
                },
                None => {},
            }
        } else if text_eq(parts[i], "mate") && i + 1 < parts.len() {
            assert(texts[i + 1] == parts@[i + 1]@);
            match parse_i32(parts[i + 1]) {
                Some(m) => {
                    score = Some(
                        if m > 0 {
                            MATE_SCORE - m
                        } else {
                            -MATE_SCORE - m
                        },
                    );
                },
                None => {},
            }
        }
        i += 1;
    }
    score
}

/// The move of a `bestmove` reply: its second part, when the line has at
/// least two parts and the first is `bestmove`.
pub fn best_move_reply(parts: &[&str]) -> (r: Option<String>)
    ensures
        match r {
            Some(m) => parts@.len() >= 2 && parts@[0]@ == "bestmove"@ && m@ == parts@[1]@,
            None => !(parts@.len() >= 2 && parts@[0]@ == "bestmove"@),
        },
{
    if parts.len() >= 2 && text_eq(parts[0], "bestmove") {
        Some(parts[1].to_owned())
    } else {
        None
    }
}

/// The index of the first `pv` part, or the number of parts when there
/// is none.
pub open spec fn pv_index(parts: Seq<Seq<char>>, k: int) -> int
    decreases parts.len() - k,
{
    if k >= parts.len() {
        parts.len() as int
    } else if parts[k] == "pv"@ {
        k
    } else {
        pv_index(parts, k + 1)
    }
}

/// The first move of a line's principal variation: the part after the
/// first `pv`, or nothing.
pub open spec fn spec_principal_move(parts: Seq<Seq<char>>) -> Seq<char> {
    let k = pv_index(parts, 0);
    if k + 1 < parts.len() {
        parts[k + 1]
    } else {
        Seq::empty()
    }
}

/// The first move of the principal variation a line reports.
pub fn principal_move(parts: &[&str]) -> (r: String)
    ensures
        r@ == spec_principal_move(part_texts(parts@)),
{
    let ghost texts = part_texts(parts@);
    let mut k: usize = 0;
    while k < parts.len() && !text_eq(parts[k], "pv")
        invariant
            texts == part_texts(parts@),
            k <= parts@.len(),
            pv_index(texts, 0) == pv_index(texts, k as int),
        decreases parts@.len() - k,
    {
        assert(texts[k as int] == parts@[k as int]@);
        k += 1;
    }
    proof {
        if k < parts@.len() {
            assert(texts[k as int] == parts@[k as int]@);
        }
    }
    if k < parts.len() && k + 1 < parts.len() {
        assert(texts[k + 1] == parts@[k + 1]@);
        parts[k + 1].to_owned()
    } else {
        String::new()
    }
}

/// Whether a reply line reports a score (contains `score cp` or
/// `score mate`).
pub fn reports_score(line: &str) -> (r: bool)
    ensures
        r == (contains_text(line@, "score cp"@) || contains_text(line@, "score mate"@)),
{
    text_contains(line, "score cp") || text_contains(line, "score mate")
}

/// What a scored line of a multi-PV search contributes: its principal
/// move with its score (zero when none can be read), or nothing when the
/// line names no move.
pub fn top_move_entry(parts: &[&str]) -> (r: Option<(String, i32)>)
    ensures
        match r {
            Some((m, cp)) => m@ == spec_principal_move(part_texts(parts@)) && m@.len() > 0
                && cp == match spec_parse_score(part_texts(parts@)) {
                Some(s) => s,
                None => 0,
            },
            None => spec_principal_move(part_texts(parts@)).len() == 0,
        },
{
    let cp = match parse_score(parts) {
        Some(s) => s,
        None => 0,
    };
    let pv = principal_move(parts);
    if pv.as_str().unicode_len() > 0 {
        Some((pv, cp))
    } else {
        None
    }
}

/// The views of `(move, score)` entries.
pub open spec fn entry_texts(es: Seq<(String, i32)>) -> Seq<(Seq<char>, i32)> {
    es.map_values(|e: (String, i32)| (e.0@, e.1))
}

/// Whether a move occurs among the entries.
pub open spec fn has_move(es: Seq<(Seq<char>, i32)>, m: Seq<char>) -> bool {
    exists|i: int| 0 <= i < es.len() && (#[trigger] es[i]).0 == m
}

/// Picks entries in order, skipping a move already picked, until `limit`
/// entries are picked.
pub open spec fn pick_distinct(es: Seq<(Seq<char>, i32)>, limit: nat) -> Seq<(Seq<char>, i32)>
    decreases es.len(),
{
    if es.len() == 0 {
        Seq::empty()
    } else {
        let out = pick_distinct(es.drop_last(), limit);
        if out.len() >= limit || has_move(out, es.last().0) {
            out
        } else {
            out.push(es.last())
        }
    }
}

/// The final `(move, score)` list of a multi-PV search: the lines are
/// read newest first, and the first `multipv` distinct moves are kept,
/// each with its newest score.
pub open spec fn spec_top_moves(es: Seq<(Seq<char>, i32)>, multipv: nat) -> Seq<(Seq<char>, i32)> {
    pick_distinct(es.reverse(), multipv)
}

/// Whether a move is among the picked entries.
fn picked(out: &Vec<(String, i32)>, m: &String) -> (r: bool)
    ensures
        r == has_move(entry_texts(out@), m@),
{
    let ghost t = entry_texts(out@);
    let mut j: usize = 0;
    while j < out.len()
        invariant
            t == entry_texts(out@),
            j <= out@.len(),
            forall|k: int| 0 <= k < j ==> t[k].0 != m@,
        decreases out@.len() - j,
    {
        if out[j].0 == *m {
            assert(t[j as int].0 == m@);
            return true;
        }
        j += 1;
    }
    false
}

/// Keeps the newest line of each of the first `multipv` distinct moves,
/// newest first.  MultiPV output repeats the lines at every depth, so the
/// last batch, read backwards, is the deepest one.
pub fn select_top_moves(moves: Vec<(String, i32)>, multipv: u32) -> (r: Vec<(String, i32)>)
    ensures
        entry_texts(r@) == spec_top_moves(entry_texts(moves@), multipv as nat),
{
    let ghost rev = entry_texts(moves@).reverse();
    let mut out: Vec<(String, i32)> = Vec::new();
    let mut i: usize = 0;
    let n = moves.len();
    while i < n
        invariant
            n == moves@.len(),
            rev == entry_texts(moves@).reverse(),
            i <= n,
            entry_texts(out@) == pick_distinct(rev.take(i as int), multipv as nat),
        decreases n - i,
    {
        let ghost prev = out@;
        let e = &moves[n - 1 - i];
        assert(rev.take(i + 1).drop_last() =~= rev.take(i as int));
        assert(rev.take(i + 1).last() == (e.0@, e.1));
        if out.len() < multipv as usize && !picked(&out, &e.0) {
            out.push((e.0.clone(), e.1));
            assert(entry_texts(out@) =~= entry_texts(prev).push((e.0@, e.1)));
        }
        i += 1;
    }
    assert(rev.take(n as int) =~= rev);
    out
}

/// Shorter mates score higher: a mate we deliver scores positive and
/// above any later mate, and being mated scores negative, being mated
/// later scoring above being mated sooner.
pub proof fn lemma_mate_scores_prefer_shorter_mates(m1: int, m2: int)
    ensures
        0 < m1 < MATE_SCORE ==> mate_score(m1) > 0,
        -MATE_SCORE < m1 < 0 ==> mate_score(m1) < 0,
        0 < m1 < m2 ==> mate_score(m1) > mate_score(m2),
        m1 < m2 < 0 ==> mate_score(m1) > mate_score(m2),
{
}

/// The score of a `score mate k` reply, `k` written in decimal.
pub open spec fn mate_reply_score(k: int) -> Option<i32> {
    spec_parse_score(seq!["score"@, "mate"@, decimal_text(k)])
}

/// A `score mate k` reply scores the mate on the centipawn scale: a
/// shorter forced win scores higher, being mated later scores higher,
/// every win scores above zero and every loss below, and a mate already
/// on the board scores `-MATE_SCORE`.
pub proof fn lemma_mate_replies_prefer_shorter_mates(a: int, b: int)
    requires
        -MATE_SCORE < a < MATE_SCORE,
        -MATE_SCORE < b < MATE_SCORE,
    ensures
        mate_reply_score(a) == Some(mate_score(a) as i32),
        0 < a < b ==> mate_reply_score(a)->0 > mate_reply_score(b)->0 > 0,
        a < b < 0 ==> 0 > mate_reply_score(a)->0 > mate_reply_score(b)->0,
        mate_reply_score(0) == Some((-MATE_SCORE) as i32),
{
    reveal_strlit("score");
    reveal_strlit("mate");
    reveal_strlit("cp");
    lemma_parse_decimal(a);
    lemma_parse_decimal(b);
    lemma_parse_decimal(0);
    lemma_mate_scores_prefer_shorter_mates(a, b);
    lemma_mate_scores_prefer_shorter_mates(b, a);
    assert("score"@.len() != "cp"@.len());
    assert("score"@.len() != "mate"@.len());
    assert("mate"@ != "cp"@);
    reveal_with_fuel(score_upto, 4);
}

/// The top-move list holds distinct moves, no more than asked for.
pub proof fn lemma_top_moves_distinct(es: Seq<(Seq<char>, i32)>, multipv: nat)
    ensures
        spec_top_moves(es, multipv).len() <= multipv,
        forall|i: int, j: int|
            0 <= i < j < spec_top_moves(es, multipv).len() ==> (#[trigger] spec_top_moves(
                es,
                multipv,
            )[i]).0 != (#[trigger] spec_top_moves(es, multipv)[j]).0,
{
    lemma_pick_distinct(es.reverse(), multipv);
}

proof fn lemma_pick_distinct(es: Seq<(Seq<char>, i32)>, limit: nat)
    ensures
        pick_distinct(es, limit).len() <= limit,
        forall|i: int, j: int|
            0 <= i < j < pick_distinct(es, limit).len() ==> (#[trigger] pick_distinct(es, limit)[i]).0
                != (#[trigger] pick_distinct(es, limit)[j]).0,
    decreases es.len(),
{
    if es.len() > 0 {
        lemma_pick_distinct(es.drop_last(), limit);
        let out = pick_distinct(es.drop_last(), limit);
        if !(out.len() >= limit || has_move(out, es.last().0)) {
            let res = out.push(es.last());
            assert forall|i: int, j: int| 0 <= i < j < res.len() implies (#[trigger] res[i]).0 != (
            #[trigger] res[j]).0 by {
                if j == res.len() - 1 {
                    if res[i].0 == res[j].0 {
                        assert(out[i].0 == es.last().0);
                        assert(has_move(out, es.last().0));
                    }
                } else {
                    assert(res[i] == out[i] && res[j] == out[j]);
                }
            }
        }
    }
}

} // verus!
