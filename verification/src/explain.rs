//! The text side of explanations: where the phase feature sits in the
//! model's feature list, and the human-readable label of a feature.

use vstd::prelude::*;

use crate::board::push_char;
use crate::text::{all_ascii, chars_of, fields, lemma_fields_ascii, split_fields, text_eq, texts};

verus! {

// ── The phase feature ────────────────────────────────────────────────

/// The position of the first feature named `phase`, or `-1` when there
/// is none.
pub open spec fn spec_phase_index(names: Seq<Seq<char>>) -> int
    decreases names.len(),
{
    if names.len() == 0 {
        -1
    } else {
        let before = spec_phase_index(names.drop_last());
        if before >= 0 {
            before
        } else if names.last() == "phase"@ {
            names.len() - 1
        } else {
            -1
        }
    }
}

/// The views of a list of names.
pub open spec fn name_texts(names: Seq<String>) -> Seq<Seq<char>> {
    names.map_values(|n: String| n@)
}

/// Where the `phase` feature sits in a feature list, flagged with `-1`
/// when absent rather than defaulting to the first feature.
pub fn phase_feature_index(names: &Vec<String>) -> (r: i32)
    requires
        names@.len() <= i32::MAX,
    ensures
        r == spec_phase_index(name_texts(names@)),
{
    let ghost ns = name_texts(names@);
    let mut i: usize = 0;
    while i < names.len()
        invariant
            ns == name_texts(names@),
            names@.len() <= i32::MAX,
            i <= names@.len(),
            spec_phase_index(ns.take(i as int)) == -1,
        decreases names@.len() - i,
    {
        assert(ns.take(i + 1).drop_last() =~= ns.take(i as int));
        if text_eq(names[i].as_str(), "phase") {
            proof {
                lemma_phase_index_found(ns, i as int);
            }
            return i as i32;
        }
        i += 1;
    }
    assert(ns.take(ns.len() as int) =~= ns);
    -1
}

/// Once the first `phase` is found, later names do not move it.
proof fn lemma_phase_index_found(ns: Seq<Seq<char>>, i: int)
    requires
        0 <= i < ns.len(),
        spec_phase_index(ns.take(i)) == -1,
        ns[i] == "phase"@,
    ensures
        spec_phase_index(ns) == i,
    decreases ns.len(),
{
    if ns.len() == i + 1 {
        assert(ns.drop_last() =~= ns.take(i));
    } else {
        assert(ns.drop_last().take(i) =~= ns.take(i));
        lemma_phase_index_found(ns.drop_last(), i);
    }
}

// ── Replacing text ───────────────────────────────────────────────────

/// `str::replace` for a non-empty pattern: every occurrence, scanning
/// left to right without overlap, replaced.
pub open spec fn replace_all(s: Seq<char>, pat: Seq<char>, rep: Seq<char>) -> Seq<char>
    decreases s.len(),
{
    if s.len() == 0 || pat.len() == 0 {
        s
    } else if pat.len() <= s.len() && s.take(pat.len() as int) == pat {
        rep + replace_all(s.skip(pat.len() as int), pat, rep)
    } else {
        seq![s[0]] + replace_all(s.skip(1), pat, rep)
    }
}

/// Whether `pat` occurs in `v` at `i`.
fn occurs_in(v: &Vec<char>, i: usize, pat: &Vec<char>) -> (r: bool)
    requires
        i <= v@.len(),
    ensures
        r == (pat@.len() <= v@.len() - i && v@.subrange(i as int, i + pat@.len()) == pat@),
{
    if pat.len() > v.len() - i {
        return false;
    }
    let mut j: usize = 0;
    while j < pat.len()
        invariant
            i <= v@.len(),
            v@.len() <= usize::MAX,
            pat@.len() <= v@.len() - i,
            j <= pat@.len(),
            forall|k: int| 0 <= k < j ==> v@[i + k] == pat@[k],
        decreases pat@.len() - j,
    {
        if v[i + j] != pat[j] {
            assert(v@.subrange(i as int, i + pat@.len())[j as int] != pat@[j as int]);
            return false;
        }
        j += 1;
    }
    assert(v@.subrange(i as int, i + pat@.len()) =~= pat@);
    true
}

/// Replaces every occurrence of a non-empty pattern.
pub fn replace_text(s: &str, pat: &str, rep: &str) -> (r: String)
    ensures
        r@ == replace_all(s@, pat@, rep@),
{
    let v = chars_of(s);
    let p = chars_of(pat);
    if p.len() == 0 {
        return s.to_owned();
    }
    let mut out = String::new();
    let mut i: usize = 0;
    assert(v@.skip(0) =~= s@);
    assert(out@ + replace_all(v@.skip(0), p@, rep@) =~= replace_all(s@, pat@, rep@));
    while i < v.len()
        invariant
            v@ == s@,
            p@ == pat@,
            p@.len() > 0,
            i <= v@.len(),
            out@ + replace_all(v@.skip(i as int), p@, rep@) == replace_all(s@, pat@, rep@),
        decreases v@.len() - i,
    {
        let ghost rest = v@.skip(i as int);
        if occurs_in(&v, i, &p) {
            assert(rest.take(p@.len() as int) =~= v@.subrange(i as int, i + p@.len()));
            assert(rest.skip(p@.len() as int) =~= v@.skip(i + p@.len()));
            let ghost before = out@;
            out.append(rep);
            assert(out@ + replace_all(v@.skip(i + p@.len()), p@, rep@) =~= before
                + replace_all(rest, p@, rep@));
            i += p.len();
        } else {
            assert(!(p@.len() <= rest.len() && rest.take(p@.len() as int) == p@)) by {
                if p@.len() <= rest.len() {
                    assert(rest.take(p@.len() as int) =~= v@.subrange(i as int, i + p@.len()));
                }
            }
            assert(rest.skip(1) =~= v@.skip(i + 1));
            assert(rest[0] == v@[i as int]);
            let ghost before = out@;
            push_char(&mut out, v[i]);
            assert(out@ + replace_all(v@.skip(i + 1), p@, rep@) =~= before + replace_all(
                rest,
                p@,
                rep@,
            ));
            i += 1;
        }
    }
    assert(v@.skip(i as int).len() == 0);
    assert(out@ + replace_all(v@.skip(i as int), p@, rep@) =~= out@);
    out
}

// ── Feature labels ───────────────────────────────────────────────────

/// A character in upper case under Unicode's case mapping, which
/// `char::to_uppercase` computes; it may be several characters.
pub uninterp spec fn uppercase_of(c: char) -> Seq<char>;

/// `char::to_uppercase`, collected into a string.  For an ASCII letter
/// that is the capital letter 32 code points below it; any other ASCII
/// character stays as it is.
#[verifier::external_body]
fn char_uppercase(c: char) -> (r: String)
    ensures
        r@ == uppercase_of(c),
        'a' <= c <= 'z' ==> r@ == seq![((c as int) - 32) as char],
        (c as u32) < 128 && !('a' <= c <= 'z') ==> r@ == seq![c],
{
    c.to_uppercase().collect::<String>()
}

/// A word with its first character in upper case.
pub open spec fn capitalized(w: Seq<char>) -> Seq<char> {
    if w.len() == 0 {
        w
    } else {
        uppercase_of(w[0]) + w.skip(1)
    }
}

/// Words joined by single spaces.
pub open spec fn joined_words(ws: Seq<Seq<char>>) -> Seq<char>
    decreases ws.len(),
{
    if ws.len() == 0 {
        Seq::empty()
    } else if ws.len() == 1 {
        ws[0]
    } else {
        joined_words(ws.drop_last()) + seq![' '] + ws.last()
    }
}

/// A snake_case name made readable: underscores become spaces and each
/// word starts in upper case.
pub open spec fn title_case(name: Seq<char>) -> Seq<char> {
    let ws = fields(name.map_values(|c: char| if c == '_' { ' ' } else { c }));
    joined_words(ws.map_values(|w: Seq<char>| capitalized(w)))
}

/// A character in upper case as ASCII has it: `a`..`z` become `A`..`Z`,
/// every other character is kept.
pub open spec fn ascii_upper(c: char) -> Seq<char> {
    if 'a' <= c <= 'z' {
        seq![((c as int) - 32) as char]
    } else {
        seq![c]
    }
}

/// A word with its first character in ASCII upper case.
pub open spec fn ascii_capitalized(w: Seq<char>) -> Seq<char> {
    if w.len() == 0 {
        w
    } else {
        ascii_upper(w[0]) + w.skip(1)
    }
}

/// `title_case` for an ASCII name: underscores become spaces and each
/// word starts with its first letter in ASCII upper case.
pub open spec fn ascii_title_case(name: Seq<char>) -> Seq<char> {
    let ws = fields(name.map_values(|c: char| if c == '_' { ' ' } else { c }));
    joined_words(ws.map_values(|w: Seq<char>| ascii_capitalized(w)))
}

/// A feature's label: its explanation template without the score
/// placeholder and without bold markup, or the name in title case when
/// there is no template.
pub open spec fn spec_feature_label(template: Option<Seq<char>>, name: Seq<char>) -> Seq<char> {
    match template {
        Some(t) => replace_all(
            replace_all(replace_all(t, " ({:+.0} cp)"@, Seq::empty()), " ({:+.1} cp)"@, Seq::empty()),
            "**"@,
            Seq::empty(),
        ),
        None => title_case(name),
    }
}

/// The readable label of a feature, from its explanation template if it
/// has one.
pub fn feature_label(template: Option<&str>, name: &str) -> (r: String)
    ensures
        r@ == spec_feature_label(
            match template {
                Some(t) => Some(t@),
                None => None,
            },
            name@,
        ),
        template is None && all_ascii(name@) ==> r@ == ascii_title_case(name@),
{
    match template {
        Some(t) => {
            let a = replace_text(t, " ({:+.0} cp)", "");
            let b = replace_text(a.as_str(), " ({:+.1} cp)", "");
            proof {
                reveal_strlit("");
                assert(""@ =~= Seq::<char>::empty());
            }
            replace_text(b.as_str(), "**", "")
        },
        None => {
            let v = chars_of(name);
            let mut spaced: Vec<char> = Vec::new();
            let mut i: usize = 0;
            while i < v.len()
                invariant
                    v@ == name@,
                    i <= v@.len(),
                    spaced@ == v@.take(i as int).map_values(
                        |c: char|
                            if c == '_' {
                                ' '
                            } else {
                                c
                            },
                    ),
                decreases v@.len() - i,
            {
                let c = v[i];
                spaced.push(
                    if c == '_' {
                        ' '
                    } else {
                        c
                    },
                );
                i += 1;
                assert(spaced@ =~= v@.take(i as int).map_values(
                    |c: char|
                        if c == '_' {
                            ' '
                        } else {
                            c
                        },
                ));
            }
            assert(v@.take(v@.len() as int) =~= v@);
            proof {
                if all_ascii(name@) {
                    assert(all_ascii(spaced@)) by {
                        assert forall|q: int| 0 <= q < spaced@.len() implies (#[trigger] spaced@[q] as u32) < 128 by {
                            assert(spaced@[q] == (if name@[q] == '_' { ' ' } else { name@[q] }));
                        }
                    }
                    lemma_fields_ascii(spaced@);
                }
            }
            let words = split_fields(&spaced);
            let ghost ws = texts(words@).map_values(|w: Seq<char>| capitalized(w));
            let mut out = String::new();
            let mut k: usize = 0;
            while k < words.len()
                invariant
                    ws == texts(words@).map_values(|w: Seq<char>| capitalized(w)),
                    texts(words@) == fields(spaced@),
                    all_ascii(name@) ==> forall|q: int| 0 <= q < texts(words@).len() ==> all_ascii(#[trigger] texts(words@)[q]),
                    all_ascii(name@) ==> forall|q: int| 0 <= q < k ==> #[trigger] capitalized(texts(words@)[q]) == ascii_capitalized(texts(words@)[q]),
                    k <= words@.len(),
                    out@ == joined_words(ws.take(k as int)),
                decreases words@.len() - k,
            {
                let w = &words[k];
                if k > 0 {
                    push_char(&mut out, ' ');
                }
                let ghost before = out@;
                if w.len() > 0 {
                    let up = char_uppercase(w[0]);
                    proof {
                        if all_ascii(name@) {
                            assert(texts(words@)[k as int] == w@);
                            assert(all_ascii(w@));
                            assert((w@[0] as u32) < 128);
                            if 'a' <= w@[0] <= 'z' {
                                assert(up@ == ascii_upper(w@[0]));
                            } else {
                                assert(up@ == seq![w@[0]]);
                            }
                        }
                    }
                    out.append(up.as_str());
                    let mut j: usize = 1;
                    while j < w.len()
                        invariant
                            1 <= j <= w@.len(),
                            out@ == before + uppercase_of(w@[0]) + w@.subrange(1, j as int),
                        decreases w@.len() - j,
                    {
                        push_char(&mut out, w[j]);
                        j += 1;
                        assert(out@ =~= before + uppercase_of(w@[0]) + w@.subrange(1, j as int));
                    }
                    assert(w@.subrange(1, w@.len() as int) =~= w@.skip(1));
                }
                proof {
                    assert(ws[k as int] == capitalized(w@));
                    assert(ws.take(k + 1).drop_last() =~= ws.take(k as int));
                    if w@.len() == 0 {
                        assert(out@ =~= before + capitalized(w@));
                    }
                }
                k += 1;
            }
            assert(ws.take(ws.len() as int) =~= ws);
            proof {
                if all_ascii(name@) {
                    let wa = texts(words@).map_values(|w: Seq<char>| ascii_capitalized(w));
                    assert(ws =~= wa);
                    assert(spaced@ =~= name@.map_values(|c: char| if c == '_' { ' ' } else { c }));
                }
            }
            out
        },
    }
}

// ── Explanation templates ────────────────────────────────────────────

/// Each feature that has an explanation sentence, with the sentence; a
/// `{:+.0}` in it stands for the contribution in centipawns.
pub open spec fn template_table() -> Seq<(Seq<char>, Seq<char>)> {
    seq![
        ("material_diff"@, "Gains a **material advantage** ({:+.0} cp)"@),
        ("material_us"@, "Increases **total material value** ({:+.0} cp)"@),
        ("material_them"@, "Reduces opponent's **total material** ({:+.0} cp)"@),
        ("mobility_us"@, "Increases **piece activity** and **mobility** ({:+.0} cp)"@),
        ("mobility_them"@, "Restricts opponent's **piece activity** ({:+.0} cp)"@),
        ("king_ring_pressure_us"@, "Increases **attacking pressure** near the opponent's king ({:+.0} cp)"@),
        ("king_ring_pressure_them"@, "Reduces **attacking pressure** on our own king ({:+.0} cp)"@),
        ("king_safety_us"@, "Improves the **defensive safety** of our king ({:+.0} cp)"@),
        ("king_safety_them"@, "Exposes or weakens the opponent's **king safety** ({:+.0} cp)"@),
        ("king_pawn_shield_us"@, "Maintains a solid **pawn shield** for our king ({:+.0} cp)"@),
        ("king_pawn_shield_them"@, "Breaks through the opponent's **king pawn shield** ({:+.0} cp)"@),
        ("king_tropism_us"@, "Positions more pieces **closer to the enemy king** ({:+.0} cp)"@),
        ("king_tropism_them"@, "Keeps opponent pieces **away from our king** ({:+.0} cp)"@),
        ("piece_activity_us"@, "Maximizes the **coordination and activity** of our pieces ({:+.0} cp)"@),
        ("piece_activity_them"@, "Disrupts the **coordination** of opponent's pieces ({:+.0} cp)"@),
        ("center_control_us"@, "Improves control over the **critical central squares** ({:+.0} cp)"@),
        ("center_control_them"@, "Challenges and reduces opponent's **central control** ({:+.0} cp)"@),
        ("space_us"@, "Gains a **territorial space advantage** ({:+.0} cp)"@),
        ("space_them"@, "Cramps the opponent's position and reduces their **space** ({:+.0} cp)"@),
        ("batteries_us"@, "Forms a powerful **battery arrangement** ({:+.0} cp)"@),
        ("batteries_them"@, "Dismantles or blocks opponent's **batteries** ({:+.0} cp)"@),
        ("outposts_us"@, "Establishes a strong **knight outpost** ({:+.0} cp)"@),
        ("outposts_them"@, "Challenges or eliminates an opponent's **outpost** ({:+.0} cp)"@),
        ("bishop_pair_us"@, "Maintains the **bishop pair advantage** ({:+.0} cp)"@),
        ("bishop_pair_them"@, "Eliminates the opponent's **bishop pair** ({:+.0} cp)"@),
        ("passed_us"@, "Creates a dangerous **passed pawn** ({:+.0} cp)"@),
        ("passed_them"@, "Successfully blocks or stops an opponent's **passed pawn** ({:+.0} cp)"@),
        ("isolated_pawns_us"@, "Avoids creating **pawn weaknesses** ({:+.0} cp)"@),
        ("isolated_pawns_them"@, "Forces a **pawn weakness** (isolated pawn) for the opponent ({:+.0} cp)"@),
        ("doubled_pawns_us"@, "Fixes or avoids **doubled pawn** structural weaknesses ({:+.0} cp)"@),
        ("doubled_pawns_them"@, "Induces **doubled pawn** weaknesses for the opponent ({:+.0} cp)"@),
        ("backward_pawns_us"@, "Solidifies the pawn structure by fixing a **weakness** ({:+.0} cp)"@),
        ("backward_pawns_them"@, "Induces a **backward pawn weakness** in the opponent's camp ({:+.0} cp)"@),
        ("pawn_chain_us"@, "Creates a solid and supportive **pawn chain** ({:+.0} cp)"@),
        ("pawn_chain_them"@, "Breaks up the opponent's **pawn chain** ({:+.0} cp)"@),
        ("safe_mobility_us"@, "Safely **activates pieces** to better squares ({:+.0} cp)"@),
        ("safe_mobility_them"@, "Restricts the **safe movement** of opponent's pieces ({:+.0} cp)"@),
        ("rook_open_file_us"@, "Positions a rook effectively on an **open file** ({:+.0} cp)"@),
        ("rook_open_file_them"@, "Denies the opponent control of **open files** ({:+.0} cp)"@),
        ("rook_on_7th_us"@, "Positions a rook dangerously on the **7th rank** ({:+.0} cp)"@),
        ("connected_rooks_us"@, "**Connects rooks** for mutual support and power ({:+.0} cp)"@),
        ("pinned_us"@, "Successfully escapes an **annoying pin** ({:+.0} cp)"@),
        ("pinned_them"@, "**Pins** an opponent's piece to create tactical opportunities ({:+.0} cp)"@),
        ("hanging_us"@, "Defends or moves a **hanging piece** ({:+.0} cp)"@),
        ("hanging_them"@, "Exploits or creates a **hanging piece** for the opponent ({:+.0} cp)"@),
        ("threats_us"@, "Creates immediate **tactical threats** ({:+.0} cp)"@),
        ("threats_them"@, "Neutralizes or parries opponent's **threats** ({:+.0} cp)"@),
        ("phase"@, "Strategic move appropriate for the current game phase ({:+.0} cp)"@),
    ]
}

/// The explanation sentence of each feature that has one, by name.
pub fn feature_templates() -> (r: Vec<(&'static str, &'static str)>)
    ensures
        r@.len() == template_table().len(),
        forall|i: int| 0 <= i < r@.len() ==> (#[trigger] r@[i].0@, r@[i].1@) == template_table()[i],
{
    let v: Vec<(&'static str, &'static str)> = vec![
        ("material_diff", "Gains a **material advantage** ({:+.0} cp)"),
        ("material_us", "Increases **total material value** ({:+.0} cp)"),
        ("material_them", "Reduces opponent's **total material** ({:+.0} cp)"),
        ("mobility_us", "Increases **piece activity** and **mobility** ({:+.0} cp)"),
        ("mobility_them", "Restricts opponent's **piece activity** ({:+.0} cp)"),
        ("king_ring_pressure_us", "Increases **attacking pressure** near the opponent's king ({:+.0} cp)"),
        ("king_ring_pressure_them", "Reduces **attacking pressure** on our own king ({:+.0} cp)"),
        ("king_safety_us", "Improves the **defensive safety** of our king ({:+.0} cp)"),
        ("king_safety_them", "Exposes or weakens the opponent's **king safety** ({:+.0} cp)"),
        ("king_pawn_shield_us", "Maintains a solid **pawn shield** for our king ({:+.0} cp)"),
        ("king_pawn_shield_them", "Breaks through the opponent's **king pawn shield** ({:+.0} cp)"),
        ("king_tropism_us", "Positions more pieces **closer to the enemy king** ({:+.0} cp)"),
        ("king_tropism_them", "Keeps opponent pieces **away from our king** ({:+.0} cp)"),
        ("piece_activity_us", "Maximizes the **coordination and activity** of our pieces ({:+.0} cp)"),
        ("piece_activity_them", "Disrupts the **coordination** of opponent's pieces ({:+.0} cp)"),
        ("center_control_us", "Improves control over the **critical central squares** ({:+.0} cp)"),
        ("center_control_them", "Challenges and reduces opponent's **central control** ({:+.0} cp)"),
        ("space_us", "Gains a **territorial space advantage** ({:+.0} cp)"),
        ("space_them", "Cramps the opponent's position and reduces their **space** ({:+.0} cp)"),
        ("batteries_us", "Forms a powerful **battery arrangement** ({:+.0} cp)"),
        ("batteries_them", "Dismantles or blocks opponent's **batteries** ({:+.0} cp)"),
        ("outposts_us", "Establishes a strong **knight outpost** ({:+.0} cp)"),
        ("outposts_them", "Challenges or eliminates an opponent's **outpost** ({:+.0} cp)"),
        ("bishop_pair_us", "Maintains the **bishop pair advantage** ({:+.0} cp)"),
        ("bishop_pair_them", "Eliminates the opponent's **bishop pair** ({:+.0} cp)"),
        ("passed_us", "Creates a dangerous **passed pawn** ({:+.0} cp)"),
        ("passed_them", "Successfully blocks or stops an opponent's **passed pawn** ({:+.0} cp)"),
        ("isolated_pawns_us", "Avoids creating **pawn weaknesses** ({:+.0} cp)"),
        ("isolated_pawns_them", "Forces a **pawn weakness** (isolated pawn) for the opponent ({:+.0} cp)"),
        ("doubled_pawns_us", "Fixes or avoids **doubled pawn** structural weaknesses ({:+.0} cp)"),
        ("doubled_pawns_them", "Induces **doubled pawn** weaknesses for the opponent ({:+.0} cp)"),
        ("backward_pawns_us", "Solidifies the pawn structure by fixing a **weakness** ({:+.0} cp)"),
        ("backward_pawns_them", "Induces a **backward pawn weakness** in the opponent's camp ({:+.0} cp)"),
        ("pawn_chain_us", "Creates a solid and supportive **pawn chain** ({:+.0} cp)"),
        ("pawn_chain_them", "Breaks up the opponent's **pawn chain** ({:+.0} cp)"),
        ("safe_mobility_us", "Safely **activates pieces** to better squares ({:+.0} cp)"),
        ("safe_mobility_them", "Restricts the **safe movement** of opponent's pieces ({:+.0} cp)"),
        ("rook_open_file_us", "Positions a rook effectively on an **open file** ({:+.0} cp)"),
        ("rook_open_file_them", "Denies the opponent control of **open files** ({:+.0} cp)"),
        ("rook_on_7th_us", "Positions a rook dangerously on the **7th rank** ({:+.0} cp)"),
        ("connected_rooks_us", "**Connects rooks** for mutual support and power ({:+.0} cp)"),
        ("pinned_us", "Successfully escapes an **annoying pin** ({:+.0} cp)"),
        ("pinned_them", "**Pins** an opponent's piece to create tactical opportunities ({:+.0} cp)"),
        ("hanging_us", "Defends or moves a **hanging piece** ({:+.0} cp)"),
        ("hanging_them", "Exploits or creates a **hanging piece** for the opponent ({:+.0} cp)"),
        ("threats_us", "Creates immediate **tactical threats** ({:+.0} cp)"),
        ("threats_them", "Neutralizes or parries opponent's **threats** ({:+.0} cp)"),
        ("phase", "Strategic move appropriate for the current game phase ({:+.0} cp)"),
    ];
    v
}

} // verus!
