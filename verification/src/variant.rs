//! The chess variants the engine can evaluate, and a game in any of them.
//!
//! Search and move generation are shared with standard chess; what
//! differs is evaluation, since each variant has its own win condition.

use vstd::prelude::*;


use crate::board::{push_char, Color, Move, Position};
use crate::engine::eval::{evaluate, evaluate_variant, spec_evaluate, spec_evaluate_variant};
use crate::engine::eval::{spec_three_check_bonus, three_check_bonus};
use crate::engine::search::{find_best_reply_impl, is_legal_uci, spec_best_move};
use crate::rules::{after_move, analyze, fen, fen_of, fen_position, initial_position};
use crate::rules::{is_game_over, legal_moves_of, parse_fen, parse_uci_move, play};
use crate::rules::{spec_is_game_over, spec_outcome, start_position, uci_move_in, FenError, GameOutcome, MoveError};
use crate::text::{all_ascii, ascii_lower_char, chars_of, lowercase_of, text_eq, to_lowercase};
use crate::text::{fields, parse_u32_in, spec_parse_u32, split_fields, texts};

verus! {

/// A variant the engine knows how to evaluate.
///
/// Narrower than the move generator's list: these are the variants
/// whose evaluation this engine implements.
#[derive(Clone, Copy, Debug, PartialEq, Eq, Structural)]
pub enum Variant {
    /// Ordinary chess.
    Standard,
    /// Win by walking your king to a centre square.
    KingOfTheHill,
    /// Win by giving check three times.
    ThreeCheck,
    /// Win by losing all your pieces; captures are compulsory.
    Antichess,
}

impl Variant {
    /// Every variant the engine supports, in menu order.
    pub const ALL: [Variant; 4] = [
        Variant::Standard,
        Variant::KingOfTheHill,
        Variant::ThreeCheck,
        Variant::Antichess,
    ];

    pub open spec fn spec_slug(self) -> Seq<char> {
        match self {
            Variant::Standard => "standard"@,
            Variant::KingOfTheHill => "koth"@,
            Variant::ThreeCheck => "3check"@,
            Variant::Antichess => "antichess"@,
        }
    }

    /// The name accepted on the command line.
    pub fn slug(&self) -> (r: &'static str)
        ensures
            r@ == self.spec_slug(),
    {
        match self {
            Variant::Standard => "standard",
            Variant::KingOfTheHill => "koth",
            Variant::ThreeCheck => "3check",
            Variant::Antichess => "antichess",
        }
    }

    pub open spec fn spec_description(self) -> Seq<char> {
        match self {
            Variant::Standard => "Ordinary chess rules"@,
            Variant::KingOfTheHill => "Win by marching your king to the centre"@,
            Variant::ThreeCheck => "Win by giving check three times"@,
            Variant::Antichess => "Win by losing all your pieces; captures are forced"@,
        }
    }

    /// A one-line description of the win condition.
    pub fn description(&self) -> (r: &'static str)
        ensures
            r@ == self.spec_description(),
    {
        match self {
            Variant::Standard => "Ordinary chess rules",
            Variant::KingOfTheHill => "Win by marching your king to the centre",
            Variant::ThreeCheck => "Win by giving check three times",
            Variant::Antichess => "Win by losing all your pieces; captures are forced",
        }
    }
}

// ── Names ────────────────────────────────────────────────────────────

/// A name without the separators people type inside it (`-` and `_`).
pub open spec fn without_separators(s: Seq<char>) -> Seq<char>
    decreases s.len(),
{
    if s.len() == 0 {
        s
    } else {
        let before = without_separators(s.drop_last());
        if s.last() == '-' || s.last() == '_' {
            before
        } else {
            before.push(s.last())
        }
    }
}

/// A variant name as it is looked up: lower case, separators removed.
pub open spec fn normalized_name(s: Seq<char>) -> Seq<char> {
    without_separators(lowercase_of(s))
}

/// How a name written in ASCII is looked up: lower case, separators
/// removed.
pub open spec fn ascii_normalized(s: Seq<char>) -> Seq<char> {
    without_separators(s.map_values(|c: char| ascii_lower_char(c)))
}

/// The variant a normalized name denotes, with the aliases people use.
pub open spec fn variant_named(n: Seq<char>) -> Option<Variant> {
    if n == "standard"@ || n == "chess"@ {
        Some(Variant::Standard)
    } else if n == "koth"@ || n == "kingofthehill"@ {
        Some(Variant::KingOfTheHill)
    } else if n == "3check"@ || n == "threecheck"@ {
        Some(Variant::ThreeCheck)
    } else if n == "antichess"@ || n == "giveaway"@ || n == "losers"@ {
        Some(Variant::Antichess)
    } else {
        None
    }
}

/// A name that names no supported variant.
#[derive(Debug)]
pub struct VariantError {
    /// The name as it was looked up: lower case, without separators.
    pub name: String,
}

/// The supported variants' names, separated by commas.
pub open spec fn slug_list() -> Seq<char> {
    "standard"@ + ", "@ + "koth"@ + ", "@ + "3check"@ + ", "@ + "antichess"@
}

impl VariantError {
    pub open spec fn spec_message(&self) -> Seq<char> {
        "unknown variant '"@ + self.name@ + "' (expected one of: "@ + slug_list() + ")"@
    }

    /// The error as a sentence that lists the supported variants.
    pub fn message(&self) -> (r: String)
        ensures
            r@ == self.spec_message(),
    {
        let mut out = "unknown variant '".to_owned();
        out.append(self.name.as_str());
        out.append("' (expected one of: ");
        let mut i: usize = 0;
        while i < 4
            invariant
                i <= 4,
                out@ == "unknown variant '"@ + self.name@ + "' (expected one of: "@ + joined_slugs(
                    i as int,
                ),
            decreases 4 - i,
        {
            if i > 0 {
                out.append(", ");
            }
            out.append(Variant::ALL[i].slug());
            i += 1;
        }
        out.append(")");
        proof {
            reveal_with_fuel(joined_slugs, 5);
            assert(joined_slugs(4) =~= slug_list());
        }
        out
    }
}

/// How a game in the position ended, `None` while it goes on.
pub open spec fn finished_outcome(p: Position) -> Option<GameOutcome> {
    if spec_is_game_over(p) {
        spec_outcome(p)
    } else {
        None
    }
}

/// The name of a side as a word in lower case.
pub open spec fn side_word(c: Color) -> Seq<char> {
    match c {
        Color::White => "white"@,
        Color::Black => "black"@,
    }
}

/// The side to move as a word: `white` or `black`.
pub fn side_name(c: Color) -> (r: &'static str)
    ensures
        r@ == side_word(c),
{
    match c {
        Color::White => "white",
        Color::Black => "black",
    }
}

/// A game's outcome in the wording of the web interface:
/// `Some(Decisive { winner: White })`, `Some(Draw)` or `None`.
pub open spec fn outcome_text(o: Option<GameOutcome>) -> Seq<char> {
    match o {
        Some(GameOutcome::Decisive(Color::White)) => "Some(Decisive { winner: White })"@,
        Some(GameOutcome::Decisive(Color::Black)) => "Some(Decisive { winner: Black })"@,
        Some(GameOutcome::Draw) => "Some(Draw)"@,
        None => "None"@,
    }
}

/// The outcome in the web interface's wording (`outcome_text`).
pub fn describe_outcome(o: Option<GameOutcome>) -> (r: &'static str)
    ensures
        r@ == outcome_text(o),
{
    match o {
        Some(GameOutcome::Decisive(Color::White)) => "Some(Decisive { winner: White })",
        Some(GameOutcome::Decisive(Color::Black)) => "Some(Decisive { winner: Black })",
        Some(GameOutcome::Draw) => "Some(Draw)",
        None => "None",
    }
}

/// The line that offers a variant: its name, a tab, and its description.
pub open spec fn variant_line(v: Variant) -> Seq<char> {
    v.spec_slug() + "\t"@ + v.spec_description()
}

/// The variants on offer, one `slug<TAB>description` line each, in the
/// order of `Variant::ALL`.
pub fn supported_variants() -> (r: Vec<String>)
    ensures
        r@.len() == 4,
        forall|i: int| 0 <= i < 4 ==> (#[trigger] r@[i])@ == variant_line(Variant::ALL[i]),
{
    let mut out: Vec<String> = Vec::new();
    let mut i: usize = 0;
    while i < 4
        invariant
            i <= 4,
            out@.len() == i,
            forall|k: int| 0 <= k < i ==> (#[trigger] out@[k])@ == variant_line(Variant::ALL[k]),
        decreases 4 - i,
    {
        let v = Variant::ALL[i];
        let mut line = v.slug().to_owned();
        line.append("\t");
        line.append(v.description());
        out.push(line);
        i += 1;
    }
    out
}

/// The first `n` names of `Variant::ALL`, separated by commas.
pub open spec fn joined_slugs(n: int) -> Seq<char>
    decreases n,
{
    if n <= 0 {
        Seq::empty()
    } else if n == 1 {
        Variant::ALL[0].spec_slug()
    } else {
        joined_slugs(n - 1) + ", "@ + Variant::ALL[n - 1].spec_slug()
    }
}

/// Whether a character list holds exactly the characters of a string.
fn name_is(name: &String, s: &str) -> (r: bool)
    ensures
        r == (name@ == s@),
{
    text_eq(name.as_str(), s)
}

impl Variant {
    /// Looks a variant up by name, ignoring case and the separators `-`
    /// and `_`, and accepting the common aliases.
    pub fn parse(s: &str) -> (r: Result<Variant, VariantError>)
        ensures
            match variant_named(normalized_name(s@)) {
                Some(v) => r == Ok::<Variant, VariantError>(v),
                None => r matches Err(e) && e.name@ == normalized_name(s@),
            },
            all_ascii(s@) ==> normalized_name(s@) == ascii_normalized(s@),
    {
        let lower = to_lowercase(s);
        let chars = chars_of(lower.as_str());
        let mut name = String::new();
        let mut i: usize = 0;
        while i < chars.len()
            invariant
                chars@ == lowercase_of(s@),
                i <= chars@.len(),
                name@ == without_separators(chars@.take(i as int)),
            decreases chars@.len() - i,
        {
            let c = chars[i];
            assert(chars@.take(i + 1).drop_last() =~= chars@.take(i as int));
            if c != '-' && c != '_' {
                push_char(&mut name, c);
            }
            i += 1;
        }
        assert(chars@.take(chars@.len() as int) =~= chars@);
        if name_is(&name, "standard") || name_is(&name, "chess") {
            Ok(Variant::Standard)
        } else if name_is(&name, "koth") || name_is(&name, "kingofthehill") {
            Ok(Variant::KingOfTheHill)
        } else if name_is(&name, "3check") || name_is(&name, "threecheck") {
            Ok(Variant::ThreeCheck)
        } else if name_is(&name, "antichess") || name_is(&name, "giveaway") || name_is(
            &name,
            "losers",
        ) {
            Ok(Variant::Antichess)
        } else {
            Err(VariantError { name })
        }
    }
}

/// Every variant's own name looks it up: a slug is ASCII and, lowered
/// and stripped of separators, names its variant.
pub proof fn lemma_slug_names_its_variant(v: Variant)
    ensures
        all_ascii(v.spec_slug()),
        variant_named(ascii_normalized(v.spec_slug())) == Some(v),
{
    reveal_strlit("standard");
    reveal_strlit("koth");
    reveal_strlit("3check");
    reveal_strlit("antichess");
    reveal_strlit("chess");
    reveal_strlit("kingofthehill");
    reveal_strlit("threecheck");
    reveal_strlit("giveaway");
    reveal_strlit("losers");
    reveal_with_fuel(without_separators, 10);
    let s = v.spec_slug();
    assert(s.map_values(|c: char| ascii_lower_char(c)) =~= s);
    assert(without_separators(s) =~= s);
}

// ── The Three-Check counter ──────────────────────────────────────────

/// The first position at or after `k` that holds a `+`, or the length
/// when none does.
pub open spec fn plus_from(t: Seq<char>, k: int) -> int
    decreases t.len() - k,
{
    if k >= t.len() {
        t.len() as int
    } else if t[k] == '+' {
        k
    } else {
        plus_from(t, k + 1)
    }
}

/// A field read as a check counter `white+black`: split at its first
/// `+` (`str::split_once`), both sides numbers.
pub open spec fn counter_field(t: Seq<char>) -> Option<(u32, u32)> {
    let k = plus_from(t, 0);
    if k < t.len() {
        match (spec_parse_u32(t.subrange(0, k)), spec_parse_u32(t.subrange(k + 1, t.len() as int))) {
            (Some(w), Some(b)) => Some((w, b)),
            _ => None,
        }
    } else {
        None
    }
}

/// The first field at or after `k` that reads as a check counter.
pub open spec fn first_counter_from(fs: Seq<Seq<char>>, k: int) -> Option<(u32, u32)>
    decreases fs.len() - k,
{
    if k < 0 || k >= fs.len() {
        None
    } else {
        match counter_field(fs[k]) {
            Some(c) => Some(c),
            None => first_counter_from(fs, k + 1),
        }
    }
}

/// The checks each side still has to give, as a FEN's check-counter
/// field states them; three each when no field reads as one.
pub open spec fn spec_check_counter(fen: Seq<char>) -> (u32, u32) {
    match first_counter_from(fields(fen), 0) {
        Some(c) => c,
        None => (3, 3),
    }
}

/// Reads one field as a check counter.
fn read_counter_field(t: &Vec<char>) -> (r: Option<(u32, u32)>)
    ensures
        r == counter_field(t@),
{
    let mut k: usize = 0;
    while k < t.len() && t[k] != '+'
        invariant
            k <= t@.len(),
            plus_from(t@, 0) == plus_from(t@, k as int),
        decreases t@.len() - k,
    {
        k += 1;
    }
    if k == t.len() {
        return None;
    }
    match (parse_u32_in(t, 0, k), parse_u32_in(t, k + 1, t.len())) {
        (Some(w), Some(b)) => Some((w, b)),
        _ => None,
    }
}

/// The check counter of a FEN: the first whitespace-separated field
/// that reads as `white+black`, or three each.
pub fn check_counter(fen: &str) -> (r: (u32, u32))
    ensures
        r == spec_check_counter(fen@),
{
    let v = chars_of(fen);
    let fs = split_fields(&v);
    let mut i: usize = 0;
    while i < fs.len()
        invariant
            texts(fs@) == fields(fen@),
            i <= fs@.len(),
            first_counter_from(fields(fen@), 0) == first_counter_from(fields(fen@), i as int),
        decreases fs@.len() - i,
    {
        assert(texts(fs@)[i as int] == fs@[i as int]@);
        match read_counter_field(&fs[i]) {
            Some(c) => {
                return c;
            },
            None => {},
        }
        i += 1;
    }
    (3, 3)
}

/// How many checks each side still needs to deliver to win, read from
/// the position's FEN, which carries a `w+b` counter field.
pub fn remaining_checks(pos: &Position) -> (r: (u32, u32))
    ensures
        r == spec_check_counter(fen_of(*pos)),
{
    let f = fen(pos);
    check_counter(f.as_str())
}

// ── A game in one of the variants ────────────────────────────────────

/// A position in whichever variant is being played.
#[derive(Clone, Copy, Debug)]
pub struct VariantGame {
    pub position: Position,
}

impl View for VariantGame {
    type V = Position;

    open spec fn view(&self) -> Position {
        self.position
    }
}

/// The check counts the Three-Check race is scored with: those of the
/// FEN, each at most three.
pub open spec fn capped(n: u32) -> int {
    if n > 3 {
        3
    } else {
        n as int
    }
}

/// How a game evaluates its position: as `evaluate_variant` does, except
/// that Three-Check reads the checks still to give from the FEN.
pub open spec fn spec_game_evaluation(p: Position) -> int {
    if p.variant == Variant::ThreeCheck {
        let (w, b) = spec_check_counter(fen_of(p));
        spec_evaluate(p) + spec_three_check_bonus(capped(w), capped(b), p.side())
    } else {
        spec_evaluate_variant(p)
    }
}

impl VariantGame {
    /// Start a new game of `variant` from its initial position.
    pub fn new(variant: Variant) -> (g: VariantGame)
        ensures
            g@ == initial_position(variant),
    {
        VariantGame { position: start_position(variant) }
    }

    /// Set a game of `variant` up from a FEN.
    pub fn from_fen(variant: Variant, fen: &str) -> (r: Result<VariantGame, FenError>)
        ensures
            match fen_position(variant, fen@) {
                Ok(p) => r matches Ok(g) && g@ == p,
                Err(e) => r matches Err(x) && x == e,
            },
    {
        match parse_fen(variant, fen) {
            Ok(p) => Ok(VariantGame { position: p }),
            Err(e) => Err(e),
        }
    }

    /// Borrow the underlying position.
    pub fn inner(&self) -> (r: &Position)
        ensures
            *r == self@,
    {
        &self.position
    }

    /// Which variant this game is playing.
    pub fn variant(&self) -> (r: Variant)
        ensures
            r == self@.variant,
    {
        self.position.variant
    }

    /// Side to move.
    pub fn turn(&self) -> (r: Color)
        ensures
            r == self@.side(),
    {
        self.position.turn()
    }

    /// Whether the game has ended under this variant's rules.
    pub fn is_game_over(&self) -> (r: bool)
        ensures
            r == spec_is_game_over(self@),
    {
        let info = analyze(&self.position);
        is_game_over(&info, Ghost(self.position))
    }

    /// How the game ended: `None` while it goes on.
    pub fn outcome(&self) -> (r: Option<GameOutcome>)
        ensures
            r == finished_outcome(self@),
    {
        let info = analyze(&self.position);
        if is_game_over(&info, Ghost(self.position)) {
            crate::rules::outcome(&self.position, &info)
        } else {
            None
        }
    }

    /// Legal moves in UCI notation, in generation order.
    pub fn legal_moves(&self) -> (r: Vec<String>)
        ensures
            r@.len() == legal_moves_of(self@).len(),
            forall|i: int| 0 <= i < r@.len() ==> (#[trigger] r@[i])@ == legal_moves_of(self@)[i].uci(),
    {
        let info = analyze(&self.position);
        let mut out: Vec<String> = Vec::new();
        let mut i: usize = 0;
        while i < info.moves.len()
            invariant
                info.moves@ == legal_moves_of(self@),
                forall|k: int| 0 <= k < info.moves@.len() ==> (#[trigger] info.moves@[k]).from < 64 && info.moves@[k].to < 64,
                i <= info.moves@.len(),
                out@.len() == i,
                forall|k: int| 0 <= k < i ==> (#[trigger] out@[k])@ == info.moves@[k].uci(),
            decreases info.moves@.len() - i,
        {
            let m = info.moves[i];
            out.push(m.to_uci());
            i += 1;
        }
        out
    }

    /// The position in FEN notation.
    pub fn fen(&self) -> (r: String)
        ensures
            r@ == fen_of(self@),
    {
        fen(&self.position)
    }

    /// Play a move given in UCI notation.  A malformed or illegal move
    /// is refused and leaves the game as it was.
    pub fn play_uci(&mut self, uci: &str) -> (r: Result<(), MoveError>)
        ensures
            match uci_move_in(old(self)@, uci@) {
                Err(e) => r == Err::<(), MoveError>(e) && final(self)@ == old(self)@,
                Ok(m) => if legal_moves_of(old(self)@).contains(m) {
                    r is Ok && final(self)@ == after_move(old(self)@, m)
                } else {
                    r == Err::<(), MoveError>(MoveError::Illegal) && final(self)@ == old(self)@
                },
            },
    {
        let m = match parse_uci_move(&self.position, uci) {
            Ok(m) => m,
            Err(e) => {
                return Err(e);
            },
        };
        let info = analyze(&self.position);
        let mut i: usize = 0;
        while i < info.moves.len()
            invariant
                self@ == old(self)@,
                uci_move_in(old(self)@, uci@) == Ok::<Move, MoveError>(m),
                info.moves@ == legal_moves_of(self@),
                i <= info.moves@.len(),
                forall|k: int| 0 <= k < i ==> info.moves@[k] != m,
            decreases info.moves@.len() - i,
        {
            if info.moves[i] == m {
                proof {
                    assert(legal_moves_of(self@)[i as int] == m);
                }
                self.position = play(&self.position, &m);
                return Ok(());
            }
            i += 1;
        }
        assert(!legal_moves_of(old(self)@).contains(m));
        Err(MoveError::Illegal)
    }

    /// Evaluate the position from the side to move's perspective, using
    /// the terms that matter for this variant.
    pub fn evaluate(&self) -> (r: i32)
        ensures
            r == spec_game_evaluation(self@),
    {
        if self.position.variant == Variant::ThreeCheck {
            let (w, b) = remaining_checks(&self.position);
            let w3: u32 = if w > 3 {
                3
            } else {
                w
            };
            let b3: u32 = if b > 3 {
                3
            } else {
                b
            };
            evaluate(&self.position) + three_check_bonus(w3, b3, self.position.turn())
        } else {
            evaluate_variant(&self.position)
        }
    }

    /// Search for the best move, returning it in UCI notation: `None`
    /// exactly when no move is legal, else the search's choice
    /// `spec_best_move`.
    pub fn best_move(&self, depth: u8) -> (r: Option<String>)
        ensures
            r is None <==> legal_moves_of(self@).len() == 0,
            r matches Some(s) ==> s@ == spec_best_move(self@, depth as nat).uci(),
            r matches Some(s) ==> is_legal_uci(self@, s@),
    {
        find_best_reply_impl(&self.position, depth)
    }
}

/// In Three-Check the race for checks adds 200 centipawns to the side to
/// move for every check it needs fewer than its opponent (the counts read
/// from the FEN, at most three each): the game's evaluation exceeds the
/// standard one exactly when the side to move needs fewer checks, and
/// falls below it exactly when it needs more.
pub proof fn lemma_three_check_race(p: Position)
    requires
        p.variant == Variant::ThreeCheck,
    ensures
        ({
            let (w, b) = spec_check_counter(fen_of(p));
            let (mine, theirs) = if p.white_to_move {
                (capped(w), capped(b))
            } else {
                (capped(b), capped(w))
            };
            &&& spec_game_evaluation(p) - spec_evaluate(p) == 200 * (theirs - mine)
            &&& (spec_game_evaluation(p) > spec_evaluate(p) <==> mine < theirs)
            &&& (spec_game_evaluation(p) < spec_evaluate(p) <==> mine > theirs)
        }),
{
}

/// Routing standard chess through a game leaves its evaluation unchanged.
pub proof fn lemma_standard_game_evaluation(p: Position)
    requires
        p.variant == Variant::Standard,
    ensures
        spec_game_evaluation(p) == spec_evaluate(p),
{
}

impl std::str::FromStr for Variant {
    type Err = VariantError;

    fn from_str(s: &str) -> (r: Result<Variant, VariantError>)
        ensures
            match variant_named(normalized_name(s@)) {
                Some(v) => r == Ok::<Variant, VariantError>(v),
                None => r matches Err(e) && e.name@ == normalized_name(s@),
            },
            all_ascii(s@) ==> normalized_name(s@) == ascii_normalized(s@),
    {
        Variant::parse(s)
    }
}

} // verus!
