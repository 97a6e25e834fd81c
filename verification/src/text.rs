//! Reading text: the characters of a string, whitespace-separated
//! fields, and decimal integers as `str::parse` reads them.

use vstd::prelude::*;

verus! {

/// The characters of a string, in order.
pub fn chars_of(s: &str) -> (r: Vec<char>)
    ensures
        r@ == s@,
{
    let n = s.unicode_len();
    let mut out: Vec<char> = Vec::new();
    let mut i: usize = 0;
    while i < n
        invariant
            n == s@.len(),
            i <= n,
            out@ == s@.take(i as int),
        decreases n - i,
    {
        out.push(s.get_char(i));
        i += 1;
        assert(out@ =~= s@.take(i as int));
    }
    assert(out@ =~= s@);
    out
}

/// Whether two strings hold the same characters.
pub fn text_eq(a: &str, b: &str) -> (r: bool)
    ensures
        r == (a@ == b@),
{
    let n = a.unicode_len();
    if n != b.unicode_len() {
        return false;
    }
    let mut i: usize = 0;
    while i < n
        invariant
            n == a@.len(),
            n == b@.len(),
            i <= n,
            forall|k: int| 0 <= k < i ==> a@[k] == b@[k],
        decreases n - i,
    {
        if a.get_char(i) != b.get_char(i) {
            return false;
        }
        i += 1;
    }
    assert(a@ =~= b@);
    true
}

/// Whether `needle` occurs in `hay` starting at position `i`.
pub open spec fn occurs_at(hay: Seq<char>, needle: Seq<char>, i: int) -> bool {
    0 <= i && i + needle.len() <= hay.len() && hay.subrange(i, i + needle.len()) == needle
}

/// Whether `needle` occurs anywhere in `hay` (`str::contains`).
pub open spec fn contains_text(hay: Seq<char>, needle: Seq<char>) -> bool {
    exists|i: int| #[trigger] occurs_at(hay, needle, i)
}

/// Whether `needle` occurs in `hay` (`str::contains` for a string
/// pattern).
pub fn text_contains(hay: &str, needle: &str) -> (r: bool)
    ensures
        r == contains_text(hay@, needle@),
{
    let h = chars_of(hay);
    let n = chars_of(needle);
    if n.len() > h.len() {
        assert forall|i: int| !occurs_at(hay@, needle@, i) by {}
        return false;
    }
    if n.len() == 0 {
        assert(hay@.subrange(0, 0) =~= needle@);
        assert(occurs_at(hay@, needle@, 0));
        return true;
    }
    let last = h.len() - n.len();
    let mut i: usize = 0;
    while i <= last
        invariant
            h@ == hay@,
            n@ == needle@,
            0 < n@.len() <= h@.len(),
            h@.len() <= usize::MAX,
            last == h@.len() - n@.len(),
            i <= last + 1,
            forall|k: int| 0 <= k < i ==> !occurs_at(hay@, needle@, k),
        decreases last + 1 - i,
    {
        let mut j: usize = 0;
        let mut same = true;
        while j < n.len()
            invariant
                h@ == hay@,
                n@ == needle@,
                i <= last,
                last == h@.len() - n@.len(),
                j <= n@.len(),
                n@.len() <= h@.len(),
                h@.len() <= usize::MAX,
                same == (forall|k: int| 0 <= k < j ==> h@[i + k] == n@[k]),
            decreases n@.len() - j,
        {
            if h[i + j] != n[j] {
                same = false;
            }
            j += 1;
        }
        if same {
            assert(hay@.subrange(i as int, i + needle@.len()) =~= needle@);
            assert(occurs_at(hay@, needle@, i as int));
            return true;
        }
        assert(!occurs_at(hay@, needle@, i as int)) by {
            if occurs_at(hay@, needle@, i as int) {
                let k = choose|k: int| 0 <= k < n@.len() && h@[i + k] != n@[k];
                assert(hay@.subrange(i as int, i + needle@.len())[k] == h@[i + k]);
            }
        }
        i += 1;
    }
    assert forall|k: int| !occurs_at(hay@, needle@, k) by {
        if 0 <= k && k + needle@.len() <= hay@.len() {
            assert(k < i);
        }
    }
    false
}

// ── Decimal integers ─────────────────────────────────────────────────

pub open spec fn is_digit(c: char) -> bool {
    '0' <= c && c <= '9'
}

pub open spec fn all_digits(s: Seq<char>) -> bool {
    forall|i: int| 0 <= i < s.len() ==> is_digit(#[trigger] s[i])
}

/// The number a string of decimal digits denotes.
pub open spec fn digits_value(s: Seq<char>) -> nat
    decreases s.len(),
{
    if s.len() == 0 {
        0
    } else {
        digits_value(s.drop_last()) * 10 + (s.last() as nat - '0' as nat) as nat
    }
}

/// The decimal digits of a natural number, without leading zeros (`0`
/// for zero).
pub open spec fn decimal_digits(n: nat) -> Seq<char>
    decreases n,
{
    if n < 10 {
        seq![(('0' as nat) + n) as char]
    } else {
        decimal_digits(n / 10).push((('0' as nat) + n % 10) as char)
    }
}

/// An integer as `Display` writes it: its decimal digits, after a minus
/// sign when it is negative.
pub open spec fn decimal_text(k: int) -> Seq<char> {
    if k < 0 {
        seq!['-'] + decimal_digits((-k) as nat)
    } else {
        decimal_digits(k as nat)
    }
}

/// The digits of a number are digits, begin with one, and denote it.
pub proof fn lemma_decimal_digits(n: nat)
    ensures
        decimal_digits(n).len() > 0,
        all_digits(decimal_digits(n)),
        digits_value(decimal_digits(n)) == n,
    decreases n,
{
    if n < 10 {
        assert(((('0' as nat) + n) as char) as nat == ('0' as nat) + n);
        let d = decimal_digits(n);
        assert(d.drop_last() =~= Seq::<char>::empty());
        assert(digits_value(d.drop_last()) == 0);
        assert(d.last() as nat - '0' as nat == n);
        assert(digits_value(d) == n);
    } else {
        lemma_decimal_digits(n / 10);
        let d = decimal_digits(n);
        assert(d.drop_last() =~= decimal_digits(n / 10));
        assert(((('0' as nat) + n % 10) as char) as nat == ('0' as nat) + n % 10);
        assert(d.last() == (('0' as nat) + n % 10) as char);
        assert(n == (n / 10) * 10 + n % 10);
        assert(digits_value(d.drop_last()) == n / 10);
        assert(d.last() as nat - '0' as nat == n % 10);
        assert(digits_value(d) == digits_value(d.drop_last()) * 10 + (d.last() as nat - '0' as nat) as nat);
        assert(digits_value(d) == n);
        assert(all_digits(d)) by {
            assert forall|i: int| 0 <= i < d.len() implies is_digit(#[trigger] d[i]) by {
                if i < d.len() - 1 {
                    assert(d[i] == decimal_digits(n / 10)[i]);
                }
            }
        }
    }
}

/// Reading an integer written in decimal gives it back.
pub proof fn lemma_parse_decimal(k: int)
    requires
        i32::MIN <= k <= i32::MAX,
    ensures
        spec_parse_i32(decimal_text(k)) == Some(k as i32),
{
    if k < 0 {
        lemma_decimal_digits((-k) as nat);
        assert((seq!['-'] + decimal_digits((-k) as nat)).drop_first() =~= decimal_digits((-k) as nat));
    } else {
        lemma_decimal_digits(k as nat);
        assert(is_digit(decimal_digits(k as nat)[0]));
    }
}

/// A prefix of a string of digits denotes no more than the whole.
pub proof fn lemma_digits_prefix(s: Seq<char>, k: int)
    requires
        all_digits(s),
        0 <= k <= s.len(),
    ensures
        digits_value(s.take(k)) <= digits_value(s),
    decreases s.len(),
{
    if k < s.len() {
        assert(all_digits(s.drop_last()));
        lemma_digits_prefix(s.drop_last(), k);
        assert(s.drop_last().take(k) =~= s.take(k));
    } else {
        assert(s.take(k) =~= s);
    }
}

/// Reads the digits `v[lo..hi]` as a number no larger than `limit`:
/// `None` unless the range is non-empty, holds only digits, and the
/// number fits.
fn read_digits(v: &Vec<char>, lo: usize, hi: usize, limit: u64) -> (r: Option<u64>)
    requires
        lo <= hi <= v@.len(),
        limit <= 0x1_0000_0000,
    ensures
        r == (if lo < hi && all_digits(v@.subrange(lo as int, hi as int)) && digits_value(
            v@.subrange(lo as int, hi as int),
        ) <= limit {
            Some(digits_value(v@.subrange(lo as int, hi as int)) as u64)
        } else {
            None::<u64>
        }),
{
    let ghost s = v@.subrange(lo as int, hi as int);
    if lo == hi {
        return None;
    }
    let mut acc: u64 = 0;
    let mut i: usize = lo;
    while i < hi
        invariant
            lo <= i <= hi <= v@.len(),
            limit <= 0x1_0000_0000,
            s == v@.subrange(lo as int, hi as int),
            all_digits(s.take(i - lo)),
            acc == digits_value(s.take(i - lo)),
            acc <= limit,
        decreases hi - i,
    {
        let c = v[i];
        if !('0' <= c && c <= '9') {
            assert(s[i - lo] == c);
            return None;
        }
        let d = (c as u32 - '0' as u32) as u64;
        let next = acc * 10 + d;
        assert(s.take(i - lo + 1).drop_last() =~= s.take(i - lo));
        assert(s.take(i - lo + 1).last() == c);
        assert(all_digits(s.take(i - lo + 1)));
        if next > limit {
            proof {
                if all_digits(s) {
                    lemma_digits_prefix(s, i - lo + 1);
                }
            }
            return None;
        }
        acc = next;
        i += 1;
    }
    assert(s.take(hi - lo) =~= s);
    Some(acc)
}

/// The digits of an unsigned number: the text after a leading `+`, if
/// anything follows it.
pub open spec fn unsigned_digits(s: Seq<char>) -> Seq<char> {
    if s.len() > 1 && s[0] == '+' {
        s.drop_first()
    } else {
        s
    }
}

/// `str::parse::<u32>`: an optional `+`, then at least one decimal digit,
/// the value fitting in 32 bits.
pub open spec fn spec_parse_u32(s: Seq<char>) -> Option<u32> {
    let d = unsigned_digits(s);
    if d.len() > 0 && all_digits(d) && digits_value(d) <= u32::MAX {
        Some(digits_value(d) as u32)
    } else {
        None
    }
}

/// `str::parse::<i32>`: an optional sign, then at least one decimal digit,
/// the value within the range of `i32`.
pub open spec fn spec_parse_i32(s: Seq<char>) -> Option<i32> {
    if s.len() > 1 && s[0] == '-' {
        let d = s.drop_first();
        if all_digits(d) && digits_value(d) <= 0x8000_0000 {
            Some((-digits_value(d)) as i32)
        } else {
            None
        }
    } else {
        let d = unsigned_digits(s);
        if d.len() > 0 && all_digits(d) && digits_value(d) <= i32::MAX {
            Some(digits_value(d) as i32)
        } else {
            None
        }
    }
}

/// Reads `v[lo..hi]` as a `u32`, as `str::parse` does.
pub fn parse_u32_in(v: &Vec<char>, lo: usize, hi: usize) -> (r: Option<u32>)
    requires
        lo <= hi <= v@.len(),
    ensures
        r == spec_parse_u32(v@.subrange(lo as int, hi as int)),
{
    let ghost s = v@.subrange(lo as int, hi as int);
    let start: usize = if hi - lo > 1 && v[lo] == '+' {
        lo + 1
    } else {
        lo
    };
    assert(v@.subrange(start as int, hi as int) =~= unsigned_digits(s));
    match read_digits(v, start, hi, 0xffff_ffff) {
        Some(x) => Some(x as u32),
        None => None,
    }
}

/// Reads `v[lo..hi]` as an `i32`, as `str::parse` does.
pub fn parse_i32_in(v: &Vec<char>, lo: usize, hi: usize) -> (r: Option<i32>)
    requires
        lo <= hi <= v@.len(),
    ensures
        r == spec_parse_i32(v@.subrange(lo as int, hi as int)),
{
    let ghost s = v@.subrange(lo as int, hi as int);
    if hi - lo > 1 && v[lo] == '-' {
        assert(v@.subrange(lo + 1, hi as int) =~= s.drop_first());
        match read_digits(v, lo + 1, hi, 0x8000_0000) {
            Some(x) => Some((0 - x as i64) as i32),
            None => None,
        }
    } else {
        let start: usize = if hi - lo > 1 && v[lo] == '+' {
            lo + 1
        } else {
            lo
        };
        assert(v@.subrange(start as int, hi as int) =~= unsigned_digits(s));
        match read_digits(v, start, hi, 0x7fff_ffff) {
            Some(x) => Some(x as i32),
            None => None,
        }
    }
}

/// `str::parse::<i32>` on a whole string.
pub fn parse_i32(s: &str) -> (r: Option<i32>)
    ensures
        r == spec_parse_i32(s@),
{
    let v = chars_of(s);
    assert(v@.subrange(0, v@.len() as int) =~= s@);
    parse_i32_in(&v, 0, v.len())
}

/// `str::parse::<u32>` on a whole string.
pub fn parse_u32(s: &str) -> (r: Option<u32>)
    ensures
        r == spec_parse_u32(s@),
{
    let v = chars_of(s);
    assert(v@.subrange(0, v@.len() as int) =~= s@);
    parse_u32_in(&v, 0, v.len())
}

// ── Whitespace-separated fields ──────────────────────────────────────

/// Unicode `White_Space`, which `char::is_whitespace` tests.
pub open spec fn is_whitespace(c: char) -> bool {
    ('\u{9}' <= c && c <= '\u{d}') || c == ' ' || c == '\u{85}' || c == '\u{a0}' || c == '\u{1680}'
        || ('\u{2000}' <= c && c <= '\u{200a}') || c == '\u{2028}' || c == '\u{2029}' || c
        == '\u{202f}' || c == '\u{205f}' || c == '\u{3000}'
}

/// Whether a character is whitespace.
pub fn char_is_whitespace(c: char) -> (r: bool)
    ensures
        r == is_whitespace(c),
{
    ('\u{9}' <= c && c <= '\u{d}') || c == ' ' || c == '\u{85}' || c == '\u{a0}' || c == '\u{1680}'
        || ('\u{2000}' <= c && c <= '\u{200a}') || c == '\u{2028}' || c == '\u{2029}' || c
        == '\u{202f}' || c == '\u{205f}' || c == '\u{3000}'
}

/// The fields of a text (`str::split_whitespace`): its maximal runs of
/// characters that are not whitespace, in order.
pub open spec fn fields(s: Seq<char>) -> Seq<Seq<char>>
    decreases s.len(),
{
    if s.len() == 0 {
        Seq::empty()
    } else {
        let before = fields(s.drop_last());
        let c = s.last();
        if is_whitespace(c) {
            before
        } else if s.len() > 1 && !is_whitespace(s[s.len() - 2]) {
            before.drop_last().push(before.last().push(c))
        } else {
            before.push(seq![c])
        }
    }
}

/// The fields of an ASCII text are ASCII.
pub proof fn lemma_fields_ascii(s: Seq<char>)
    requires
        all_ascii(s),
    ensures
        forall|k: int| 0 <= k < fields(s).len() ==> all_ascii(#[trigger] fields(s)[k]),
    decreases s.len(),
{
    if s.len() > 0 {
        let t = s.drop_last();
        assert(all_ascii(t)) by {
            assert forall|i: int| 0 <= i < t.len() implies (#[trigger] t[i] as u32) < 128 by {
                assert(t[i] == s[i]);
            }
        }
        lemma_fields_ascii(t);
        let before = fields(t);
        let c = s.last();
        assert((s[s.len() - 1] as u32) < 128);
        if !is_whitespace(c) {
            if s.len() > 1 && !is_whitespace(s[s.len() - 2]) {
                if before.len() > 0 {
                    let w = before.last().push(c);
                    assert(all_ascii(before[before.len() - 1]));
                    assert(all_ascii(w)) by {
                        assert forall|i: int| 0 <= i < w.len() implies (#[trigger] w[i] as u32) < 128 by {
                            if i < w.len() - 1 {
                                assert(w[i] == before.last()[i]);
                            }
                        }
                    }
                    assert forall|k: int| 0 <= k < fields(s).len() implies all_ascii(#[trigger] fields(s)[k]) by {
                        if k < before.len() - 1 {
                            assert(fields(s)[k] == before[k]);
                        } else {
                            assert(fields(s)[k] == w);
                        }
                    }
                }
            } else {
                let w = seq![c];
                assert(all_ascii(w));
                assert forall|k: int| 0 <= k < fields(s).len() implies all_ascii(#[trigger] fields(s)[k]) by {
                    if k < before.len() {
                        assert(fields(s)[k] == before[k]);
                    } else {
                        assert(fields(s)[k] == w);
                    }
                }
            }
        }
    }
}

/// The views of a sequence of character vectors.
pub open spec fn texts(vs: Seq<Vec<char>>) -> Seq<Seq<char>> {
    vs.map_values(|t: Vec<char>| t@)
}

/// Splits a text into its fields.
pub fn split_fields(v: &Vec<char>) -> (r: Vec<Vec<char>>)
    ensures
        texts(r@) == fields(v@),
{
    let mut out: Vec<Vec<char>> = Vec::new();
    let mut cur: Vec<char> = Vec::new();
    let mut i: usize = 0;
    while i < v.len()
        invariant
            i <= v@.len(),
            cur@.len() == 0 ==> texts(out@) == fields(v@.take(i as int)),
            cur@.len() == 0 ==> (i == 0 || is_whitespace(v@[i - 1])),
            cur@.len() > 0 ==> texts(out@).push(cur@) == fields(v@.take(i as int)),
            cur@.len() > 0 ==> (i > 0 && !is_whitespace(v@[i - 1])),
        decreases v@.len() - i,
    {
        let c = v[i];
        let ghost t = v@.take(i + 1);
        assert(t.drop_last() =~= v@.take(i as int));
        assert(t.last() == c);
        assert(i > 0 ==> t[t.len() - 2] == v@[i - 1]);
        if char_is_whitespace(c) {
            if cur.len() > 0 {
                let done = cur;
                cur = Vec::new();
                let ghost before = out@;
                out.push(done);
                assert(texts(out@) =~= texts(before).push(done@));
            }
        } else {
            let ghost before = cur@;
            cur.push(c);
            assert(texts(out@).push(cur@) =~= fields(t)) by {
                let f = fields(v@.take(i as int));
                if before.len() > 0 {
                    assert(f.drop_last() =~= texts(out@));
                    assert(f.last() == before);
                    assert(fields(t) == f.drop_last().push(f.last().push(c)));
                } else {
                    assert(cur@ =~= seq![c]);
                    assert(fields(t) == f.push(seq![c]));
                }
            }
        }
        i += 1;
    }
    assert(v@.take(v@.len() as int) =~= v@);
    if cur.len() > 0 {
        let ghost before = out@;
        out.push(cur);
        assert(texts(out@) =~= texts(before).push(cur@));
    }
    out
}

// ── Case ─────────────────────────────────────────────────────────────

/// Whether every character is ASCII.
pub open spec fn all_ascii(s: Seq<char>) -> bool {
    forall|i: int| 0 <= i < s.len() ==> (#[trigger] s[i] as u32) < 128
}

/// An ASCII character in lower case: `A`..`Z` become `a`..`z`, every
/// other character is kept.
pub open spec fn ascii_lower_char(c: char) -> char {
    if 'A' <= c && c <= 'Z' {
        ((c as u32) + 32) as char
    } else {
        c
    }
}

/// A text in lower case under Unicode's case mapping, which
/// `str::to_lowercase` computes.
pub uninterp spec fn lowercase_of(s: Seq<char>) -> Seq<char>;

/// `str::to_lowercase`: the lowercase equivalent of a string under
/// Unicode's `Lowercase` mapping.  Its result is named by
/// `lowercase_of`; the contract adds only what that mapping does to an
/// all-ASCII text, which keeps its length and lowers `A`..`Z`.
#[verifier::external_body]
pub fn to_lowercase(s: &str) -> (r: String)
    ensures
        r@ == lowercase_of(s@),
        all_ascii(s@) ==> r@ == s@.map_values(|c: char| ascii_lower_char(c)),
{
    s.to_lowercase()
}

} // verus!
