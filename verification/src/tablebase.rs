//! The tablebase files a directory listing offers: the links of an HTML
//! page that end in `.rtbw` or `.rtbz`, sorted and without repeats.

use vstd::prelude::*;

use crate::text::chars_of;

verus! {

/// The `href` attribute of each `a` element of the HTML document, in
/// document order; `None` for an anchor without one.
pub uninterp spec fn anchor_hrefs_of(html: Seq<char>) -> Seq<Option<Seq<char>>>;

/// The text of each optional string.
pub open spec fn optional_texts(v: Seq<Option<String>>) -> Seq<Option<Seq<char>>> {
    v.map_values(
        |o: Option<String>|
            match o {
                Some(s) => Some(s@),
                None => None,
            },
    )
}

/// The text of each string.
pub open spec fn texts_of(v: Seq<String>) -> Seq<Seq<char>> {
    v.map_values(|s: String| s@)
}

/// Parses the document (`scraper::Html::parse_document`) and reads the
/// `href` attribute of every element the selector `a` matches
/// (`Html::select`, `Element::attr`), in document order.
#[verifier::external_body]
pub fn anchor_hrefs(html: &str) -> (r: Vec<Option<String>>)
    ensures
        optional_texts(r@) == anchor_hrefs_of(html@),
{
    let document = scraper::Html::parse_document(html);
    let selector = scraper::Selector::parse("a").unwrap();
    document.select(&selector).map(|e| e.value().attr("href").map(|h| h.to_string())).collect()
}

/// Whether `s` ends with `suffix`.
pub open spec fn ends_with(s: Seq<char>, suffix: Seq<char>) -> bool {
    suffix.len() <= s.len() && s.subrange(s.len() - suffix.len(), s.len() as int) == suffix
}

/// Whether a link names a tablebase file: WDL (`.rtbw`) or DTZ (`.rtbz`).
pub open spec fn is_tablebase_file(s: Seq<char>) -> bool {
    ends_with(s, ".rtbw"@) || ends_with(s, ".rtbz"@)
}

/// The characters before `k` agree.
pub open spec fn agree_upto(a: Seq<char>, b: Seq<char>, k: int) -> bool {
    forall|j: int| 0 <= j < k ==> a[j] == b[j]
}

/// `a` comes before `b` with their first difference at `k`: `a` ends
/// there while `b` goes on, or `a` has the smaller character there.
pub open spec fn before_at(a: Seq<char>, b: Seq<char>, k: int) -> bool {
    &&& 0 <= k <= a.len()
    &&& k <= b.len()
    &&& agree_upto(a, b, k)
    &&& ((k == a.len() && k < b.len()) || (k < a.len() && k < b.len() && a[k] < b[k]))
}

/// The order of strings: lexicographic by character, a proper prefix
/// first (the order of `String`, whose bytes in UTF-8 order as their
/// characters do).
pub open spec fn text_before(a: Seq<char>, b: Seq<char>) -> bool {
    exists|k: int| #[trigger] before_at(a, b, k)
}

/// Strictly increasing: sorted, and no text twice.
pub open spec fn strictly_increasing(s: Seq<Seq<char>>) -> bool {
    forall|i: int, j: int| 0 <= i < j < s.len() ==> text_before(#[trigger] s[i], #[trigger] s[j])
}

/// Two texts are never each before the other.
pub proof fn lemma_text_before_asymmetric(a: Seq<char>, b: Seq<char>)
    ensures
        !(text_before(a, b) && text_before(b, a)),
{
    if text_before(a, b) && text_before(b, a) {
        let k1 = choose|k: int| #[trigger] before_at(a, b, k);
        let k2 = choose|k: int| #[trigger] before_at(b, a, k);
        if k1 < k2 {
            assert(b[k1] == a[k1]);
        } else if k2 < k1 {
            assert(a[k2] == b[k2]);
        }
    }
}

/// The order is transitive.
pub proof fn lemma_text_before_transitive(a: Seq<char>, b: Seq<char>, c: Seq<char>)
    requires
        text_before(a, b),
        text_before(b, c),
    ensures
        text_before(a, c),
{
    let k1 = choose|k: int| #[trigger] before_at(a, b, k);
    let k2 = choose|k: int| #[trigger] before_at(b, c, k);
    let k = if k1 <= k2 {
        k1
    } else {
        k2
    };
    assert(agree_upto(a, c, k)) by {
        assert forall|j: int| 0 <= j < k implies a[j] == c[j] by {
            assert(a[j] == b[j]);
            assert(b[j] == c[j]);
        }
    }
    assert(before_at(a, c, k));
}

/// Where two texts stand in the order: negative when `a` comes first,
/// zero when they are equal, positive when `b` comes first.
pub fn text_order(a: &str, b: &str) -> (r: i8)
    ensures
        r < 0 <==> text_before(a@, b@),
        r == 0 <==> a@ == b@,
        r > 0 <==> text_before(b@, a@),
{
    let x = chars_of(a);
    let y = chars_of(b);
    let mut k: usize = 0;
    while k < x.len() && k < y.len() && x[k] == y[k]
        invariant
            x@ == a@,
            y@ == b@,
            k <= x@.len(),
            k <= y@.len(),
            agree_upto(a@, b@, k as int),
        decreases x@.len() - k,
    {
        k += 1;
    }
    proof {
        lemma_text_before_asymmetric(a@, b@);
        assert(agree_upto(b@, a@, k as int));
    }
    if k < x.len() && k < y.len() {
        if x[k] < y[k] {
            assert(before_at(a@, b@, k as int));
            assert(a@[k as int] != b@[k as int]);
            -1
        } else {
            assert(x@[k as int] != y@[k as int]);
            assert(before_at(b@, a@, k as int));
            1
        }
    } else if k < y.len() {
        assert(before_at(a@, b@, k as int));
        assert(a@.len() != b@.len());
        -1
    } else if k < x.len() {
        assert(before_at(b@, a@, k as int));
        assert(a@.len() != b@.len());
        1
    } else {
        assert(a@ =~= b@);
        proof {
            if text_before(a@, b@) {
                let j = choose|j: int| #[trigger] before_at(a@, b@, j);
                assert(false);
            }
        }
        0
    }
}

/// Whether the text ends with the suffix.
fn has_suffix(s: &str, suffix: &str) -> (r: bool)
    ensures
        r == ends_with(s@, suffix@),
{
    let x = chars_of(s);
    let y = chars_of(suffix);
    if y.len() > x.len() {
        return false;
    }
    let start = x.len() - y.len();
    let mut j: usize = start;
    while j < x.len()
        invariant
            x@ == s@,
            y@ == suffix@,
            y@.len() <= x@.len(),
            start == x@.len() - y@.len(),
            start <= j <= x@.len(),
            forall|t: int| start <= t < j ==> x@[t] == y@[t - start],
        decreases x@.len() - j,
    {
        if x[j] != y[j - start] {
            assert(s@.subrange(start as int, s@.len() as int)[j - start] != suffix@[j - start]);
            return false;
        }
        j += 1;
    }
    assert(s@.subrange(start as int, s@.len() as int) =~= suffix@);
    true
}

/// Puts `x` into its place in a strictly increasing list, unless it is
/// already there.
fn insert_in_order(v: &mut Vec<String>, x: String)
    requires
        strictly_increasing(texts_of(old(v)@)),
    ensures
        strictly_increasing(texts_of(final(v)@)),
        forall|s: Seq<char>| texts_of(final(v)@).contains(s) <==> (texts_of(old(v)@).contains(s) || s == x@),
{
    let ghost old_texts = texts_of(v@);
    let mut k: usize = 0;
    while k < v.len() && text_order(v[k].as_str(), x.as_str()) < 0
        invariant
            k <= v@.len(),
            texts_of(v@) == old_texts,
            strictly_increasing(old_texts),
            forall|j: int| 0 <= j < k ==> text_before(#[trigger] old_texts[j], x@),
        decreases v@.len() - k,
    {
        k += 1;
    }
    if k < v.len() && text_order(v[k].as_str(), x.as_str()) == 0 {
        proof {
            assert forall|s: Seq<char>| texts_of(v@).contains(s) <==> (old_texts.contains(s) || s == x@) by {
                if s == x@ {
                    assert(texts_of(v@)[k as int] == s);
                }
            }
        }
        return;
    }
    proof {
        if k < v@.len() {
            assert(text_before(x@, old_texts[k as int]));
        }
    }
    let ghost xs = x@;
    v.insert(k, x);
    proof {
        let t = texts_of(v@);
        assert(t =~= old_texts.insert(k as int, xs));
        assert forall|i: int, j: int| 0 <= i < j < t.len() implies text_before(#[trigger] t[i], #[trigger] t[j]) by {
            if j < k {
                assert(text_before(old_texts[i], old_texts[j]));
            } else if j == k {
                assert(text_before(old_texts[i], xs));
            } else if i > k {
                assert(text_before(old_texts[i - 1], old_texts[j - 1]));
            } else if i == k {
                assert(text_before(xs, old_texts[k as int]));
                if j - 1 > k {
                    assert(text_before(old_texts[k as int], old_texts[j - 1]));
                    lemma_text_before_transitive(xs, old_texts[k as int], old_texts[j - 1]);
                }
            } else {
                assert(text_before(old_texts[i], old_texts[j - 1]));
            }
        }
        assert forall|s: Seq<char>| t.contains(s) <==> (old_texts.contains(s) || s == xs) by {
            if old_texts.contains(s) {
                let j = choose|j: int| 0 <= j < old_texts.len() && old_texts[j] == s;
                if j < k {
                    assert(t[j] == s);
                } else {
                    assert(t[j + 1] == s);
                }
            }
            if s == xs {
                assert(t[k as int] == s);
            }
            if t.contains(s) {
                let j = choose|j: int| 0 <= j < t.len() && t[j] == s;
                if j < k {
                    assert(old_texts[j] == s);
                } else if j > k {
                    assert(old_texts[j - 1] == s);
                }
            }
        }
    }
}

/// The tablebase files a directory listing links to: the `href` of each
/// anchor that ends in `.rtbw` or `.rtbz`, sorted, each once.
pub fn tablebase_files(html: &str) -> (r: Vec<String>)
    ensures
        strictly_increasing(texts_of(r@)),
        forall|s: Seq<char>|
            texts_of(r@).contains(s) <==> (anchor_hrefs_of(html@).contains(Some(s)) && is_tablebase_file(s)),
{
    let hrefs = anchor_hrefs(html);
    let ghost links = optional_texts(hrefs@);
    let mut files: Vec<String> = Vec::new();
    let mut i: usize = 0;
    while i < hrefs.len()
        invariant
            i <= hrefs@.len(),
            links == optional_texts(hrefs@),
            strictly_increasing(texts_of(files@)),
            forall|s: Seq<char>|
                #![trigger texts_of(files@).contains(s)]
                #![trigger links.take(i as int).contains(Some(s))]
                texts_of(files@).contains(s) <==> (links.take(i as int).contains(Some(s)) && is_tablebase_file(s)),
        decreases hrefs@.len() - i,
    {
        proof {
            assert(links.take(i + 1) =~= links.take(i as int).push(links[i as int]));
        }
        let ghost before = texts_of(files@);
        match &hrefs[i] {
            Some(h) => {
                assert(links[i as int] == Some(h@));
                if has_suffix(h.as_str(), ".rtbw") || has_suffix(h.as_str(), ".rtbz") {
                    insert_in_order(&mut files, h.as_str().to_owned());
                }
                assert(forall|s: Seq<char>|
                    texts_of(files@).contains(s) <==> (before.contains(s) || (links[i as int] == Some(s)
                        && is_tablebase_file(s))));
            },
            None => {
                assert(links[i as int] is None);
                assert(forall|s: Seq<char>|
                    texts_of(files@).contains(s) <==> (before.contains(s) || (links[i as int] == Some(s)
                        && is_tablebase_file(s))));
            },
        }
        proof {
            assert forall|s: Seq<char>|
                texts_of(files@).contains(s) <==> (links.take(i + 1).contains(Some(s)) && is_tablebase_file(s)) by {
                let upto = links.take(i + 1);
                assert(before.contains(s) <==> (links.take(i as int).contains(Some(s)) && is_tablebase_file(s)));
                if upto.contains(Some(s)) {
                    let j = choose|j: int| 0 <= j < upto.len() && upto[j] == Some(s);
                    if j < i {
                        assert(links.take(i as int)[j] == Some(s));
                    }
                }
                if links.take(i as int).contains(Some(s)) {
                    let j = choose|j: int| 0 <= j < i && links.take(i as int)[j] == Some(s);
                    assert(links.take(i + 1)[j] == Some(s));
                }
                if links[i as int] == Some(s) {
                    assert(links.take(i + 1)[i as int] == Some(s));
                }
            }
        }
        i += 1;
    }
    proof {
        assert(links.take(hrefs@.len() as int) =~= links);
    }
    files
}

} // verus!
