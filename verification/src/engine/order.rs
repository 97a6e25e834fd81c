//! Stable ordering of scored items, highest score first: how the search
//! decides which moves to try first.

use vstd::prelude::*;

verus! {

broadcast use vstd::seq_lib::group_to_multiset_ensures;

/// Inserts `x` into a sequence after every item scoring at least as much
/// as `x`, so that among equal scores earlier items stay first.
pub open spec fn insert_desc<T>(s: Seq<(i32, T)>, x: (i32, T)) -> Seq<(i32, T)>
    decreases s.len(),
{
    if s.len() == 0 {
        seq![x]
    } else if s.last().0 >= x.0 {
        s.push(x)
    } else {
        insert_desc(s.drop_last(), x).push(s.last())
    }
}

/// The stable sort of a sequence by descending score.
pub open spec fn sort_desc<T>(s: Seq<(i32, T)>) -> Seq<(i32, T)>
    decreases s.len(),
{
    if s.len() == 0 {
        s
    } else {
        insert_desc(sort_desc(s.drop_last()), s.last())
    }
}

/// Whether scores never increase along the sequence.
pub open spec fn is_sorted_desc<T>(s: Seq<(i32, T)>) -> bool {
    forall|i: int, j: int| 0 <= i < j < s.len() ==> s[i].0 >= s[j].0
}

proof fn lemma_insert_split<T>(s: Seq<(i32, T)>, x: (i32, T), j: int)
    requires
        0 <= j <= s.len(),
        forall|k: int| j <= k < s.len() ==> s[k].0 < x.0,
    ensures
        insert_desc(s, x) =~= insert_desc(s.take(j), x) + s.skip(j),
    decreases s.len() - j,
{
    if j == s.len() {
        assert(s.take(j) =~= s);
        assert(s.skip(j) =~= Seq::<(i32, T)>::empty());
    } else {
        let t = s.drop_last();
        lemma_insert_split(t, x, j);
        assert(t.take(j) =~= s.take(j));
        assert(t.skip(j).push(s.last()) =~= s.skip(j));
    }
}

proof fn lemma_insert_at_boundary<T>(s: Seq<(i32, T)>, x: (i32, T))
    requires
        s.len() == 0 || s.last().0 >= x.0,
    ensures
        insert_desc(s, x) =~= s.push(x),
{
}

/// Inserts `x` where `insert_desc` places it.
fn insert_desc_exec<T: Copy>(out: &mut Vec<(i32, T)>, x: (i32, T))
    ensures
        final(out)@ == insert_desc(old(out)@, x),
{
    let mut j = out.len();
    while j > 0 && out[j - 1].0 < x.0
        invariant
            j <= out.len(),
            forall|k: int| j <= k < out@.len() ==> out@[k].0 < x.0,
        decreases j,
    {
        j -= 1;
    }
    proof {
        lemma_insert_split(out@, x, j as int);
        lemma_insert_at_boundary(out@.take(j as int), x);
    }
    let ghost before = out@;
    out.insert(j, x);
    assert(out@ =~= before.take(j as int).push(x) + before.skip(j as int));
}

/// Sorts scored items by descending score, keeping the input order
/// among equal scores (the order `sort_by` with a descending comparator
/// gives).
pub fn sort_by_score_desc<T: Copy>(v: &Vec<(i32, T)>) -> (r: Vec<(i32, T)>)
    ensures
        r@ == sort_desc(v@),
{
    let mut out: Vec<(i32, T)> = Vec::new();
    let mut i: usize = 0;
    while i < v.len()
        invariant
            i <= v.len(),
            out@ == sort_desc(v@.take(i as int)),
        decreases v.len() - i,
    {
        proof {
            assert(v@.take(i as int + 1).drop_last() =~= v@.take(i as int));
        }
        insert_desc_exec(&mut out, v[i]);
        i += 1;
    }
    proof {
        assert(v@.take(v.len() as int) =~= v@);
    }
    out
}

/// Every item of an insertion scores at least `m` when every item of the
/// sequence and the inserted item do.
proof fn lemma_insert_lower_bound<T>(s: Seq<(i32, T)>, x: (i32, T), m: int)
    requires
        forall|k: int| 0 <= k < s.len() ==> s[k].0 >= m,
        x.0 >= m,
    ensures
        forall|k: int| 0 <= k < insert_desc(s, x).len() ==> insert_desc(s, x)[k].0 >= m,
    decreases s.len(),
{
    if s.len() == 0 {
        assert(insert_desc(s, x) =~= seq![x]);
    } else if s.last().0 >= x.0 {
        assert(insert_desc(s, x) =~= s.push(x));
    } else {
        let t = s.drop_last();
        lemma_insert_lower_bound(t, x, m);
        let r = insert_desc(t, x);
        assert(insert_desc(s, x) =~= r.push(s.last()));
        assert(s.last().0 >= m);
    }
}

proof fn lemma_insert_sorted<T>(s: Seq<(i32, T)>, x: (i32, T))
    requires
        is_sorted_desc(s),
    ensures
        is_sorted_desc(insert_desc(s, x)),
        insert_desc(s, x).len() == s.len() + 1,
    decreases s.len(),
{
    if s.len() > 0 && s.last().0 < x.0 {
        let t = s.drop_last();
        lemma_insert_sorted(t, x);
        lemma_insert_lower_bound(t, x, s.last().0 as int);
    }
}

proof fn lemma_insert_multiset<T>(s: Seq<(i32, T)>, x: (i32, T))
    ensures
        insert_desc(s, x).to_multiset() =~= s.to_multiset().insert(x),
    decreases s.len(),
{
    if s.len() > 0 && s.last().0 < x.0 {
        let t = s.drop_last();
        lemma_insert_multiset(t, x);
        assert(t.push(s.last()) =~= s);
    } else if s.len() == 0 {
        assert(seq![x] =~= s.push(x));
    }
}

/// The sort yields its input's items in descending order of score.
pub proof fn lemma_sort_desc_sorted<T>(s: Seq<(i32, T)>)
    ensures
        is_sorted_desc(sort_desc(s)),
        sort_desc(s).len() == s.len(),
    decreases s.len(),
{
    if s.len() > 0 {
        lemma_sort_desc_sorted(s.drop_last());
        lemma_insert_sorted(sort_desc(s.drop_last()), s.last());
    }
}

/// The sort neither loses nor invents items.
pub proof fn lemma_sort_desc_permutation<T>(s: Seq<(i32, T)>)
    ensures
        sort_desc(s).to_multiset() =~= s.to_multiset(),
    decreases s.len(),
{
    if s.len() > 0 {
        let t = s.drop_last();
        lemma_sort_desc_permutation(t);
        lemma_insert_multiset(sort_desc(t), s.last());
        assert(t.push(s.last()) =~= s);
    }
}

/// Every item of the sorted sequence is an item of the input.
pub proof fn lemma_sort_desc_contains<T>(s: Seq<(i32, T)>)
    ensures
        forall|k: int| 0 <= k < sort_desc(s).len() ==> s.contains(#[trigger] sort_desc(s)[k]),
{
    lemma_sort_desc_permutation(s);
    assert forall|k: int| 0 <= k < sort_desc(s).len() implies s.contains(#[trigger] sort_desc(s)[k]) by {
        let x = sort_desc(s)[k];
        assert(sort_desc(s).contains(x));
        assert(sort_desc(s).to_multiset().count(x) > 0);
        assert(s.to_multiset().count(x) > 0);
    }
}

} // verus!
