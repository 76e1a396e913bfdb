//! Stable sorting by a ranking relation. `stable_sort` is insertion sort
//! over the input order: each element goes in front of the first element
//! that outranks it, so elements of equal rank keep their input order.
use vstd::prelude::*;
use crate::text::{str_lt, text_lt};

verus! {

/// A type with a "sorts after" relation.
pub trait Ranked: Sized {
    spec fn rank_gt(self, other: Self) -> bool;

    fn gt(&self, other: &Self) -> (r: bool)
        ensures
            r == self.rank_gt(*other),
    ;
}

/// `x` inserted in front of the first element of `s` that outranks it.
pub open spec fn insert_sorted<T: Ranked>(s: Seq<T>, x: T) -> Seq<T>
    decreases s.len(),
{
    if s.len() == 0 {
        seq![x]
    } else if s[0].rank_gt(x) {
        seq![x] + s
    } else {
        seq![s[0]] + insert_sorted(s.drop_first(), x)
    }
}

/// The stable sort of `s`.
pub open spec fn stable_sort<T: Ranked>(s: Seq<T>) -> Seq<T>
    decreases s.len(),
{
    if s.len() == 0 {
        Seq::empty()
    } else {
        insert_sorted(stable_sort(s.drop_last()), s.last())
    }
}

/// Sorting only rearranges: every element of the result is an element
/// of the input.
pub proof fn lemma_sort_members<T: Ranked>(s: Seq<T>)
    ensures
        stable_sort(s).len() == s.len(),
        forall|i: int| 0 <= i < s.len() ==> s.contains(#[trigger] stable_sort(s)[i]),
    decreases s.len(),
{
    if s.len() > 0 {
        let t = s.drop_last();
        lemma_sort_members(t);
        lemma_insert_members(stable_sort(t), s.last());
        assert forall|i: int| 0 <= i < s.len() implies s.contains(#[trigger] stable_sort(s)[i]) by {
            let y = stable_sort(s)[i];
            if y != s.last() {
                let j = choose|j: int| 0 <= j < stable_sort(t).len() && stable_sort(t)[j] == y;
                let k = choose|k: int| 0 <= k < t.len() && t[k] == stable_sort(t)[j];
                assert(s[k] == y);
            } else {
                assert(s[s.len() - 1] == y);
            }
        }
    }
}

proof fn lemma_insert_members<T: Ranked>(s: Seq<T>, x: T)
    ensures
        insert_sorted(s, x).len() == s.len() + 1,
        forall|i: int| 0 <= i < s.len() + 1 ==> (#[trigger] insert_sorted(s, x)[i] == x || s.contains(insert_sorted(s, x)[i])),
    decreases s.len(),
{
    if s.len() > 0 && !s[0].rank_gt(x) {
        let t = s.drop_first();
        lemma_insert_members(t, x);
        assert forall|i: int| 0 <= i < s.len() + 1 implies (#[trigger] insert_sorted(s, x)[i] == x || s.contains(insert_sorted(s, x)[i])) by {
            if i > 0 {
                let y = insert_sorted(t, x)[i - 1];
                assert(insert_sorted(s, x)[i] == y);
                if y != x {
                    let k = choose|k: int| 0 <= k < t.len() && t[k] == y;
                    assert(s[k + 1] == y);
                }
            } else {
                assert(s[0] == insert_sorted(s, x)[0]);
            }
        }
    } else if s.len() > 0 {
        assert forall|i: int| 0 <= i < s.len() + 1 implies (#[trigger] insert_sorted(s, x)[i] == x || s.contains(insert_sorted(s, x)[i])) by {
            if i > 0 {
                assert(s[i - 1] == insert_sorted(s, x)[i]);
            }
        }
    }
}

proof fn lemma_insert_at<T: Ranked>(s: Seq<T>, x: T, p: int)
    requires
        0 <= p <= s.len(),
        forall|j: int| 0 <= j < p ==> !(#[trigger] s[j]).rank_gt(x),
        p < s.len() ==> s[p].rank_gt(x),
    ensures
        insert_sorted(s, x) == s.insert(p, x),
    decreases p,
{
    if p == 0 {
        if s.len() > 0 {
            assert(seq![x] + s =~= s.insert(0, x));
        } else {
            assert(seq![x] =~= s.insert(0, x));
        }
    } else {
        let t = s.drop_first();
        assert forall|j: int| 0 <= j < p - 1 implies !(#[trigger] t[j]).rank_gt(x) by {
            assert(t[j] == s[j + 1]);
        }
        lemma_insert_at(t, x, p - 1);
        assert(seq![s[0]] + t.insert(p - 1, x) =~= s.insert(p, x));
    }
}

/// `x` inserted into `v` as `insert_sorted` places it.
fn insert_by_rank<T: Ranked>(v: &mut Vec<T>, x: T)
    ensures
        final(v)@ == insert_sorted(old(v)@, x),
{
    let mut p: usize = 0;
    while p < v.len() && !v[p].gt(&x)
        invariant
            p <= v.len(),
            v@ == old(v)@,
            forall|j: int| 0 <= j < p ==> !(#[trigger] v@[j]).rank_gt(x),
        decreases v.len() - p,
    {
        p = p + 1;
    }
    proof {
        lemma_insert_at(v@, x, p as int);
    }
    v.insert(p, x);
}

/// The stable sort of `v` (what `sort_by` on the rank computes).
pub fn sort_stable<T: Ranked>(v: Vec<T>) -> (r: Vec<T>)
    ensures
        r@ == stable_sort(v@),
{
    let ghost v0 = v@;
    assert(v0.len() == v.len());
    let mut rest = v;
    let mut out: Vec<T> = Vec::new();
    let mut k: usize = 0;
    assert(v0.take(0) =~= Seq::<T>::empty());
    while rest.len() > 0
        invariant
            k <= v0.len(),
            rest@ == v0.skip(k as int),
            rest.len() == v0.len() - k,
            v0.len() <= usize::MAX,
            out@ == stable_sort(v0.take(k as int)),
        decreases rest.len(),
    {
        let x = rest.remove(0);
        proof {
            assert(x == v0[k as int]);
            assert(v0.take(k + 1).drop_last() =~= v0.take(k as int));
            assert(v0.take(k + 1).last() == v0[k as int]);
            assert(rest@ =~= v0.skip(k + 1));
        }
        insert_by_rank(&mut out, x);
        k = k + 1;
    }
    assert(v0.take(k as int) =~= v0);
    out
}

/// The character sequences of a sequence of strings.
pub open spec fn texts(v: Seq<String>) -> Seq<Seq<char>> {
    v.map_values(|s: String| s@)
}

/// `insert_sorted` over text values in byte-wise order.
pub open spec fn insert_text(s: Seq<Seq<char>>, x: Seq<char>) -> Seq<Seq<char>>
    decreases s.len(),
{
    if s.len() == 0 {
        seq![x]
    } else if text_lt(x, s[0]) {
        seq![x] + s
    } else {
        seq![s[0]] + insert_text(s.drop_first(), x)
    }
}

/// The byte-wise sort of text values (`Vec<String>::sort`).
pub open spec fn sort_text(s: Seq<Seq<char>>) -> Seq<Seq<char>>
    decreases s.len(),
{
    if s.len() == 0 {
        Seq::empty()
    } else {
        insert_text(sort_text(s.drop_last()), s.last())
    }
}

proof fn lemma_insert_texts(s: Seq<String>, x: String)
    ensures
        texts(insert_sorted(s, x)) == insert_text(texts(s), x@),
    decreases s.len(),
{
    if s.len() > 0 {
        if !s[0].rank_gt(x) {
            lemma_insert_texts(s.drop_first(), x);
            assert(texts(s).drop_first() =~= texts(s.drop_first()));
            assert(texts(seq![s[0]] + insert_sorted(s.drop_first(), x)) =~= seq![s[0]@] + texts(insert_sorted(s.drop_first(), x)));
        } else {
            assert(texts(seq![x] + s) =~= seq![x@] + texts(s));
        }
    } else {
        assert(texts(seq![x]) =~= seq![x@]);
    }
}

/// Sorting strings and then reading their text is sorting the texts.
pub proof fn lemma_sort_texts(v: Seq<String>)
    ensures
        texts(stable_sort(v)) == sort_text(texts(v)),
    decreases v.len(),
{
    if v.len() > 0 {
        lemma_sort_texts(v.drop_last());
        lemma_insert_texts(stable_sort(v.drop_last()), v.last());
        assert(texts(v).drop_last() =~= texts(v.drop_last()));
    } else {
        assert(texts(v) =~= Seq::<Seq<char>>::empty());
        assert(texts(stable_sort(v)) =~= Seq::<Seq<char>>::empty());
    }
}

/// `v.sort()` for strings, read as texts.
pub fn sort_strings(v: Vec<String>) -> (r: Vec<String>)
    ensures
        texts(r@) == sort_text(texts(v@)),
{
    proof {
        lemma_sort_texts(v@);
    }
    sort_stable(v)
}

impl Ranked for String {
    open spec fn rank_gt(self, other: Self) -> bool {
        text_lt(other@, self@)
    }

    fn gt(&self, other: &Self) -> (r: bool) {
        str_lt(other.as_str(), self.as_str())
    }
}


/// Whether some string of `v` has the text of `x`.
pub fn text_in(v: &[String], x: &str) -> (r: bool)
    ensures
        r == texts(v@).contains(x@),
{
    let mut i: usize = 0;
    while i < v.len()
        invariant
            i <= v.len(),
            forall|k: int| 0 <= k < i ==> (#[trigger] v@[k])@ != x@,
        decreases v.len() - i,
    {
        if crate::text::str_eq(v[i].as_str(), x) {
            assert(texts(v@)[i as int] == x@);
            return true;
        }
        i = i + 1;
    }
    proof {
        if texts(v@).contains(x@) {
            let k = choose|k: int| 0 <= k < texts(v@).len() && texts(v@)[k] == x@;
            assert(v@[k]@ == x@);
        }
    }
    false
}
} // verus!
