//! Keeping the first occurrence of each string.
use crate::text::str_eq;
use vstd::prelude::*;

verus! {

/// The strings of `s` with later repeats of any string removed.
pub open spec fn keep_first(s: Seq<Seq<char>>) -> Seq<Seq<char>>
    decreases s.len(),
{
    if s.len() == 0 {
        s
    } else {
        let r = keep_first(s.drop_last());
        if r.contains(s.last()) {
            r
        } else {
            r.push(s.last())
        }
    }
}

/// Whether `list` holds a string equal to `x`.
pub fn contains_string(list: &Vec<String>, x: &str) -> (r: bool)
    ensures
        r == list.deep_view().contains(x@),
{
    let mut i: usize = 0;
    while i < list.len()
        invariant
            i <= list@.len(),
            forall|k: int| 0 <= k < i ==> list@[k]@ != x@,
        decreases list.len() - i,
    {
        if str_eq(list[i].as_str(), x) {
            assert(list.deep_view()[i as int] == x@);
            return true;
        }
        i = i + 1;
    }
    assert forall|k: int| 0 <= k < list.deep_view().len() implies list.deep_view()[k] != x@ by {
        assert(list.deep_view()[k] == list@[k]@);
    }
    false
}

pub proof fn lemma_keep_first_unique(s: Seq<Seq<char>>)
    ensures
        keep_first(s).no_duplicates(),
        keep_first(s).to_set() == s.to_set(),
    decreases s.len(),
{
    if s.len() > 0 {
        lemma_keep_first_unique(s.drop_last());
        let r = keep_first(s.drop_last());
        assert(s =~= s.drop_last().push(s.last()));
        s.drop_last().lemma_push_to_set_commute(s.last());
        if !r.contains(s.last()) {
            r.lemma_push_to_set_commute(s.last());
            assert forall|i: int, j: int| 0 <= i < j < r.push(s.last()).len() implies r.push(s.last())[i] != r.push(s.last())[j] by {
                if j == r.len() {
                    assert(r[i] == r.push(s.last())[i]);
                }
            }
        } else {
            assert(r.to_set().insert(s.last()) =~= r.to_set());
        }
    } else {
        assert(s.to_set() =~= Set::empty());
        assert(keep_first(s).to_set() =~= Set::empty());
    }
}

/// The strings of `s` for which `p` holds, in order.
pub open spec fn keep_if(s: Seq<Seq<char>>, p: spec_fn(Seq<char>) -> bool) -> Seq<Seq<char>>
    decreases s.len(),
{
    if s.len() == 0 {
        s
    } else {
        let r = keep_if(s.drop_last(), p);
        if p(s.last()) {
            r.push(s.last())
        } else {
            r
        }
    }
}

pub proof fn lemma_keep_if_contains(s: Seq<Seq<char>>, p: spec_fn(Seq<char>) -> bool, n: Seq<char>)
    ensures
        keep_if(s, p).contains(n) == (s.contains(n) && p(n)),
    decreases s.len(),
{
    if s.len() > 0 {
        let t = s.drop_last();
        lemma_keep_if_contains(t, p, n);
        let r = keep_if(t, p);
        if s.contains(n) && n != s.last() {
            let j = choose|j: int| 0 <= j < s.len() && s[j] == n;
            assert(t[j] == n);
        }
        if t.contains(n) {
            let j = choose|j: int| 0 <= j < t.len() && t[j] == n;
            assert(s[j] == n);
        }
        if s.last() == n {
            assert(s[s.len() - 1] == n);
        }
        if p(s.last()) {
            if r.push(s.last()).contains(n) && n != s.last() {
                let j = choose|j: int| 0 <= j < r.len() + 1 && r.push(s.last())[j] == n;
                assert(r[j] == n);
            }
            if r.contains(n) {
                let j = choose|j: int| 0 <= j < r.len() && r[j] == n;
                assert(r.push(s.last())[j] == n);
            }
            assert(r.push(s.last())[r.len() as int] == s.last());
        }
    }
}

} // verus!
