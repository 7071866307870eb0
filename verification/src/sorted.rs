//! Lexicographic order on character sequences (the order of `String`'s `Ord`,
//! since UTF-8 byte order agrees with code-point order) and sorted,
//! duplicate-free string vectors.
use crate::text::{chars_vec, str_eq};
use vstd::prelude::*;

verus! {

/// `a` sorts strictly before `b`.
pub open spec fn lex_lt(a: Seq<char>, b: Seq<char>) -> bool
    decreases a.len(),
{
    if a.len() == 0 {
        b.len() > 0
    } else if b.len() == 0 {
        false
    } else if a[0] < b[0] {
        true
    } else if a[0] > b[0] {
        false
    } else {
        lex_lt(a.drop_first(), b.drop_first())
    }
}

pub proof fn lemma_lex_irreflexive(a: Seq<char>)
    ensures
        !lex_lt(a, a),
    decreases a.len(),
{
    if a.len() > 0 {
        lemma_lex_irreflexive(a.drop_first());
    }
}

pub proof fn lemma_lex_asymmetric(a: Seq<char>, b: Seq<char>)
    ensures
        lex_lt(a, b) ==> !lex_lt(b, a),
    decreases a.len(),
{
    if a.len() > 0 && b.len() > 0 {
        lemma_lex_asymmetric(a.drop_first(), b.drop_first());
    }
}

pub proof fn lemma_lex_total(a: Seq<char>, b: Seq<char>)
    ensures
        a != b ==> lex_lt(a, b) || lex_lt(b, a),
    decreases a.len(),
{
    if a.len() > 0 && b.len() > 0 {
        lemma_lex_total(a.drop_first(), b.drop_first());
        if a[0] == b[0] && a.drop_first() == b.drop_first() {
            assert(a =~= seq![a[0]] + a.drop_first());
            assert(b =~= seq![b[0]] + b.drop_first());
        }
    } else if a.len() == 0 && b.len() == 0 {
        assert(a =~= b);
    }
}

pub proof fn lemma_lex_transitive(a: Seq<char>, b: Seq<char>, c: Seq<char>)
    ensures
        lex_lt(a, b) && lex_lt(b, c) ==> lex_lt(a, c),
    decreases a.len(),
{
    if a.len() > 0 && b.len() > 0 && c.len() > 0 {
        lemma_lex_transitive(a.drop_first(), b.drop_first(), c.drop_first());
    }
}

/// Every element sorts strictly before every later one.
pub open spec fn strictly_sorted(s: Seq<Seq<char>>) -> bool {
    forall|i: int, j: int| 0 <= i < j < s.len() ==> lex_lt(#[trigger] s[i], #[trigger] s[j])
}

/// Whether `a` sorts strictly before `b`.
pub fn lex_less(a: &Vec<char>, b: &Vec<char>) -> (r: bool)
    ensures
        r == lex_lt(a@, b@),
{
    let mut i: usize = 0;
    assert(a@.subrange(0, a@.len() as int) =~= a@);
    assert(b@.subrange(0, b@.len() as int) =~= b@);
    while i < a.len() && i < b.len()
        invariant
            i <= a@.len(),
            i <= b@.len(),
            lex_lt(a@, b@) == lex_lt(a@.subrange(i as int, a@.len() as int), b@.subrange(i as int, b@.len() as int)),
        decreases a.len() - i,
    {
        let x = a[i];
        let y = b[i];
        let ghost sa = a@.subrange(i as int, a@.len() as int);
        let ghost sb = b@.subrange(i as int, b@.len() as int);
        assert(sa[0] == a@[i as int]);
        assert(sb[0] == b@[i as int]);
        if x < y {
            return true;
        }
        if x > y {
            return false;
        }
        assert(sa.drop_first() =~= a@.subrange(i + 1, a@.len() as int));
        assert(sb.drop_first() =~= b@.subrange(i + 1, b@.len() as int));
        i = i + 1;
    }
    i < b.len()
}

pub fn str_less(a: &str, b: &str) -> (r: bool)
    ensures
        r == lex_lt(a@, b@),
{
    let av = chars_vec(a);
    let bv = chars_vec(b);
    lex_less(&av, &bv)
}

/// Inserts `x` into a strictly sorted vector unless an equal string is already there.
pub fn insert_sorted(v: &mut Vec<String>, x: String)
    requires
        strictly_sorted(old(v).deep_view()),
    ensures
        strictly_sorted(final(v).deep_view()),
        final(v).deep_view().to_set() == old(v).deep_view().to_set().insert(x@),
{
    let ghost old_dv = v.deep_view();
    let mut p: usize = 0;
    while p < v.len() && str_less(v[p].as_str(), x.as_str())
        invariant
            p <= v@.len(),
            v.deep_view() == old_dv,
            forall|k: int| 0 <= k < p ==> lex_lt(#[trigger] old_dv[k], x@),
        decreases v.len() - p,
    {
        p = p + 1;
    }
    if p < v.len() && str_eq(v[p].as_str(), x.as_str()) {
        assert(old_dv[p as int] == x@);
        assert(old_dv.to_set().insert(x@) =~= old_dv.to_set()) by {
            assert(old_dv.contains(x@));
        }
        return;
    }
    v.insert(p, x);
    let ghost new_dv = v.deep_view();
    assert(new_dv =~= old_dv.insert(p as int, x@));
    proof {
        if p < old_dv.len() {
            lemma_lex_total(old_dv[p as int], x@);
        }
        assert forall|i: int, j: int| 0 <= i < j < new_dv.len() implies lex_lt(
            #[trigger] new_dv[i],
            #[trigger] new_dv[j],
        ) by {
            if j < p {
            } else if j == p {
            } else if i < p {
                // old_dv[i] < x < old_dv[p] <= old_dv[j - 1]
                if p < old_dv.len() {
                    lemma_lex_transitive(old_dv[i], x@, old_dv[p as int]);
                    if p < j - 1 {
                        lemma_lex_transitive(old_dv[i], old_dv[p as int], old_dv[j - 1]);
                    }
                }
            } else if i == p {
                if p < j - 1 {
                    lemma_lex_transitive(x@, old_dv[p as int], old_dv[j - 1]);
                }
            } else {
                assert(new_dv[i] == old_dv[i - 1]);
                assert(new_dv[j] == old_dv[j - 1]);
            }
        }
        assert forall|s: Seq<char>| #[trigger] new_dv.to_set().contains(s)
            == old_dv.to_set().insert(x@).contains(s) by {
            if new_dv.contains(s) {
                let k = choose|k: int| 0 <= k < new_dv.len() && new_dv[k] == s;
                if k < p {
                    assert(old_dv[k] == s);
                } else if k > p {
                    assert(old_dv[k - 1] == s);
                }
            }
            if old_dv.contains(s) {
                let k = choose|k: int| 0 <= k < old_dv.len() && old_dv[k] == s;
                if k < p {
                    assert(new_dv[k] == s);
                } else {
                    assert(new_dv[k + 1] == s);
                }
            }
            if s == x@ {
                assert(new_dv[p as int] == s);
            }
        }
        assert(new_dv.to_set() =~= old_dv.to_set().insert(x@));
    }
}

/// The distinct strings of `items`, in ascending order.
pub fn sorted_unique(items: &Vec<String>) -> (r: Vec<String>)
    ensures
        strictly_sorted(r.deep_view()),
        r.deep_view().to_set() == items.deep_view().to_set(),
{
    let mut out: Vec<String> = Vec::new();
    let mut i: usize = 0;
    assert(out.deep_view().to_set() =~= items.deep_view().subrange(0, 0).to_set());
    while i < items.len()
        invariant
            i <= items@.len(),
            strictly_sorted(out.deep_view()),
            out.deep_view().to_set() == items.deep_view().subrange(0, i as int).to_set(),
        decreases items.len() - i,
    {
        insert_sorted(&mut out, items[i].clone());
        proof {
            let d = items.deep_view();
            assert(d.subrange(0, i + 1) =~= d.subrange(0, i as int).push(d[i as int]));
            d.subrange(0, i as int).lemma_push_to_set_commute(d[i as int]);
        }
        i = i + 1;
    }
    assert(items.deep_view().subrange(0, items@.len() as int) =~= items.deep_view());
    out
}

/// The ascending, duplicate-free listing of a finite set of strings.
pub open spec fn sorted_of(set: Set<Seq<char>>) -> Seq<Seq<char>> {
    choose|s: Seq<Seq<char>>| strictly_sorted(s) && s.to_set() == set
}

proof fn lemma_sorted_same_set(a: Seq<Seq<char>>, b: Seq<Seq<char>>)
    requires
        strictly_sorted(a),
        strictly_sorted(b),
        a.to_set() == b.to_set(),
    ensures
        a == b,
    decreases a.len(),
{
    if a.len() == 0 {
        if b.len() > 0 {
            assert(b.to_set().contains(b[0]));
        }
        assert(a =~= b);
    } else {
        assert(a.to_set().contains(a[0]));
        assert(b.contains(a[0]));
        let j = choose|j: int| 0 <= j < b.len() && b[j] == a[0];
        assert(b.to_set().contains(b[0]));
        assert(a.contains(b[0]));
        let i = choose|i: int| 0 <= i < a.len() && a[i] == b[0];
        if j > 0 {
            assert(lex_lt(b[0], b[j]));
            if i > 0 {
                assert(lex_lt(a[0], a[i]));
                lemma_lex_asymmetric(a[0], a[i]);
            } else {
                lemma_lex_irreflexive(a[0]);
            }
        }
        assert(a[0] == b[0]);
        let ta = a.drop_first();
        let tb = b.drop_first();
        assert forall|x: Seq<char>| ta.to_set().contains(x) == tb.to_set().contains(x) by {
            if ta.contains(x) {
                let k = choose|k: int| 0 <= k < ta.len() && ta[k] == x;
                assert(a[k + 1] == x);
                assert(lex_lt(a[0], a[k + 1]));
                lemma_lex_irreflexive(x);
                assert(a.to_set().contains(x));
                assert(b.contains(x));
                let m = choose|m: int| 0 <= m < b.len() && b[m] == x;
                assert(m != 0);
                assert(tb[m - 1] == x);
                assert(tb.contains(x));
            }
            if tb.contains(x) {
                let k = choose|k: int| 0 <= k < tb.len() && tb[k] == x;
                assert(b[k + 1] == x);
                assert(lex_lt(b[0], b[k + 1]));
                lemma_lex_irreflexive(x);
                assert(b.to_set().contains(x));
                assert(a.contains(x));
                let m = choose|m: int| 0 <= m < a.len() && a[m] == x;
                assert(m != 0);
                assert(ta[m - 1] == x);
                assert(ta.contains(x));
            }
        }
        assert(ta.to_set() =~= tb.to_set());
        lemma_sorted_same_set(ta, tb);
        assert(a =~= seq![a[0]] + ta);
        assert(b =~= seq![b[0]] + tb);
    }
}

/// A strictly sorted sequence is the sorted listing of its own elements.
pub proof fn lemma_sorted_of(s: Seq<Seq<char>>)
    requires
        strictly_sorted(s),
    ensures
        sorted_of(s.to_set()) == s,
{
    let w = sorted_of(s.to_set());
    assert(strictly_sorted(w) && w.to_set() == s.to_set());
    lemma_sorted_same_set(w, s);
}


/// `s` with `x` put at its place, unless `s` already holds it.
pub open spec fn insert_lex(s: Seq<Seq<char>>, x: Seq<char>) -> Seq<Seq<char>>
    decreases s.len(),
{
    if s.len() == 0 {
        seq![x]
    } else if x == s[0] {
        s
    } else if lex_lt(x, s[0]) {
        seq![x] + s
    } else {
        seq![s[0]] + insert_lex(s.drop_first(), x)
    }
}

proof fn lemma_insert_lex(s: Seq<Seq<char>>, x: Seq<char>)
    requires
        strictly_sorted(s),
    ensures
        strictly_sorted(insert_lex(s, x)),
        insert_lex(s, x).to_set() == s.to_set().insert(x),
    decreases s.len(),
{
    let r = insert_lex(s, x);
    if s.len() == 0 {
        assert(r.to_set() =~= s.to_set().insert(x)) by {
            assert forall|y: Seq<char>| r.to_set().contains(y) <==> s.to_set().insert(x).contains(y) by {
                if y == x {
                    assert(r[0] == x);
                }
            }
        }
    } else if x == s[0] {
        assert(s.to_set().contains(x));
        assert(r.to_set() =~= s.to_set().insert(x));
    } else if lex_lt(x, s[0]) {
        assert forall|i: int, j: int| 0 <= i < j < r.len() implies lex_lt(#[trigger] r[i], #[trigger] r[j]) by {
            if i == 0 {
                assert(r[j] == s[j - 1]);
                if j - 1 > 0 {
                    assert(lex_lt(s[0], s[j - 1]));
                    lemma_lex_transitive(x, s[0], s[j - 1]);
                }
            } else {
                assert(r[i] == s[i - 1] && r[j] == s[j - 1]);
            }
        }
        assert(r.to_set() =~= s.to_set().insert(x)) by {
            assert forall|y: Seq<char>| r.to_set().contains(y) <==> s.to_set().insert(x).contains(y) by {
                if r.to_set().contains(y) {
                    let k = choose|k: int| 0 <= k < r.len() && r[k] == y;
                    if k > 0 {
                        assert(s[k - 1] == y);
                    }
                }
                if s.to_set().contains(y) {
                    let k = choose|k: int| 0 <= k < s.len() && s[k] == y;
                    assert(r[k + 1] == y);
                }
                if y == x {
                    assert(r[0] == x);
                }
            }
        }
    } else {
        lemma_lex_total(x, s[0]);
        let t = s.drop_first();
        assert(strictly_sorted(t)) by {
            assert forall|i: int, j: int| 0 <= i < j < t.len() implies lex_lt(#[trigger] t[i], #[trigger] t[j]) by {
                assert(t[i] == s[i + 1] && t[j] == s[j + 1]);
            }
        }
        lemma_insert_lex(t, x);
        let rt = insert_lex(t, x);
        assert(r == seq![s[0]] + rt);
        assert forall|k: int| 0 <= k < rt.len() implies lex_lt(s[0], #[trigger] rt[k]) by {
            assert(rt.to_set().contains(rt[k]));
            if rt[k] != x {
                assert(t.to_set().contains(rt[k]));
                let m = choose|m: int| 0 <= m < t.len() && t[m] == rt[k];
                assert(s[m + 1] == rt[k]);
            }
        }
        assert forall|i: int, j: int| 0 <= i < j < r.len() implies lex_lt(#[trigger] r[i], #[trigger] r[j]) by {
            if i == 0 {
                assert(r[j] == rt[j - 1]);
            } else {
                assert(r[i] == rt[i - 1] && r[j] == rt[j - 1]);
            }
        }
        assert(r.to_set() =~= s.to_set().insert(x)) by {
            assert forall|y: Seq<char>| r.to_set().contains(y) <==> s.to_set().insert(x).contains(y) by {
                if r.to_set().contains(y) {
                    let k = choose|k: int| 0 <= k < r.len() && r[k] == y;
                    if k == 0 {
                        assert(s[0] == y);
                    } else {
                        assert(rt[k - 1] == y);
                        assert(rt.to_set().contains(y));
                        if y != x {
                            assert(t.to_set().contains(y));
                            let m = choose|m: int| 0 <= m < t.len() && t[m] == y;
                            assert(s[m + 1] == y);
                        }
                    }
                }
                if s.to_set().contains(y) {
                    let k = choose|k: int| 0 <= k < s.len() && s[k] == y;
                    if k == 0 {
                        assert(r[0] == y);
                    } else {
                        assert(t[k - 1] == y);
                        assert(rt.to_set().contains(y));
                        let m = choose|m: int| 0 <= m < rt.len() && rt[m] == y;
                        assert(r[m + 1] == y);
                    }
                }
                if y == x {
                    assert(rt.to_set().contains(x));
                    let m = choose|m: int| 0 <= m < rt.len() && rt[m] == x;
                    assert(r[m + 1] == x);
                }
            }
        }
    }
}

/// Every finite set of strings has its ascending listing.
pub proof fn lemma_sorted_listing_exists(set: Set<Seq<char>>)
    requires
        set.finite(),
    ensures
        strictly_sorted(sorted_of(set)),
        sorted_of(set).to_set() == set,
    decreases set.len(),
{
    if set.len() == 0 {
        set.lemma_len0_is_empty();
        let e = Seq::<Seq<char>>::empty();
        assert(e.to_set() =~= set);
        assert(strictly_sorted(e));
    } else {
        let x = set.choose();
        let rest = set.remove(x);
        lemma_sorted_listing_exists(rest);
        let s = sorted_of(rest);
        lemma_insert_lex(s, x);
        let w = insert_lex(s, x);
        assert(w.to_set() =~= set);
        assert(strictly_sorted(w));
    }
}

/// The listing of a finite set is empty exactly when the set is.
pub proof fn lemma_sorted_of_empty(set: Set<Seq<char>>)
    requires
        set.finite(),
    ensures
        (sorted_of(set).len() == 0) == (set == Set::<Seq<char>>::empty()),
{
    lemma_sorted_listing_exists(set);
    let s = sorted_of(set);
    if s.len() == 0 {
        assert(s.to_set() =~= Set::<Seq<char>>::empty());
    } else {
        assert(s.to_set().contains(s[0]));
    }
}

} // verus!
