//! Character-level helpers on strings, with their specifications over `Seq<char>`.
use vstd::prelude::*;
use vstd::string::*;

verus! {

/// Appends one character to a string (`String::push`).
#[verifier::external_body]
pub(crate) fn push_char(s: &mut String, c: char)
    ensures
        final(s)@ == old(s)@.push(c),
{
    s.push(c);
}

/// The characters of a string, in order.
pub fn chars_vec(s: &str) -> (v: Vec<char>)
    ensures
        v@ == s@,
{
    let n = s.unicode_len();
    let mut v: Vec<char> = Vec::new();
    let mut i: usize = 0;
    while i < n
        invariant
            n == s@.len(),
            i <= n,
            v@ == s@.subrange(0, i as int),
        decreases n - i,
    {
        v.push(s.get_char(i));
        i = i + 1;
    }
    assert(s@.subrange(0, n as int) =~= s@);
    v
}

/// The string made of the given characters.
pub fn string_of(v: &[char]) -> (s: String)
    ensures
        s@ == v@,
{
    let mut s = String::new();
    let mut i: usize = 0;
    while i < v.len()
        invariant
            i <= v@.len(),
            s@ == v@.subrange(0, i as int),
        decreases v.len() - i,
    {
        push_char(&mut s, v[i]);
        i = i + 1;
    }
    assert(v@.subrange(0, v@.len() as int) =~= v@);
    s
}


/// `char::is_whitespace`: the Unicode `White_Space` property.
pub open spec fn is_ws(c: char) -> bool {
    let u = c as u32;
    ||| 9 <= u <= 13
    ||| u == 32
    ||| u == 0x85
    ||| u == 0xa0
    ||| u == 0x1680
    ||| 0x2000 <= u <= 0x200a
    ||| u == 0x2028
    ||| u == 0x2029
    ||| u == 0x202f
    ||| u == 0x205f
    ||| u == 0x3000
}

pub fn is_whitespace(c: char) -> (r: bool)
    ensures
        r == is_ws(c),
{
    let u = c as u32;
    (9 <= u && u <= 13) || u == 32 || u == 0x85 || u == 0xa0 || u == 0x1680 || (0x2000 <= u
        && u <= 0x200a) || u == 0x2028 || u == 0x2029 || u == 0x202f || u == 0x205f || u
        == 0x3000
}

pub open spec fn is_ascii_lower(c: char) -> bool {
    'a' as u32 <= c as u32 <= 'z' as u32
}

pub open spec fn is_ascii_upper(c: char) -> bool {
    'A' as u32 <= c as u32 <= 'Z' as u32
}

pub open spec fn is_ascii_digit(c: char) -> bool {
    '0' as u32 <= c as u32 <= '9' as u32
}

pub open spec fn is_ascii_alpha(c: char) -> bool {
    is_ascii_lower(c) || is_ascii_upper(c)
}

pub open spec fn is_ascii_alnum(c: char) -> bool {
    is_ascii_alpha(c) || is_ascii_digit(c)
}

/// `char::to_ascii_lowercase`.
pub open spec fn ascii_lower(c: char) -> char {
    if is_ascii_upper(c) {
        ((c as u32) + 32) as char
    } else {
        c
    }
}

/// `char::to_ascii_uppercase`.
pub open spec fn ascii_upper(c: char) -> char {
    if is_ascii_lower(c) {
        ((c as u32) - 32) as char
    } else {
        c
    }
}

pub fn is_ascii_lowercase(c: char) -> (r: bool)
    ensures
        r == is_ascii_lower(c),
{
    let u = c as u32;
    97 <= u && u <= 122
}

pub fn is_ascii_digit_char(c: char) -> (r: bool)
    ensures
        r == is_ascii_digit(c),
{
    let u = c as u32;
    48 <= u && u <= 57
}

pub fn is_ascii_alphanumeric(c: char) -> (r: bool)
    ensures
        r == is_ascii_alnum(c),
{
    let u = c as u32;
    (97 <= u && u <= 122) || (65 <= u && u <= 90) || (48 <= u && u <= 57)
}

pub fn to_ascii_lowercase(c: char) -> (r: char)
    ensures
        r == ascii_lower(c),
{
    let u = c as u32;
    if 65 <= u && u <= 90 {
        let l: u8 = (u + 32) as u8;
        l as char
    } else {
        c
    }
}

pub fn to_ascii_uppercase(c: char) -> (r: char)
    ensures
        r == ascii_upper(c),
{
    let u = c as u32;
    if 97 <= u && u <= 122 {
        let l: u8 = (u - 32) as u8;
        l as char
    } else {
        c
    }
}

/// A sequence with every character mapped through `ascii_lower`.
pub open spec fn ascii_lower_seq(s: Seq<char>) -> Seq<char> {
    Seq::new(s.len(), |i: int| ascii_lower(s[i]))
}

pub open spec fn ascii_upper_seq(s: Seq<char>) -> Seq<char> {
    Seq::new(s.len(), |i: int| ascii_upper(s[i]))
}

pub fn ascii_lowercase(s: &str) -> (r: String)
    ensures
        r@ == ascii_lower_seq(s@),
{
    let v = chars_vec(s);
    let mut out: Vec<char> = Vec::new();
    let mut i: usize = 0;
    while i < v.len()
        invariant
            v@ == s@,
            i <= v.len(),
            out@ =~= ascii_lower_seq(s@.subrange(0, i as int)),
        decreases v.len() - i,
    {
        out.push(to_ascii_lowercase(v[i]));
        i = i + 1;
    }
    assert(s@.subrange(0, s@.len() as int) =~= s@);
    string_of(&out)
}

pub fn ascii_uppercase(s: &str) -> (r: String)
    ensures
        r@ == ascii_upper_seq(s@),
{
    let v = chars_vec(s);
    let mut out: Vec<char> = Vec::new();
    let mut i: usize = 0;
    while i < v.len()
        invariant
            v@ == s@,
            i <= v.len(),
            out@ =~= ascii_upper_seq(s@.subrange(0, i as int)),
        decreases v.len() - i,
    {
        out.push(to_ascii_uppercase(v[i]));
        i = i + 1;
    }
    assert(s@.subrange(0, s@.len() as int) =~= s@);
    string_of(&out)
}

// ---------------------------------------------------------------- trimming

pub open spec fn trim_start(s: Seq<char>) -> Seq<char>
    decreases s.len(),
{
    if s.len() > 0 && is_ws(s[0]) {
        trim_start(s.drop_first())
    } else {
        s
    }
}

pub open spec fn trim_end(s: Seq<char>) -> Seq<char>
    decreases s.len(),
{
    if s.len() > 0 && is_ws(s.last()) {
        trim_end(s.drop_last())
    } else {
        s
    }
}

/// `str::trim`: leading and trailing whitespace removed.
pub open spec fn trim(s: Seq<char>) -> Seq<char> {
    trim_end(trim_start(s))
}

pub proof fn lemma_trim_start_at(s: Seq<char>, i: int)
    requires
        0 <= i <= s.len(),
        forall|k: int| 0 <= k < i ==> is_ws(#[trigger] s[k]),
        i == s.len() || !is_ws(s[i]),
    ensures
        trim_start(s) == s.subrange(i, s.len() as int),
    decreases i,
{
    if i == 0 {
        assert(s.subrange(0, s.len() as int) =~= s);
    } else {
        let t = s.drop_first();
        assert forall|k: int| 0 <= k < i - 1 implies is_ws(#[trigger] t[k]) by {
            assert(t[k] == s[k + 1]);
        }
        lemma_trim_start_at(t, i - 1);
        assert(t.subrange(i - 1, t.len() as int) =~= s.subrange(i, s.len() as int));
    }
}

pub proof fn lemma_trim_end_at(s: Seq<char>, j: int)
    requires
        0 <= j <= s.len(),
        forall|k: int| j <= k < s.len() ==> is_ws(#[trigger] s[k]),
        j == 0 || !is_ws(s[j - 1]),
    ensures
        trim_end(s) == s.subrange(0, j),
    decreases s.len() - j,
{
    if j == s.len() {
        assert(s.subrange(0, j) =~= s);
    } else {
        let t = s.drop_last();
        assert forall|k: int| j <= k < t.len() implies is_ws(#[trigger] t[k]) by {
            assert(t[k] == s[k]);
        }
        lemma_trim_end_at(t, j);
        assert(t.subrange(0, j) =~= s.subrange(0, j));
    }
}

/// Index of the first non-whitespace character (or the length).
fn trim_start_index(v: &Vec<char>) -> (i: usize)
    ensures
        i <= v@.len(),
        forall|k: int| 0 <= k < i ==> is_ws(#[trigger] v@[k]),
        i == v@.len() || !is_ws(v@[i as int]),
{
    let mut i: usize = 0;
    while i < v.len() && is_whitespace(v[i])
        invariant
            i <= v@.len(),
            forall|k: int| 0 <= k < i ==> is_ws(#[trigger] v@[k]),
        decreases v.len() - i,
    {
        i = i + 1;
    }
    i
}

/// `str::trim` over a character vector.
pub fn trim_chars(v: &Vec<char>) -> (r: Vec<char>)
    ensures
        r@ == trim(v@),
{
    let i = trim_start_index(v);
    proof {
        lemma_trim_start_at(v@, i as int);
    }
    let mut j: usize = v.len();
    while j > i && is_whitespace(v[j - 1])
        invariant
            i <= j <= v@.len(),
            forall|k: int| j <= k < v@.len() ==> is_ws(#[trigger] v@[k]),
        decreases j,
    {
        j = j - 1;
    }
    let ghost t = v@.subrange(i as int, v@.len() as int);
    proof {
        assert forall|k: int| j - i <= k < t.len() implies is_ws(#[trigger] t[k]) by {
            assert(t[k] == v@[k + i]);
        }
        lemma_trim_end_at(t, j - i);
    }
    let r = slice_chars(v, i, j);
    assert(r@ =~= t.subrange(0, j - i));
    r
}

pub fn trim_str(s: &str) -> (r: String)
    ensures
        r@ == trim(s@),
{
    let v = chars_vec(s);
    let t = trim_chars(&v);
    string_of(&t)
}

/// A copy of `v`.
pub fn copy_chars(v: &Vec<char>) -> (r: Vec<char>)
    ensures
        r@ == v@,
{
    let r = slice_chars(v, 0, v.len());
    assert(v@.subrange(0, v@.len() as int) =~= v@);
    r
}

/// The characters `v[from..to]`.
pub fn slice_chars(v: &Vec<char>, from: usize, to: usize) -> (r: Vec<char>)
    requires
        from <= to <= v@.len(),
    ensures
        r@ == v@.subrange(from as int, to as int),
{
    let mut r: Vec<char> = Vec::new();
    let mut k: usize = from;
    while k < to
        invariant
            from <= k <= to,
            to <= v@.len(),
            r@ == v@.subrange(from as int, k as int),
        decreases to - k,
    {
        r.push(v[k]);
        k = k + 1;
        assert(r@ =~= v@.subrange(from as int, k as int));
    }
    r
}

// ---------------------------------------------------------- comparisons

pub fn chars_eq(a: &Vec<char>, b: &Vec<char>) -> (r: bool)
    ensures
        r == (a@ == b@),
{
    if a.len() != b.len() {
        return false;
    }
    let mut i: usize = 0;
    while i < a.len()
        invariant
            a@.len() == b@.len(),
            i <= a@.len(),
            forall|k: int| 0 <= k < i ==> a@[k] == b@[k],
        decreases a.len() - i,
    {
        if a[i] != b[i] {
            return false;
        }
        i = i + 1;
    }
    assert(a@ =~= b@);
    true
}

pub fn str_eq(a: &str, b: &str) -> (r: bool)
    ensures
        r == (a@ == b@),
{
    let av = chars_vec(a);
    let bv = chars_vec(b);
    chars_eq(&av, &bv)
}

/// Whether `p` occurs in `s` starting at index `at`.
pub open spec fn occurs_at(s: Seq<char>, p: Seq<char>, at: int) -> bool {
    0 <= at && at + p.len() <= s.len() && s.subrange(at, at + p.len()) == p
}

/// `str::contains` with a string pattern.
pub open spec fn has_sub(s: Seq<char>, p: Seq<char>) -> bool {
    exists|at: int| occurs_at(s, p, at)
}

pub fn occurs_at_exec(s: &Vec<char>, p: &Vec<char>, at: usize) -> (r: bool)
    ensures
        r == occurs_at(s@, p@, at as int),
{
    if at > s.len() || p.len() > s.len() - at {
        return false;
    }
    let mut k: usize = 0;
    while k < p.len()
        invariant
            at + p@.len() <= s@.len(),
            s@.len() == s.len(),
            k <= p@.len(),
            forall|m: int| 0 <= m < k ==> s@[at + m] == p@[m],
        decreases p.len() - k,
    {
        if s[at + k] != p[k] {
            assert(s@.subrange(at as int, at + p@.len())[k as int] != p@[k as int]);
            return false;
        }
        k = k + 1;
    }
    assert(s@.subrange(at as int, at + p@.len()) =~= p@);
    true
}

pub fn starts_with_chars(s: &Vec<char>, p: &Vec<char>) -> (r: bool)
    ensures
        r == occurs_at(s@, p@, 0),
{
    occurs_at_exec(s, p, 0)
}

/// Whether `p` occurs anywhere in `s`.
pub fn contains_chars(s: &Vec<char>, p: &Vec<char>) -> (r: bool)
    ensures
        r == has_sub(s@, p@),
{
    if p.len() > s.len() {
        assert forall|at: int| !occurs_at(s@, p@, at) by {}
        return false;
    }
    let last = s.len() - p.len();
    let mut at: usize = 0;
    while at < last
        invariant
            p@.len() <= s@.len(),
            last == s@.len() - p@.len(),
            at <= last,
            forall|k: int| 0 <= k < at ==> !occurs_at(s@, p@, k),
        decreases last - at,
    {
        if occurs_at_exec(s, p, at) {
            return true;
        }
        at = at + 1;
    }
    if occurs_at_exec(s, p, last) {
        return true;
    }
    assert forall|k: int| !occurs_at(s@, p@, k) by {
        if 0 <= k < at {
        }
    }
    false
}

pub fn contains_str(s: &str, p: &str) -> (r: bool)
    ensures
        r == has_sub(s@, p@),
{
    let sv = chars_vec(s);
    let pv = chars_vec(p);
    contains_chars(&sv, &pv)
}

pub fn starts_with_str(s: &str, p: &str) -> (r: bool)
    ensures
        r == occurs_at(s@, p@, 0),
{
    let sv = chars_vec(s);
    let pv = chars_vec(p);
    starts_with_chars(&sv, &pv)
}

/// `str::strip_prefix`.
pub open spec fn strip_prefix(s: Seq<char>, p: Seq<char>) -> Option<Seq<char>> {
    if occurs_at(s, p, 0) {
        Some(s.subrange(p.len() as int, s.len() as int))
    } else {
        None
    }
}

pub fn strip_prefix_str(s: &str, p: &str) -> (r: Option<String>)
    ensures
        r matches Some(t) ==> strip_prefix(s@, p@) == Some(t@),
        r is None ==> strip_prefix(s@, p@) is None,
{
    let sv = chars_vec(s);
    let pv = chars_vec(p);
    if starts_with_chars(&sv, &pv) {
        let t = slice_chars(&sv, pv.len(), sv.len());
        Some(string_of(&t))
    } else {
        None
    }
}

/// Whether `s` ends with `p`.
pub open spec fn ends_with(s: Seq<char>, p: Seq<char>) -> bool {
    p.len() <= s.len() && occurs_at(s, p, s.len() - p.len())
}

pub fn ends_with_chars(s: &Vec<char>, p: &Vec<char>) -> (r: bool)
    ensures
        r == ends_with(s@, p@),
{
    if p.len() > s.len() {
        return false;
    }
    occurs_at_exec(s, p, s.len() - p.len())
}

// ---------------------------------------------------------- searching

/// Index of the first occurrence of `c`, or -1.
pub open spec fn char_index(s: Seq<char>, c: char) -> int
    decreases s.len(),
{
    if s.len() == 0 {
        -1
    } else if s[0] == c {
        0
    } else {
        let r = char_index(s.drop_first(), c);
        if r < 0 {
            -1
        } else {
            r + 1
        }
    }
}

pub proof fn lemma_char_index_found(s: Seq<char>, c: char, i: int)
    requires
        0 <= i < s.len(),
        s[i] == c,
        forall|k: int| 0 <= k < i ==> s[k] != c,
    ensures
        char_index(s, c) == i,
    decreases i,
{
    if i > 0 {
        let t = s.drop_first();
        assert forall|k: int| 0 <= k < i - 1 implies t[k] != c by {
            assert(t[k] == s[k + 1]);
        }
        lemma_char_index_found(t, c, i - 1);
    }
}

pub proof fn lemma_char_index_absent(s: Seq<char>, c: char)
    requires
        forall|k: int| 0 <= k < s.len() ==> s[k] != c,
    ensures
        char_index(s, c) == -1,
    decreases s.len(),
{
    if s.len() > 0 {
        let t = s.drop_first();
        assert forall|k: int| 0 <= k < t.len() implies t[k] != c by {
            assert(t[k] == s[k + 1]);
        }
        lemma_char_index_absent(t, c);
    }
}

pub proof fn lemma_char_index_range(s: Seq<char>, c: char)
    ensures
        -1 <= char_index(s, c) < s.len(),
        char_index(s, c) >= 0 ==> s[char_index(s, c)] == c,
        char_index(s, c) >= 0 ==> forall|k: int| 0 <= k < char_index(s, c) ==> s[k] != c,
        char_index(s, c) < 0 ==> forall|k: int| 0 <= k < s.len() ==> s[k] != c,
    decreases s.len(),
{
    if s.len() > 0 {
        let t = s.drop_first();
        lemma_char_index_range(t, c);
        if s[0] != c {
            assert forall|k: int| 0 <= k < s.len() && char_index(s, c) < 0 implies s[k] != c by {
                if k > 0 {
                    assert(s[k] == t[k - 1]);
                }
            }
            assert forall|k: int| 0 <= k < char_index(s, c) implies s[k] != c by {
                if k > 0 {
                    assert(s[k] == t[k - 1]);
                }
            }
        }
    }
}

/// First index of `c` in `v`.
pub fn find_char(v: &Vec<char>, c: char) -> (r: Option<usize>)
    ensures
        r matches Some(i) ==> i == char_index(v@, c),
        r is None ==> char_index(v@, c) == -1,
{
    let mut i: usize = 0;
    while i < v.len()
        invariant
            i <= v@.len(),
            forall|k: int| 0 <= k < i ==> v@[k] != c,
        decreases v.len() - i,
    {
        if v[i] == c {
            proof {
                lemma_char_index_found(v@, c, i as int);
            }
            return Some(i);
        }
        i = i + 1;
    }
    proof {
        lemma_char_index_absent(v@, c);
    }
    None
}

/// `str::split_once` with a character pattern.
pub open spec fn split_once(s: Seq<char>, c: char) -> Option<(Seq<char>, Seq<char>)> {
    let i = char_index(s, c);
    if i < 0 {
        None
    } else {
        Some((s.subrange(0, i), s.subrange(i + 1, s.len() as int)))
    }
}

pub fn split_once_chars(v: &Vec<char>, c: char) -> (r: Option<(Vec<char>, Vec<char>)>)
    ensures
        r matches Some(p) ==> split_once(v@, c) == Some((p.0@, p.1@)),
        r is None ==> split_once(v@, c) is None,
{
    match find_char(v, c) {
        Some(i) => {
            proof {
                lemma_char_index_range(v@, c);
            }
            assert(i < v.len());
            let a = slice_chars(v, 0, i);
            let b = slice_chars(v, i + 1, v.len());
            Some((a, b))
        },
        None => None,
    }
}

/// What separates the pieces of a split: one given character, or any whitespace.
pub enum Sep {
    Char(char),
    Whitespace,
}

pub open spec fn is_sep(sep: Sep, c: char) -> bool {
    match sep {
        Sep::Char(d) => c == d,
        Sep::Whitespace => is_ws(c),
    }
}

fn is_sep_exec(sep: &Sep, c: char) -> (r: bool)
    ensures
        r == is_sep(*sep, c),
{
    match sep {
        Sep::Char(d) => c == *d,
        Sep::Whitespace => is_whitespace(c),
    }
}

/// `str::split`: the pieces between separators (empty pieces included).
pub open spec fn split_on(s: Seq<char>, sep: Sep) -> Seq<Seq<char>>
    decreases s.len(),
{
    if s.len() == 0 {
        seq![Seq::<char>::empty()]
    } else {
        let rest = split_on(s.drop_first(), sep);
        if is_sep(sep, s[0]) {
            seq![Seq::<char>::empty()] + rest
        } else {
            rest.update(0, seq![s[0]] + rest[0])
        }
    }
}

/// `str::split` with a character pattern.
pub open spec fn split_char(s: Seq<char>, c: char) -> Seq<Seq<char>> {
    split_on(s, Sep::Char(c))
}

/// `str::split_whitespace`: the non-empty pieces between whitespace.
pub open spec fn words(s: Seq<char>) -> Seq<Seq<char>> {
    split_on(s, Sep::Whitespace).filter(nonempty_piece())
}

pub open spec fn nonempty_piece() -> spec_fn(Seq<char>) -> bool {
    |p: Seq<char>| p.len() > 0
}

pub proof fn lemma_split_on_nonempty(s: Seq<char>, sep: Sep)
    ensures
        split_on(s, sep).len() >= 1,
    decreases s.len(),
{
    if s.len() > 0 {
        lemma_split_on_nonempty(s.drop_first(), sep);
    }
}

/// Prepends `cur` to the first piece.
pub open spec fn prepend_first(cur: Seq<char>, ps: Seq<Seq<char>>) -> Seq<Seq<char>> {
    ps.update(0, cur + ps[0])
}

/// `str::split` over a character vector.
pub fn split_chars(v: &Vec<char>, sep: Sep) -> (r: Vec<Vec<char>>)
    ensures
        r@.len() == split_on(v@, sep).len(),
        forall|k: int| 0 <= k < r@.len() ==> #[trigger] r@[k]@ == split_on(v@, sep)[k],
{
    let mut out: Vec<Vec<char>> = Vec::new();
    let mut cur: Vec<char> = Vec::new();
    let mut i: usize = 0;
    let ghost outv: Seq<Seq<char>> = Seq::empty();
    proof {
        lemma_split_on_nonempty(v@, sep);
        assert(prepend_first(cur@, split_on(v@.subrange(0, v@.len() as int), sep)) =~= split_on(v@, sep)) by {
            assert(v@.subrange(0, v@.len() as int) =~= v@);
            assert(split_on(v@, sep)[0] =~= Seq::<char>::empty() + split_on(v@, sep)[0]);
        }
    }
    while i < v.len()
        invariant
            i <= v@.len(),
            outv.len() == out@.len(),
            forall|k: int| 0 <= k < out@.len() ==> #[trigger] out@[k]@ == outv[k],
            outv + prepend_first(cur@, split_on(v@.subrange(i as int, v@.len() as int), sep))
                == split_on(v@, sep),
        decreases v.len() - i,
    {
        let ghost t = v@.subrange(i as int, v@.len() as int);
        let ghost t1 = v@.subrange(i + 1, v@.len() as int);
        assert(t.drop_first() =~= t1);
        proof {
            lemma_split_on_nonempty(t1, sep);
        }
        if is_sep_exec(&sep, v[i]) {
            proof {
                let rest = split_on(t1, sep);
                assert(split_on(t, sep) == seq![Seq::<char>::empty()] + rest);
                assert(prepend_first(cur@, split_on(t, sep)) =~= seq![cur@] + prepend_first(Seq::<char>::empty(), rest)) by {
                    assert(rest[0] =~= Seq::<char>::empty() + rest[0]);
                }
                assert(outv.push(cur@) + prepend_first(Seq::<char>::empty(), rest) =~= outv + (seq![cur@] + prepend_first(Seq::<char>::empty(), rest)));
                outv = outv.push(cur@);
            }
            out.push(cur);
            cur = Vec::new();
        } else {
            proof {
                let rest = split_on(t1, sep);
                assert(split_on(t, sep) == rest.update(0, seq![v@[i as int]] + rest[0]));
                assert(prepend_first(cur@, split_on(t, sep)) =~= prepend_first(cur@.push(v@[i as int]), rest)) by {
                    assert(cur@ + (seq![v@[i as int]] + rest[0]) =~= cur@.push(v@[i as int]) + rest[0]);
                }
            }
            cur.push(v[i]);
        }
        i = i + 1;
    }
    proof {
        let t = v@.subrange(i as int, v@.len() as int);
        assert(t =~= Seq::<char>::empty());
        assert(prepend_first(cur@, split_on(t, sep)) =~= seq![cur@]);
        assert(outv.push(cur@) =~= outv + seq![cur@]);
        outv = outv.push(cur@);
    }
    out.push(cur);
    out
}

/// `str::split_whitespace` over a character vector.
pub fn words_chars(v: &Vec<char>) -> (r: Vec<Vec<char>>)
    ensures
        r@.len() == words(v@).len(),
        forall|k: int| 0 <= k < r@.len() ==> #[trigger] r@[k]@ == words(v@)[k],
{
    let pieces = split_chars(v, Sep::Whitespace);
    let ghost ps = split_on(v@, Sep::Whitespace);
    let mut out: Vec<Vec<char>> = Vec::new();
    let mut i: usize = 0;
    proof {
        reveal(Seq::filter);
        assert(ps.subrange(0, 0).filter(nonempty_piece()) =~= Seq::<Seq<char>>::empty());
    }
    while i < pieces.len()
        invariant
            i <= pieces@.len(),
            pieces@.len() == ps.len(),
            forall|k: int| 0 <= k < pieces@.len() ==> #[trigger] pieces@[k]@ == ps[k],
            out@.len() == ps.subrange(0, i as int).filter(nonempty_piece()).len(),
            forall|k: int| 0 <= k < out@.len() ==> #[trigger] out@[k]@ == ps.subrange(0, i as int).filter(nonempty_piece())[k],
        decreases pieces.len() - i,
    {
        let ghost prev = ps.subrange(0, i as int).filter(nonempty_piece());
        proof {
            assert(ps.subrange(0, i + 1) =~= ps.subrange(0, i as int).push(ps[i as int]));
            ps.subrange(0, i as int).lemma_filter_push(ps[i as int], nonempty_piece());
            assert(pieces@[i as int]@ == ps[i as int]);
            assert(nonempty_piece()(ps[i as int]) == (ps[i as int].len() > 0));
        }
        if pieces[i].len() > 0 {
            out.push(copy_chars(&pieces[i]));
            assert(ps.subrange(0, i + 1).filter(nonempty_piece()) == prev.push(ps[i as int]));
        } else {
            assert(ps.subrange(0, i + 1).filter(nonempty_piece()) == prev);
        }
        i = i + 1;
    }
    assert(ps.subrange(0, ps.len() as int) =~= ps);
    out
}

/// Removes one trailing carriage return.
pub open spec fn strip_cr(p: Seq<char>) -> Seq<char> {
    if p.len() > 0 && p.last() == '\r' {
        p.drop_last()
    } else {
        p
    }
}

/// `str::lines`: pieces split at `\n`, a `\r` before a `\n` removed, no final empty piece.
pub open spec fn lines(s: Seq<char>) -> Seq<Seq<char>> {
    let ps = split_char(s, '\n');
    let body = ps.subrange(0, ps.len() - 1).map_values(|p: Seq<char>| strip_cr(p));
    if ps[ps.len() - 1].len() == 0 {
        body
    } else {
        body.push(ps[ps.len() - 1])
    }
}

fn strip_cr_chars(p: &Vec<char>) -> (r: Vec<char>)
    ensures
        r@ == strip_cr(p@),
{
    if p.len() > 0 && p[p.len() - 1] == '\r' {
        slice_chars(p, 0, p.len() - 1)
    } else {
        copy_chars(p)
    }
}

/// `str::lines` over a character vector.
pub fn lines_chars(v: &Vec<char>) -> (r: Vec<Vec<char>>)
    ensures
        r@.len() == lines(v@).len(),
        forall|k: int| 0 <= k < r@.len() ==> #[trigger] r@[k]@ == lines(v@)[k],
{
    let pieces = split_chars(v, Sep::Char('\n'));
    let ghost ps = split_char(v@, '\n');
    proof {
        lemma_split_on_nonempty(v@, Sep::Char('\n'));
    }
    let n = pieces.len();
    let mut out: Vec<Vec<char>> = Vec::new();
    let mut i: usize = 0;
    while i + 1 < n
        invariant
            n == pieces@.len(),
            n == ps.len(),
            n >= 1,
            i < n,
            forall|k: int| 0 <= k < pieces@.len() ==> #[trigger] pieces@[k]@ == ps[k],
            out@.len() == i,
            forall|k: int| 0 <= k < i ==> #[trigger] out@[k]@ == strip_cr(ps[k]),
        decreases n - i,
    {
        out.push(strip_cr_chars(&pieces[i]));
        i = i + 1;
    }
    let ghost body = ps.subrange(0, ps.len() - 1).map_values(|p: Seq<char>| strip_cr(p));
    assert(body.len() == out@.len());
    if pieces[n - 1].len() > 0 {
        out.push(copy_chars(&pieces[n - 1]));
    }
    out
}

/// The number of bytes in the UTF-8 encoding of `c` (`char::len_utf8`).
pub open spec fn utf8_width(c: char) -> nat {
    let u = c as u32;
    if u < 0x80 {
        1
    } else if u < 0x800 {
        2
    } else if u < 0x10000 {
        3
    } else {
        4
    }
}

/// The number of bytes in the UTF-8 encoding of `s` (`str::len`).
pub open spec fn utf8_len(s: Seq<char>) -> nat
    decreases s.len(),
{
    if s.len() == 0 {
        0
    } else {
        utf8_width(s[0]) + utf8_len(s.drop_first())
    }
}

pub proof fn lemma_utf8_len_bounds(s: Seq<char>)
    ensures
        s.len() <= utf8_len(s) <= 4 * s.len(),
    decreases s.len(),
{
    if s.len() > 0 {
        lemma_utf8_len_bounds(s.drop_first());
    }
}

/// Whether the UTF-8 length of `v` exceeds `k`.
pub fn utf8_len_exceeds(v: &Vec<char>, k: usize) -> (r: bool)
    ensures
        r == (utf8_len(v@) > k),
{
    utf8_length(v) > k as u128
}

/// The UTF-8 length of `v` (`str::len`).
pub fn utf8_length(v: &Vec<char>) -> (r: u128)
    ensures
        r == utf8_len(v@),
{
    let mut sum: u128 = 0;
    let mut i: usize = v.len();
    assert(v@.subrange(i as int, v@.len() as int) =~= Seq::<char>::empty());
    proof {
        lemma_utf8_len_bounds(v@);
    }
    while i > 0
        invariant
            i <= v@.len(),
            sum == utf8_len(v@.subrange(i as int, v@.len() as int)),
            sum <= 4 * (v@.len() - i),
            v@.len() <= usize::MAX,
        decreases i,
    {
        let c = v[i - 1];
        let u = c as u32;
        let w: u128 = if u < 0x80 {
            1
        } else if u < 0x800 {
            2
        } else if u < 0x10000 {
            3
        } else {
            4
        };
        assert(v@.subrange(i - 1, v@.len() as int).drop_first() =~= v@.subrange(i as int, v@.len() as int));
        sum = sum + w;
        i = i - 1;
    }
    assert(v@.subrange(0, v@.len() as int) =~= v@);
    sum
}

/// `str::to_lowercase` (Unicode lowercase mapping).
pub uninterp spec fn lowercase(s: Seq<char>) -> Seq<char>;

/// `str::to_uppercase` (Unicode uppercase mapping).
pub uninterp spec fn uppercase(s: Seq<char>) -> Seq<char>;

/// Calls `str::to_lowercase`; its result is the Unicode lowercase mapping of the
/// argument, which the contract names and does not spell out.
#[verifier::external_body]
pub(crate) fn to_lowercase(s: &str) -> (r: String)
    ensures
        r@ == lowercase(s@),
{
    s.to_lowercase()
}

/// Calls `str::to_uppercase`; its result is the Unicode uppercase mapping of the
/// argument, which the contract names and does not spell out.
#[verifier::external_body]
pub(crate) fn to_uppercase(s: &str) -> (r: String)
    ensures
        r@ == uppercase(s@),
{
    s.to_uppercase()
}

// ---------------------------------------------------------- joining

/// `[String]::join`: the parts with `sep` between neighbours.
pub open spec fn join_seqs(parts: Seq<Seq<char>>, sep: Seq<char>) -> Seq<char>
    decreases parts.len(),
{
    if parts.len() == 0 {
        Seq::empty()
    } else if parts.len() == 1 {
        parts[0]
    } else {
        join_seqs(parts.drop_last(), sep) + sep + parts.last()
    }
}

/// Joins strings with a separator.
pub fn join_strings(parts: &Vec<String>, sep: &str) -> (r: String)
    ensures
        r@ == join_seqs(parts.deep_view(), sep@),
{
    let mut out = String::new();
    let mut i: usize = 0;
    let ghost dv = parts.deep_view();
    while i < parts.len()
        invariant
            i <= parts@.len(),
            dv == parts.deep_view(),
            out@ == join_seqs(dv.subrange(0, i as int), sep@),
        decreases parts.len() - i,
    {
        assert(dv.subrange(0, i + 1).drop_last() =~= dv.subrange(0, i as int));
        if i > 0 {
            out.append(sep);
        }
        out.append(parts[i].as_str());
        proof {
            if i == 0 {
                assert(dv.subrange(0, 1) =~= seq![dv[0]]);
                assert(out@ =~= Seq::<char>::empty() + dv[0]);
            }
        }
        i = i + 1;
    }
    assert(dv.subrange(0, dv.len() as int) =~= dv);
    out
}

// ---------------------------------------------------------- numbers

/// The decimal digits of `n` (no sign, no leading zeros; "0" for zero).
pub open spec fn decimal(n: nat) -> Seq<char>
    decreases n,
{
    if n < 10 {
        seq![digit_char(n)]
    } else {
        decimal(n / 10).push(digit_char(n % 10))
    }
}

pub open spec fn digit_char(d: nat) -> char {
    (48 + d) as char
}

fn digit(d: usize) -> (c: char)
    requires
        d < 10,
    ensures
        c == digit_char(d as nat),
{
    let u: u8 = 48 + d as u8;
    u as char
}

/// The decimal representation of `n` (`usize::to_string`).
pub fn decimal_string(n: usize) -> (r: String)
    ensures
        r@ == decimal(n as nat),
    decreases n,
{
    if n < 10 {
        let mut s = String::new();
        push_char(&mut s, digit(n));
        assert(s@ =~= seq![digit_char(n as nat)]);
        s
    } else {
        let mut s = decimal_string(n / 10);
        push_char(&mut s, digit(n % 10));
        s
    }
}

/// The decimal representation of `n` (`u64::to_string`).
pub fn decimal_string_u64(n: u64) -> (r: String)
    ensures
        r@ == decimal(n as nat),
    decreases n,
{
    if n < 10 {
        let mut s = String::new();
        let d: u8 = 48 + n as u8;
        push_char(&mut s, d as char);
        assert(s@ =~= seq![digit_char(n as nat)]);
        s
    } else {
        let mut s = decimal_string_u64(n / 10);
        let d: u8 = 48 + (n % 10) as u8;
        push_char(&mut s, d as char);
        s
    }
}

/// The value of a sequence of ASCII digits.
pub open spec fn digits_value(d: Seq<char>) -> nat
    decreases d.len(),
{
    if d.len() == 0 {
        0
    } else {
        digits_value(d.drop_last()) * 10 + ((d.last() as u32) - 48) as nat
    }
}

/// Every character is an ASCII digit.
pub open spec fn all_digits(d: Seq<char>) -> bool {
    forall|k: int| 0 <= k < d.len() ==> #[trigger] is_ascii_digit(d[k])
}

/// `str::parse::<u16>`: an optional `+`, then one or more ASCII digits whose
/// value fits in a `u16`.
pub open spec fn parse_u16(s: Seq<char>) -> Option<u16> {
    let d = if s.len() > 0 && s[0] == '+' {
        s.drop_first()
    } else {
        s
    };
    if d.len() > 0 && all_digits(d) && digits_value(d) <= 65535 {
        Some(digits_value(d) as u16)
    } else {
        None
    }
}

proof fn lemma_digits_value_grows(d: Seq<char>, k: int)
    requires
        0 <= k <= d.len(),
        forall|m: int| 0 <= m < d.len() ==> #[trigger] is_ascii_digit(d[m]),
    ensures
        digits_value(d.subrange(0, k)) <= digits_value(d),
    decreases d.len() - k,
{
    if k < d.len() {
        lemma_digits_value_grows(d, k + 1);
        assert(d.subrange(0, k + 1).drop_last() =~= d.subrange(0, k));
    } else {
        assert(d.subrange(0, k) =~= d);
    }
}

/// Parses a decimal `u16` as `str::parse` does.
pub fn parse_u16_text(s: &str) -> (r: Option<u16>)
    ensures
        r == parse_u16(s@),
{
    let v = chars_vec(s);
    let start: usize = if v.len() > 0 && v[0] == '+' {
        1
    } else {
        0
    };
    let ghost d = if v@.len() > 0 && v@[0] == '+' {
        v@.drop_first()
    } else {
        v@
    };
    assert(d =~= v@.subrange(start as int, v@.len() as int));
    if v.len() == start {
        return None;
    }
    let mut value: u32 = 0;
    let mut i: usize = start;
    assert(d.subrange(0, 0) =~= Seq::<char>::empty());
    while i < v.len()
        invariant
            v@ == s@,
            start <= i <= v@.len(),
            d =~= v@.subrange(start as int, v@.len() as int),
            d == (if s@.len() > 0 && s@[0] == '+' {
                s@.drop_first()
            } else {
                s@
            }),
            forall|k: int| 0 <= k < i - start ==> #[trigger] is_ascii_digit(d[k]),
            value as nat == digits_value(d.subrange(0, i - start)),
            value <= 65535,
        decreases v.len() - i,
    {
        let c = v[i];
        if !is_ascii_digit_char(c) {
            assert(!is_ascii_digit(d[i - start]));
            assert(!all_digits(d));
            return None;
        }
        let digit_value: u32 = (c as u32) - 48;
        assert(d.subrange(0, i + 1 - start).drop_last() =~= d.subrange(0, i - start));
        assert(d.subrange(0, i + 1 - start).last() == c);
        let next: u32 = value * 10 + digit_value;
        if next > 65535 {
            proof {
                if all_digits(d) {
                    lemma_digits_value_grows(d, i + 1 - start);
                }
            }
            return None;
        }
        value = next;
        i = i + 1;
    }
    assert(d.subrange(0, d.len() as int) =~= d);
    assert(all_digits(d));
    Some(value as u16)
}

/// The pieces of `s` between the non-overlapping occurrences of `p`, found
/// from the left (`str::split` with a string pattern).
pub open spec fn split_str(s: Seq<char>, p: Seq<char>) -> Seq<Seq<char>>
    decreases s.len(),
{
    if s.len() == 0 {
        seq![Seq::<char>::empty()]
    } else if p.len() > 0 && occurs_at(s, p, 0) {
        seq![Seq::<char>::empty()] + split_str(s.subrange(p.len() as int, s.len() as int), p)
    } else {
        let r = split_str(s.drop_first(), p);
        r.update(0, seq![s[0]] + r[0])
    }
}

pub proof fn lemma_split_str_nonempty(s: Seq<char>, p: Seq<char>)
    ensures
        split_str(s, p).len() >= 1,
    decreases s.len(),
{
    if s.len() > 0 {
        if p.len() > 0 && occurs_at(s, p, 0) {
            lemma_split_str_nonempty(s.subrange(p.len() as int, s.len() as int), p);
        } else {
            lemma_split_str_nonempty(s.drop_first(), p);
        }
    }
}

/// Splits `v` at the non-overlapping occurrences of `p`, from the left.
pub fn split_by(v: &Vec<char>, p: &Vec<char>) -> (r: Vec<Vec<char>>)
    requires
        p@.len() > 0,
    ensures
        r@.len() == split_str(v@, p@).len(),
        forall|k: int| 0 <= k < r@.len() ==> #[trigger] r@[k]@ == split_str(v@, p@)[k],
{
    let mut out: Vec<Vec<char>> = Vec::new();
    let mut cur: Vec<char> = Vec::new();
    let mut i: usize = 0;
    let ghost mut done: Seq<Seq<char>> = Seq::empty();
    proof {
        lemma_split_str_nonempty(v@, p@);
        assert(v@.subrange(0, v@.len() as int) =~= v@);
        let r = split_str(v@, p@);
        assert(r =~= done + prepend_first(cur@, r)) by {
            assert(r[0] =~= Seq::<char>::empty() + r[0]);
        }
    }
    while i < v.len()
        invariant
            i <= v@.len(),
            p@.len() > 0,
            out@.len() == done.len(),
            forall|k: int| 0 <= k < out@.len() ==> #[trigger] out@[k]@ == done[k],
            split_str(v@, p@) == done + prepend_first(
                cur@,
                split_str(v@.subrange(i as int, v@.len() as int), p@),
            ),
        decreases v.len() - i,
    {
        let ghost t = v@.subrange(i as int, v@.len() as int);
        proof {
            lemma_split_str_nonempty(t, p@);
        }
        if p.len() <= v.len() - i && occurs_at_exec(v, p, i) {
            assert(t.subrange(0, p@.len() as int) =~= v@.subrange(i as int, i + p@.len()));
            assert(occurs_at(t, p@, 0));
            let ghost rest = t.subrange(p@.len() as int, t.len() as int);
            assert(rest =~= v@.subrange(i + p@.len(), v@.len() as int));
            proof {
                lemma_split_str_nonempty(rest, p@);
                let r = split_str(rest, p@);
                assert(prepend_first(cur@, seq![Seq::<char>::empty()] + r) =~= seq![cur@] + r) by {
                    assert(cur@ + Seq::<char>::empty() =~= cur@);
                }
                assert(r =~= prepend_first(Seq::<char>::empty(), r)) by {
                    assert(Seq::<char>::empty() + r[0] =~= r[0]);
                }
                done = done.push(cur@);
            }
            let finished = cur;
            out.push(finished);
            cur = Vec::new();
            i = i + p.len();
            assert(split_str(v@, p@) == done + prepend_first(
                cur@,
                split_str(v@.subrange(i as int, v@.len() as int), p@),
            ));
        } else {
            proof {
                if p@.len() <= t.len() {
                    assert(t.subrange(0, p@.len() as int) =~= v@.subrange(i as int, i + p@.len()));
                }
                assert(!occurs_at(t, p@, 0));
                let r = split_str(t.drop_first(), p@);
                lemma_split_str_nonempty(t.drop_first(), p@);
                assert(t.drop_first() =~= v@.subrange(i + 1, v@.len() as int));
                assert(prepend_first(cur@, r.update(0, seq![t[0]] + r[0])) =~= prepend_first(
                    cur@.push(t[0]),
                    r,
                )) by {
                    assert(cur@ + (seq![t[0]] + r[0]) =~= cur@.push(t[0]) + r[0]);
                }
            }
            cur.push(v[i]);
            i = i + 1;
        }
    }
    proof {
        assert(v@.subrange(i as int, v@.len() as int) =~= Seq::<char>::empty());
        assert(prepend_first(cur@, seq![Seq::<char>::empty()]) =~= seq![cur@]) by {
            assert(cur@ + Seq::<char>::empty() =~= cur@);
        }
        done = done.push(cur@);
    }
    out.push(cur);
    out
}

/// The pieces before and after the first occurrence of `p` (`str::split_once`
/// with a string pattern).
pub open spec fn split_once_str(s: Seq<char>, p: Seq<char>) -> Option<(Seq<char>, Seq<char>)> {
    let r = split_str(s, p);
    if r.len() < 2 {
        None
    } else {
        Some((r[0], s.subrange(r[0].len() as int + p.len(), s.len() as int)))
    }
}

/// A value with every `\r\n` replaced by `\n`.
pub open spec fn crlf_to_lf(s: Seq<char>) -> Seq<char>
    decreases s.len(),
{
    if s.len() == 0 {
        s
    } else if s.len() >= 2 && s[0] == '\r' && s[1] == '\n' {
        seq!['\n'] + crlf_to_lf(s.subrange(2, s.len() as int))
    } else {
        seq![s[0]] + crlf_to_lf(s.drop_first())
    }
}

/// Replaces every `\r\n` in `v` with `\n`.
pub fn crlf_to_lf_chars(v: &Vec<char>) -> (r: Vec<char>)
    ensures
        r@ == crlf_to_lf(v@),
{
    let mut out: Vec<char> = Vec::new();
    let mut i: usize = 0;
    assert(v@.subrange(0, v@.len() as int) =~= v@);
    while i < v.len()
        invariant
            i <= v@.len(),
            out@ + crlf_to_lf(v@.subrange(i as int, v@.len() as int)) == crlf_to_lf(v@),
        decreases v.len() - i,
    {
        let ghost t = v@.subrange(i as int, v@.len() as int);
        let ghost before = out@;
        if v.len() - i >= 2 && v[i] == '\r' && v[i + 1] == '\n' {
            out.push('\n');
            assert(t.subrange(2, t.len() as int) =~= v@.subrange(i + 2, v@.len() as int));
            assert(out@ + crlf_to_lf(v@.subrange(i + 2, v@.len() as int)) =~= before
                + crlf_to_lf(t));
            i = i + 2;
        } else {
            out.push(v[i]);
            assert(t.drop_first() =~= v@.subrange(i + 1, v@.len() as int));
            assert(out@ + crlf_to_lf(v@.subrange(i + 1, v@.len() as int)) =~= before
                + crlf_to_lf(t));
            i = i + 1;
        }
    }
    assert(out@ + crlf_to_lf(v@.subrange(i as int, v@.len() as int)) =~= out@);
    out
}

/// The value of an optional `+` followed by one or more ASCII digits.
pub open spec fn decimal_value(s: Seq<char>) -> Option<nat> {
    let d = if s.len() > 0 && s[0] == '+' {
        s.drop_first()
    } else {
        s
    };
    if d.len() > 0 && all_digits(d) {
        Some(digits_value(d))
    } else {
        None
    }
}

/// `str::parse::<usize>`: an optional `+`, then one or more ASCII digits whose
/// value fits in a `usize`.
pub open spec fn parse_usize(s: Seq<char>) -> Option<usize> {
    match decimal_value(s) {
        Some(v) => if v <= usize::MAX {
            Some(v as usize)
        } else {
            None
        },
        None => None,
    }
}

/// The text of the error `str::parse::<usize>` reports for a digit that is not
/// one, and for a value too large.
pub open spec fn invalid_digit_message() -> Seq<char> {
    "invalid digit found in string"@
}

pub open spec fn too_large_message() -> Seq<char> {
    "number too large to fit in target type"@
}

pub open spec fn empty_number_message() -> Seq<char> {
    "cannot parse integer from empty string"@
}

/// Reading the digits `d` from the left with `acc` read so far: the first
/// problem met, a character that is no digit or a value above `usize::MAX`.
pub open spec fn digits_error(d: Seq<char>, acc: nat) -> Option<Seq<char>>
    decreases d.len(),
{
    if d.len() == 0 {
        None
    } else if !is_ascii_digit(d[0]) {
        Some(invalid_digit_message())
    } else if acc * 10 + ((d[0] as u32) - 48) as nat > usize::MAX {
        Some(too_large_message())
    } else {
        digits_error(d.drop_first(), acc * 10 + ((d[0] as u32) - 48) as nat)
    }
}

/// The error text of `str::parse::<usize>` on a text it refuses: for an empty
/// text, for a lone `+`, or for the first problem in the digits after an
/// optional `+`.
pub open spec fn usize_parse_error(s: Seq<char>) -> Seq<char> {
    if s.len() == 0 {
        empty_number_message()
    } else {
        let d = if s[0] == '+' {
            s.drop_first()
        } else {
            s
        };
        match digits_error(d, 0) {
            Some(e) => e,
            None => invalid_digit_message(),
        }
    }
}

/// Parses a decimal `usize` as `str::parse::<usize>` does: the value, or the
/// text of the parse error.
pub fn parse_usize_text(s: &str) -> (r: Result<usize, String>)
    ensures
        match parse_usize(s@) {
            Some(v) => r == Ok::<usize, String>(v),
            None => r matches Err(e) && e@ == usize_parse_error(s@),
        },
{
    let v = chars_vec(s);
    if v.len() == 0 {
        return Err(String::from_str("cannot parse integer from empty string"));
    }
    let start: usize = if v[0] == '+' {
        1
    } else {
        0
    };
    let ghost d = if v@[0] == '+' {
        v@.drop_first()
    } else {
        v@
    };
    assert(d =~= v@.subrange(start as int, v@.len() as int));
    if v.len() == start {
        return Err(String::from_str("invalid digit found in string"));
    }
    let mut value: usize = 0;
    let mut i: usize = start;
    assert(d.subrange(0, 0) =~= Seq::<char>::empty());
    assert(d.subrange(0, d.len() as int) =~= d);
    while i < v.len()
        invariant
            v@ == s@,
            s@.len() > 0,
            start <= i <= v@.len(),
            v@.len() > start,
            d =~= v@.subrange(start as int, v@.len() as int),
            d == (if s@[0] == '+' {
                s@.drop_first()
            } else {
                s@
            }),
            forall|k: int| 0 <= k < i - start ==> #[trigger] is_ascii_digit(d[k]),
            value as nat == digits_value(d.subrange(0, i - start)),
            digits_error(d, 0) == digits_error(d.subrange(i - start, d.len() as int), value as nat),
        decreases v.len() - i,
    {
        let c = v[i];
        let ghost rest = d.subrange(i - start, d.len() as int);
        assert(rest[0] == c);
        assert(rest.drop_first() =~= d.subrange(i + 1 - start, d.len() as int));
        if !is_ascii_digit_char(c) {
            assert(!is_ascii_digit(d[i - start]));
            assert(!all_digits(d));
            return Err(String::from_str("invalid digit found in string"));
        }
        let digit_value: usize = ((c as u32) - 48) as usize;
        assert(d.subrange(0, i + 1 - start).drop_last() =~= d.subrange(0, i - start));
        assert(d.subrange(0, i + 1 - start).last() == c);
        if (value as u128) * 10 + (digit_value as u128) > (usize::MAX as u128) {
            proof {
                if all_digits(d) {
                    lemma_digits_value_grows(d, i + 1 - start);
                }
            }
            return Err(String::from_str("number too large to fit in target type"));
        }
        value = value * 10 + digit_value;
        i = i + 1;
    }
    assert(d.subrange(0, d.len() as int) =~= d);
    assert(all_digits(d));
    Ok(value)
}


/// `s` with each non-overlapping occurrence of `from`, found from the left,
/// replaced by `to` (`str::replace`).
pub open spec fn replace_all(s: Seq<char>, from: Seq<char>, to: Seq<char>) -> Seq<char> {
    join_seqs(split_str(s, from), to)
}

/// Replaces each occurrence of a non-empty pattern.
pub fn replace_str(s: &str, from: &str, to: &str) -> (r: String)
    requires
        from@.len() > 0,
    ensures
        r@ == replace_all(s@, from@, to@),
{
    let v = chars_vec(s);
    let p = chars_vec(from);
    let pieces = split_by(&v, &p);
    let mut parts: Vec<String> = Vec::new();
    let mut i: usize = 0;
    while i < pieces.len()
        invariant
            i <= pieces@.len(),
            parts@.len() == i,
            pieces@.len() == split_str(s@, from@).len(),
            forall|k: int| 0 <= k < pieces@.len() ==> #[trigger] pieces@[k]@ == split_str(s@, from@)[k],
            forall|k: int| 0 <= k < i ==> #[trigger] parts@[k]@ == split_str(s@, from@)[k],
        decreases pieces.len() - i,
    {
        let piece = string_of(pieces[i].as_slice());
        parts.push(piece);
        i = i + 1;
    }
    assert(parts.deep_view() =~= split_str(s@, from@)) by {
        assert forall|k: int| 0 <= k < parts@.len() implies #[trigger] parts.deep_view()[k]
            == split_str(s@, from@)[k] by {
            assert(parts.deep_view()[k] == parts@[k]@);
        }
    }
    join_strings(&parts, to)
}

} // verus!
