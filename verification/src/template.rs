//! Command templates: `{{name}}` placeholders inside a shell command, the
//! quoting context each placeholder sits in, and rendering with shell-safe
//! values.
use crate::sorted::{sorted_of, sorted_unique, lemma_sorted_of, lemma_sorted_of_empty, strictly_sorted};
use crate::dedup::{contains_string, keep_if, lemma_keep_if_contains};
use crate::text::{
    split_once, split_once_chars, chars_vec, is_ascii_digit, is_ascii_digit_char, is_ascii_lower, is_ascii_lowercase,
    join_seqs, join_strings, push_char, slice_chars, string_of,
};
use vstd::prelude::*;

verus! {

/// The shell quoting context a position of a template is in.
#[derive(Debug, Clone, Copy, PartialEq, Eq, Structural)]
pub enum QuoteContext {
    Unquoted,
    Single,
    Double,
}

/// A `{{name}}` placeholder found in a template; `start` and `end` are
/// character positions of `{{` and just past `}}`.
#[derive(Debug, Clone)]
pub struct Placeholder {
    pub start: usize,
    pub end: usize,
    pub name: String,
    pub context: QuoteContext,
}

/// The mathematical content of a placeholder.
pub struct Slot {
    pub start: int,
    pub end: int,
    pub name: Seq<char>,
    pub context: QuoteContext,
}

impl Placeholder {
    pub open spec fn slot(self) -> Slot {
        Slot { start: self.start as int, end: self.end as int, name: self.name@, context: self.context }
    }
}

pub open spec fn slots(v: Seq<Placeholder>) -> Seq<Slot> {
    Seq::new(v.len(), |k: int| v[k].slot())
}

/// How a scan of a template ends: with its placeholders, with an error
/// message, or on an escaped character that is not ASCII (a position the
/// byte-wise scanner cannot step over).
pub enum Scan {
    Done(Seq<Slot>),
    Fail(Seq<char>),
    Stuck,
}

pub open spec fn incomplete_escape_message() -> Seq<char> {
    "Template ends with an incomplete shell escape."@
}

pub open spec fn unclosed_placeholder_message() -> Seq<char> {
    "Template contains an unclosed '{{' placeholder."@
}

pub open spec fn unmatched_close_message() -> Seq<char> {
    "Template contains an unmatched '}}' placeholder terminator."@
}

pub open spec fn unclosed_single_message() -> Seq<char> {
    "Template contains an unclosed single quote."@
}

pub open spec fn unclosed_double_message() -> Seq<char> {
    "Template contains an unclosed double quote."@
}

pub open spec fn invalid_parameter_message(name: Seq<char>) -> Seq<char> {
    "Invalid template parameter '"@ + name
        + "'. Use lowercase letters, numbers, underscores, or hyphens, starting with a letter."@
}

/// A parameter name: a lowercase ASCII letter, then lowercase letters, digits,
/// `-` and `_`.
pub open spec fn is_parameter_char(c: char) -> bool {
    is_ascii_lower(c) || is_ascii_digit(c) || c == '-' || c == '_'
}

pub open spec fn valid_parameter_name(name: Seq<char>) -> bool {
    &&& name.len() > 0
    &&& is_ascii_lower(name[0])
    &&& forall|k: int| 0 <= k < name.len() ==> #[trigger] is_parameter_char(name[k])
}

/// The position of the first `}}` at or after `j`, or -1.
pub open spec fn find_close(s: Seq<char>, j: int) -> int
    decreases s.len() - j,
{
    if j < 0 || j + 1 >= s.len() {
        -1
    } else if s[j] == '}' && s[j + 1] == '}' {
        j
    } else {
        find_close(s, j + 1)
    }
}

pub proof fn lemma_find_close(s: Seq<char>, j: int)
    requires
        0 <= j,
    ensures
        find_close(s, j) == -1 || (j <= find_close(s, j) && find_close(s, j) + 1 < s.len()
            && s[find_close(s, j)] == '}' && s[find_close(s, j) + 1] == '}'),
        forall|m: int|
            j <= m < (if find_close(s, j) == -1 { s.len() - 1 } else { find_close(s, j) })
                ==> !(s[m] == '}' && #[trigger] s[m + 1] == '}'),
    decreases s.len() - j,
{
    if j + 1 < s.len() && !(s[j] == '}' && s[j + 1] == '}') {
        lemma_find_close(s, j + 1);
    }
}

pub open spec fn opens_at(s: Seq<char>, i: int) -> bool {
    i + 1 < s.len() && s[i] == '{' && s[i + 1] == '{'
}

pub open spec fn closes_at(s: Seq<char>, i: int) -> bool {
    i + 1 < s.len() && s[i] == '}' && s[i + 1] == '}'
}

/// The scan of `s` from position `i` in quoting context `ctx`, with the
/// placeholders `acc` found before `i`.
pub open spec fn scan_from(s: Seq<char>, i: int, ctx: QuoteContext, acc: Seq<Slot>) -> Scan
    decreases s.len() - i,
{
    if i < 0 || i >= s.len() {
        match ctx {
            QuoteContext::Unquoted => Scan::Done(acc),
            QuoteContext::Single => Scan::Fail(unclosed_single_message()),
            QuoteContext::Double => Scan::Fail(unclosed_double_message()),
        }
    } else if s[i] == '\\' && ctx != QuoteContext::Single {
        if i + 1 >= s.len() {
            Scan::Fail(incomplete_escape_message())
        } else if (s[i + 1] as u32) >= 128 {
            Scan::Stuck
        } else {
            scan_from(s, i + 2, ctx, acc)
        }
    } else if s[i] == '\'' && ctx == QuoteContext::Unquoted {
        scan_from(s, i + 1, QuoteContext::Single, acc)
    } else if s[i] == '\'' && ctx == QuoteContext::Single {
        scan_from(s, i + 1, QuoteContext::Unquoted, acc)
    } else if s[i] == '"' && ctx == QuoteContext::Unquoted {
        scan_from(s, i + 1, QuoteContext::Double, acc)
    } else if s[i] == '"' && ctx == QuoteContext::Double {
        scan_from(s, i + 1, QuoteContext::Unquoted, acc)
    } else if opens_at(s, i) {
        let k = find_close(s, i + 2);
        if k < i + 2 {
            Scan::Fail(unclosed_placeholder_message())
        } else {
            let name = s.subrange(i + 2, k);
            proof {
                lemma_find_close(s, i + 2);
            }
            if !valid_parameter_name(name) {
                Scan::Fail(invalid_parameter_message(name))
            } else {
                scan_from(
                    s,
                    k + 2,
                    ctx,
                    acc.push(Slot { start: i, end: k + 2, name, context: ctx }),
                )
            }
        }
    } else if closes_at(s, i) {
        Scan::Fail(unmatched_close_message())
    } else {
        scan_from(s, i + 1, ctx, acc)
    }
}

/// The scan of a whole template.
pub open spec fn scan_template(s: Seq<char>) -> Scan {
    scan_from(s, 0, QuoteContext::Unquoted, Seq::empty())
}

/// Placeholders in order, each inside the template and after the previous one.
pub open spec fn slots_ordered(v: Seq<Slot>, len: int) -> bool {
    &&& forall|k: int| 0 <= k < v.len() ==> 0 <= #[trigger] v[k].start < v[k].end <= len
    &&& forall|k: int| 0 < k < v.len() ==> v[k - 1].end <= #[trigger] v[k].start
}

/// Checks a template parameter name.
pub fn validate_parameter_name(name: &str) -> (r: Result<(), String>)
    ensures
        r is Ok <==> valid_parameter_name(name@),
        r matches Err(e) ==> e@ == invalid_parameter_message(name@),
{
    let v = chars_vec(name);
    if parameter_name_ok(&v) {
        Ok(())
    } else {
        let mut msg = String::from_str("Invalid template parameter '");
        msg.append(name);
        msg.append(
            "'. Use lowercase letters, numbers, underscores, or hyphens, starting with a letter.",
        );
        Err(msg)
    }
}

fn parameter_name_ok(v: &Vec<char>) -> (r: bool)
    ensures
        r == valid_parameter_name(v@),
{
    if v.len() == 0 || !is_ascii_lowercase(v[0]) {
        return false;
    }
    let mut i: usize = 0;
    while i < v.len()
        invariant
            i <= v@.len(),
            forall|k: int| 0 <= k < i ==> #[trigger] is_parameter_char(v@[k]),
        decreases v.len() - i,
    {
        let c = v[i];
        if !(is_ascii_lowercase(c) || is_ascii_digit_char(c) || c == '-' || c == '_') {
            assert(!is_parameter_char(v@[i as int]));
            return false;
        }
        i = i + 1;
    }
    true
}

fn find_close_exec(v: &Vec<char>, j: usize) -> (r: Option<usize>)
    requires
        j <= v@.len(),
    ensures
        match r {
            Some(k) => k as int == find_close(v@, j as int),
            None => find_close(v@, j as int) == -1,
        },
{
    let mut m: usize = j;
    while v.len() - m > 1
        invariant
            j <= m <= v@.len(),
            find_close(v@, j as int) == find_close(v@, m as int),
        decreases v.len() - m,
    {
        if v[m] == '}' && v[m + 1] == '}' {
            return Some(m);
        }
        m = m + 1;
    }
    None
}

fn message(text: &str) -> (r: String)
    ensures
        r@ == text@,
{
    String::from_str(text)
}

/// Finds the placeholders of a template and the quoting context of each.
pub fn parse_placeholders(template: &str) -> (r: Result<Vec<Placeholder>, String>)
    requires
        !(scan_template(template@) is Stuck),
    ensures
        match scan_template(template@) {
            Scan::Done(found) => r matches Ok(v) && slots(v@) == found,
            Scan::Fail(msg) => r matches Err(e) && e@ == msg,
            Scan::Stuck => false,
        },
        r matches Ok(v) ==> slots_ordered(slots(v@), template@.len() as int),
{
    let s = chars_vec(template);
    let n = s.len();
    let mut out: Vec<Placeholder> = Vec::new();
    let mut ctx = QuoteContext::Unquoted;
    let mut i: usize = 0;
    assert(slots(out@) =~= Seq::<Slot>::empty());
    while i < n
        invariant
            s@ == template@,
            n == s@.len(),
            i <= n,
            scan_template(s@) == scan_from(s@, i as int, ctx, slots(out@)),
            !(scan_template(s@) is Stuck),
            slots_ordered(slots(out@), i as int),
        decreases n - i,
    {
        let ghost acc = slots(out@);
        let c = s[i];
        if c == '\\' && ctx != QuoteContext::Single {
            if i + 1 >= n {
                return Err(message("Template ends with an incomplete shell escape."));
            }
            i = i + 2;
        } else if c == '\'' && ctx == QuoteContext::Unquoted {
            ctx = QuoteContext::Single;
            i = i + 1;
        } else if c == '\'' && ctx == QuoteContext::Single {
            ctx = QuoteContext::Unquoted;
            i = i + 1;
        } else if c == '"' && ctx == QuoteContext::Unquoted {
            ctx = QuoteContext::Double;
            i = i + 1;
        } else if c == '"' && ctx == QuoteContext::Double {
            ctx = QuoteContext::Unquoted;
            i = i + 1;
        } else if i + 1 < n && c == '{' && s[i + 1] == '{' {
            proof {
                lemma_find_close(s@, i + 2);
            }
            match find_close_exec(&s, i + 2) {
                None => {
                    return Err(message("Template contains an unclosed '{{' placeholder."));
                },
                Some(k) => {
                    let name_chars = slice_chars(&s, i + 2, k);
                    let name = string_of(&name_chars);
                    if let Err(e) = validate_parameter_name(name.as_str()) {
                        return Err(e);
                    }
                    let p = Placeholder { start: i, end: k + 2, name, context: ctx };
                    out.push(p);
                    assert(slots(out@) =~= acc.push(p.slot()));
                    proof {
                        assert(slots_ordered(acc, i as int));
                        let nv = slots(out@);
                        assert forall|m: int| 0 < m < nv.len() implies nv[m - 1].end
                            <= #[trigger] nv[m].start by {
                            if m == nv.len() - 1 {
                                let q = m - 1;
                                assert(0 <= q < acc.len());
                                assert(0 <= acc[q].start < acc[q].end);
                                assert(acc[q].end <= i as int);
                                assert(nv[q] == acc[q]);
                            } else {
                                assert(nv[m - 1] == acc[m - 1]);
                                assert(nv[m] == acc[m]);
                            }
                        }
                    }
                    i = k + 2;
                },
            }
        } else if i + 1 < n && c == '}' && s[i + 1] == '}' {
            return Err(message("Template contains an unmatched '}}' placeholder terminator."));
        } else {
            i = i + 1;
        }
    }
    match ctx {
        QuoteContext::Unquoted => Ok(out),
        QuoteContext::Single => Err(message("Template contains an unclosed single quote.")),
        QuoteContext::Double => Err(message("Template contains an unclosed double quote.")),
    }
}

/// Whether scanning `template` meets an escaped non-ASCII character, a
/// position the byte-wise scanner cannot step over.
pub fn scan_gets_stuck(template: &str) -> (r: bool)
    ensures
        r == (scan_template(template@) is Stuck),
{
    let s = chars_vec(template);
    let n = s.len();
    let mut ctx = QuoteContext::Unquoted;
    let mut i: usize = 0;
    let ghost mut acc: Seq<Slot> = Seq::empty();
    while i < n
        invariant
            s@ == template@,
            n == s@.len(),
            i <= n,
            scan_template(s@) == scan_from(s@, i as int, ctx, acc),
        decreases n - i,
    {
        let c = s[i];
        if c == '\\' && ctx != QuoteContext::Single {
            if i + 1 >= n {
                return false;
            }
            if (s[i + 1] as u32) >= 128 {
                return true;
            }
            i = i + 2;
        } else if c == '\'' && ctx == QuoteContext::Unquoted {
            ctx = QuoteContext::Single;
            i = i + 1;
        } else if c == '\'' && ctx == QuoteContext::Single {
            ctx = QuoteContext::Unquoted;
            i = i + 1;
        } else if c == '"' && ctx == QuoteContext::Unquoted {
            ctx = QuoteContext::Double;
            i = i + 1;
        } else if c == '"' && ctx == QuoteContext::Double {
            ctx = QuoteContext::Unquoted;
            i = i + 1;
        } else if i + 1 < n && c == '{' && s[i + 1] == '{' {
            proof {
                lemma_find_close(s@, i + 2);
            }
            match find_close_exec(&s, i + 2) {
                None => {
                    return false;
                },
                Some(k) => {
                    let name_chars = slice_chars(&s, i + 2, k);
                    if !parameter_name_ok(&name_chars) {
                        return false;
                    }
                    proof {
                        acc = acc.push(
                            Slot { start: i as int, end: k + 2, name: name_chars@, context: ctx },
                        );
                    }
                    i = k + 2;
                },
            }
        } else if i + 1 < n && c == '}' && s[i + 1] == '}' {
            return false;
        } else {
            i = i + 1;
        }
    }
    false
}

/// The names of the placeholders, in order of appearance.
pub open spec fn slot_names(v: Seq<Slot>) -> Seq<Seq<char>> {
    Seq::new(v.len(), |k: int| v[k].name)
}

/// The distinct parameter names of a template, sorted.
pub fn parameters(template: &str) -> (r: Result<Vec<String>, String>)
    requires
        !(scan_template(template@) is Stuck),
    ensures
        match scan_template(template@) {
            Scan::Done(found) => r matches Ok(v) && v.deep_view() == sorted_of(
                slot_names(found).to_set(),
            ),
            Scan::Fail(msg) => r matches Err(e) && e@ == msg,
            Scan::Stuck => false,
        },
{
    let found = match parse_placeholders(template) {
        Ok(v) => v,
        Err(e) => {
            return Err(e);
        },
    };
    let names = placeholder_names(&found);
    let sorted = sorted_unique(&names);
    proof {
        lemma_sorted_of(sorted.deep_view());
    }
    Ok(sorted)
}

fn placeholder_names(found: &Vec<Placeholder>) -> (r: Vec<String>)
    ensures
        r.deep_view() == slot_names(slots(found@)),
{
    let mut names: Vec<String> = Vec::new();
    let mut k: usize = 0;
    while k < found.len()
        invariant
            k <= found@.len(),
            names.deep_view() == slot_names(slots(found@)).subrange(0, k as int),
        decreases found.len() - k,
    {
        let ghost before = names.deep_view();
        let name = found[k].name.clone();
        assert(name@ == found@[k as int].name@);
        names.push(name);
        assert(names.deep_view() =~= before.push(name@));
        assert(names.deep_view() =~= slot_names(slots(found@)).subrange(0, k + 1));
        k = k + 1;
    }
    assert(slot_names(slots(found@)).subrange(0, found@.len() as int) =~= slot_names(
        slots(found@),
    ));
    names
}

/// `'` written inside a single-quoted shell word: close, escaped quote, reopen.
pub open spec fn quote_in_single() -> Seq<char> {
    seq!['\'', '\\', '\'', '\'']
}

/// A value with every `'` replaced as inside single quotes.
pub open spec fn escape_single(s: Seq<char>) -> Seq<char>
    decreases s.len(),
{
    if s.len() == 0 {
        s
    } else {
        escape_single(s.drop_last()) + if s.last() == '\'' {
            quote_in_single()
        } else {
            seq![s.last()]
        }
    }
}

/// The characters that keep a special meaning inside double quotes.
pub open spec fn double_special(c: char) -> bool {
    c == '\\' || c == '"' || c == '$' || c == '`'
}

/// A value with a backslash before every character special inside double quotes.
pub open spec fn escape_double(s: Seq<char>) -> Seq<char>
    decreases s.len(),
{
    if s.len() == 0 {
        s
    } else {
        escape_double(s.drop_last()) + if double_special(s.last()) {
            seq!['\\', s.last()]
        } else {
            seq![s.last()]
        }
    }
}

/// Escapes a value for use between single quotes.
pub fn escape_single_quoted_fragment(value: &str) -> (r: String)
    ensures
        r@ == escape_single(value@),
{
    let v = chars_vec(value);
    let mut out = String::new();
    let mut i: usize = 0;
    while i < v.len()
        invariant
            v@ == value@,
            i <= v@.len(),
            out@ == escape_single(v@.subrange(0, i as int)),
        decreases v.len() - i,
    {
        let c = v[i];
        let ghost before = out@;
        if c == '\'' {
            push_char(&mut out, '\'');
            push_char(&mut out, '\\');
            push_char(&mut out, '\'');
            push_char(&mut out, '\'');
        } else {
            push_char(&mut out, c);
        }
        assert(v@.subrange(0, i + 1).drop_last() =~= v@.subrange(0, i as int));
        assert(out@ =~= before + if c == '\'' {
            quote_in_single()
        } else {
            seq![c]
        });
        i = i + 1;
    }
    assert(v@.subrange(0, v@.len() as int) =~= v@);
    out
}

/// Escapes a value for use between double quotes.
pub fn escape_double_quoted_fragment(value: &str) -> (r: String)
    ensures
        r@ == escape_double(value@),
{
    let v = chars_vec(value);
    let mut out = String::new();
    let mut i: usize = 0;
    while i < v.len()
        invariant
            v@ == value@,
            i <= v@.len(),
            out@ == escape_double(v@.subrange(0, i as int)),
        decreases v.len() - i,
    {
        let c = v[i];
        let ghost before = out@;
        if c == '\\' || c == '"' || c == '$' || c == '`' {
            push_char(&mut out, '\\');
        }
        push_char(&mut out, c);
        assert(v@.subrange(0, i + 1).drop_last() =~= v@.subrange(0, i as int));
        assert(out@ =~= before + if double_special(c) {
            seq!['\\', c]
        } else {
            seq![c]
        });
        i = i + 1;
    }
    assert(v@.subrange(0, v@.len() as int) =~= v@);
    out
}

/// The characters after which `shell_words::quote` quotes a word.
pub open spec fn shell_special(c: char) -> bool {
    ||| c == '\n' || c == '\'' || c == '|' || c == '&' || c == ';' || c == '<' || c == '>'
    ||| c == '(' || c == ')' || c == '$' || c == '`' || c == '\\' || c == '"' || c == ' '
    ||| c == '\t' || c == '*' || c == '?' || c == '[' || c == '#' || c == '~' || c == '='
    ||| c == '%'
}

/// A word quoted for the shell: `''` when empty, unchanged when it holds no
/// special character, else wrapped in single quotes with its `'` escaped.
pub open spec fn shell_quoted(s: Seq<char>) -> Seq<char> {
    if s.len() == 0 {
        seq!['\'', '\'']
    } else if forall|k: int| 0 <= k < s.len() ==> !#[trigger] shell_special(s[k]) {
        s
    } else {
        seq!['\''] + escape_single(s) + seq!['\'']
    }
}

/// `shell_words::quote`: returns the word unchanged when it is non-empty and
/// holds none of the characters of `shell_special`, `''` when it is empty, and
/// otherwise the word between single quotes with each `'` written as `'\''`.
#[verifier::external_body]
pub(crate) fn quote_word(s: &str) -> (r: String)
    ensures
        r@ == shell_quoted(s@),
{
    shell_words::quote(s).into_owned()
}

/// What a value becomes in a placeholder's quoting context.
pub open spec fn quoted_value(context: QuoteContext, value: Seq<char>) -> Seq<char> {
    match context {
        QuoteContext::Unquoted => shell_quoted(value),
        QuoteContext::Single => escape_single(value),
        QuoteContext::Double => escape_double(value),
    }
}

/// Quotes a value for a placeholder's quoting context.
pub fn quote_value(context: QuoteContext, value: &str) -> (r: String)
    ensures
        r@ == quoted_value(context, value@),
{
    match context {
        QuoteContext::Unquoted => quote_word(value),
        QuoteContext::Single => escape_single_quoted_fragment(value),
        QuoteContext::Double => escape_double_quoted_fragment(value),
    }
}

pub open spec fn names_of(e: Seq<(String, String)>) -> Seq<Seq<char>> {
    Seq::new(e.len(), |k: int| e[k].0@)
}

/// Named values for rendering a template, one value per name.
pub struct RenderArguments {
    entries: Vec<(String, String)>,
}

impl RenderArguments {
    pub closed spec fn names_seq(&self) -> Seq<Seq<char>> {
        names_of(self.entries@)
    }

    pub closed spec fn values_seq(&self) -> Seq<Seq<char>> {
        Seq::new(self.entries@.len(), |k: int| self.entries@[k].1@)
    }

    #[verifier::type_invariant]
    closed spec fn names_distinct(&self) -> bool {
        self.names_seq().no_duplicates()
    }

    closed spec fn position(&self, name: Seq<char>) -> int {
        choose|k: int| 0 <= k < self.names_seq().len() && self.names_seq()[k] == name
    }

    /// No arguments.
    pub fn new() -> (r: Self)
        ensures
            r@ == Map::<Seq<char>, Seq<char>>::empty(),
    {
        let r = RenderArguments { entries: Vec::new() };
        assert(r@ =~= Map::<Seq<char>, Seq<char>>::empty());
        r
    }

    fn find(&self, name: &str) -> (r: Option<usize>)
        ensures
            match r {
                Some(k) => k < self.entries@.len() && self.names_seq()[k as int] == name@,
                None => !self.names_seq().contains(name@),
            },
    {
        let mut k: usize = 0;
        while k < self.entries.len()
            invariant
                k <= self.entries@.len(),
                forall|m: int| 0 <= m < k ==> self.names_seq()[m] != name@,
            decreases self.entries.len() - k,
        {
            if crate::text::str_eq(self.entries[k].0.as_str(), name) {
                return Some(k);
            }
            k = k + 1;
        }
        None
    }

    /// Whether a value is given for `name`.
    pub fn contains(&self, name: &str) -> (r: bool)
        ensures
            r == self@.dom().contains(name@),
    {
        self.find(name).is_some()
    }

    /// The value given for `name`.
    pub fn get(&self, name: &str) -> (r: Option<String>)
        ensures
            match r {
                Some(v) => self@.dom().contains(name@) && self@[name@] == v@,
                None => !self@.dom().contains(name@),
            },
    {
        proof {
            use_type_invariant(self);
        }
        match self.find(name) {
            Some(k) => {
                assert(self.position(name@) == k as int);
                Some(self.entries[k].1.clone())
            },
            None => None,
        }
    }

    /// Sets the value for `name`; returns whether a value was given before.
    pub fn insert(&mut self, name: String, value: String) -> (had: bool)
        ensures
            had == old(self)@.dom().contains(name@),
            final(self)@ == old(self)@.insert(name@, value@),
    {
        proof {
            use_type_invariant(&*self);
        }
        let ghost before = *self;
        match self.find(name.as_str()) {
            Some(k) => {
                let ghost nm = name@;
                let ghost vl = value@;
                let mut entries = Vec::new();
                std::mem::swap(&mut entries, &mut self.entries);
                entries.set(k, (name, value));
                assert(names_of(entries@) =~= before.names_seq());
                self.entries = entries;
                assert(self.names_seq() =~= before.names_seq());
                assert(self.values_seq() =~= before.values_seq().update(k as int, vl));
                proof {
                    assert forall|x: Seq<char>| self@.dom().contains(x) implies self@[x]
                        == before@.insert(nm, vl)[x] by {
                        let p = self.position(x);
                        if x == nm {
                            assert(p == k);
                        } else {
                            assert(before.position(x) == p);
                        }
                    }
                }
                assert(self@ =~= before@.insert(nm, vl));
                true
            },
            None => {
                let ghost nm = name@;
                let ghost vl = value@;
                let mut entries = Vec::new();
                std::mem::swap(&mut entries, &mut self.entries);
                entries.push((name, value));
                assert(names_of(entries@) =~= before.names_seq().push(nm));
                proof {
                    let ns = names_of(entries@);
                    assert forall|a: int, b: int| 0 <= a < ns.len() && 0 <= b < ns.len() && a
                        != b implies ns[a] != ns[b] by {
                        if a == ns.len() - 1 {
                            assert(before.names_seq()[b] == ns[b]);
                        } else if b == ns.len() - 1 {
                            assert(before.names_seq()[a] == ns[a]);
                        }
                    }
                }
                self.entries = entries;
                assert(self.names_seq() =~= before.names_seq().push(nm));
                assert(self.values_seq() =~= before.values_seq().push(vl));
                proof {
                    let n = before.names_seq().len();
                    assert(self.names_seq()[n as int] == nm);
                    assert forall|x: Seq<char>| self@.dom().contains(x) implies self@[x]
                        == before@.insert(nm, vl)[x] by {
                        let p = self.position(x);
                        if x == nm {
                            assert(p == n);
                        } else {
                            assert(before.names_seq().contains(x));
                            let q = before.position(x);
                            assert(self.names_seq()[q] == x);
                            assert(p == q);
                        }
                    }
                    assert forall|x: Seq<char>| #[trigger] self@.dom().contains(x) == before@.insert(
                        nm,
                        vl,
                    ).dom().contains(x) by {
                        if before.names_seq().contains(x) {
                            let q = choose|q: int| 0 <= q < n && before.names_seq()[q] == x;
                            assert(self.names_seq()[q] == x);
                        }
                        if self.names_seq().contains(x) && x != nm {
                            let q = choose|q: int| 0 <= q <= n && self.names_seq()[q] == x;
                            assert(before.names_seq()[q] == x);
                        }
                    }
                }
                assert(self@ =~= before@.insert(nm, vl));
                false
            },
        }
    }

    /// The names that have a value, in the order they were first given.
    pub fn names(&self) -> (r: Vec<String>)
        ensures
            r.deep_view().to_set() == self@.dom(),
    {
        let mut out: Vec<String> = Vec::new();
        let mut k: usize = 0;
        while k < self.entries.len()
            invariant
                k <= self.entries@.len(),
                out.deep_view() == self.names_seq().subrange(0, k as int),
            decreases self.entries.len() - k,
        {
            let ghost before = out.deep_view();
            let name = self.entries[k].0.clone();
            out.push(name);
            assert(out.deep_view() =~= before.push(name@));
            assert(out.deep_view() =~= self.names_seq().subrange(0, k + 1));
            k = k + 1;
        }
        assert(self.names_seq().subrange(0, self.entries@.len() as int) =~= self.names_seq());
        assert(out.deep_view().to_set() =~= self@.dom());
        out
    }
}

impl View for RenderArguments {
    type V = Map<Seq<char>, Seq<char>>;

    closed spec fn view(&self) -> Map<Seq<char>, Seq<char>> {
        Map::new(
            |name: Seq<char>| self.names_seq().contains(name),
            |name: Seq<char>| self.values_seq()[self.position(name)],
        )
    }
}

impl RenderArguments {
    /// A set of arguments names finitely many parameters.
    pub proof fn lemma_names_finite(&self)
        ensures
            self@.dom().finite(),
    {
        assert(self@.dom() =~= self.names_seq().to_set());
    }
}

pub open spec fn syntax_message(value: Seq<char>) -> Seq<char> {
    "Render arguments must use NAME=VALUE syntax: '"@ + value + "'."@
}

pub open spec fn repeated_message(name: Seq<char>) -> Seq<char> {
    "Render argument '"@ + name + "' was provided more than once."@
}

/// Reading `NAME=VALUE` arguments from position `i` on, with `acc` read so far.
pub open spec fn arguments_from(
    values: Seq<Seq<char>>,
    i: int,
    acc: Map<Seq<char>, Seq<char>>,
) -> Result<Map<Seq<char>, Seq<char>>, Seq<char>>
    decreases values.len() - i,
{
    if i < 0 || i >= values.len() {
        Ok(acc)
    } else {
        match split_once(values[i], '=') {
            None => Err(syntax_message(values[i])),
            Some((name, value)) => {
                if !valid_parameter_name(name) {
                    Err(invalid_parameter_message(name))
                } else if acc.dom().contains(name) {
                    Err(repeated_message(name))
                } else {
                    arguments_from(values, i + 1, acc.insert(name, value))
                }
            },
        }
    }
}

/// Reads render arguments given as `NAME=VALUE`; the value is everything after
/// the first `=`.
pub fn parse_arguments(values: &Vec<String>) -> (r: Result<RenderArguments, String>)
    ensures
        match arguments_from(values.deep_view(), 0, Map::empty()) {
            Ok(m) => r matches Ok(a) && a@ == m,
            Err(msg) => r matches Err(e) && e@ == msg,
        },
{
    let mut args = RenderArguments::new();
    let mut i: usize = 0;
    let ghost vals = values.deep_view();
    while i < values.len()
        invariant
            i <= values@.len(),
            vals == values.deep_view(),
            arguments_from(vals, 0, Map::empty()) == arguments_from(vals, i as int, args@),
        decreases values.len() - i,
    {
        let v = chars_vec(values[i].as_str());
        assert(v@ == vals[i as int]);
        match split_once_chars(&v, '=') {
            None => {
                let mut msg = String::from_str("Render arguments must use NAME=VALUE syntax: '");
                msg.append(values[i].as_str());
                msg.append("'.");
                return Err(msg);
            },
            Some(pair) => {
                let (n, val) = pair;
                let name = string_of(&n);
                let value = string_of(&val);
                if let Err(e) = validate_parameter_name(name.as_str()) {
                    return Err(e);
                }
                let ghost before = args@;
                let ghost nm = name@;
                let mut msg = String::from_str("Render argument '");
                msg.append(name.as_str());
                msg.append("' was provided more than once.");
                if args.insert(name, value) {
                    assert(before.dom().contains(nm));
                    return Err(msg);
                }
            },
        }
        i = i + 1;
    }
    Ok(args)
}

/// The placeholder names that have no value.
pub open spec fn missing_names(found: Seq<Slot>, args: Map<Seq<char>, Seq<char>>) -> Set<
    Seq<char>,
> {
    Set::new(|n: Seq<char>| slot_names(found).contains(n) && !args.dom().contains(n))
}

/// The names with a value that no placeholder uses.
pub open spec fn unknown_names(found: Seq<Slot>, args: Map<Seq<char>, Seq<char>>) -> Set<
    Seq<char>,
> {
    Set::new(|n: Seq<char>| args.dom().contains(n) && !slot_names(found).contains(n))
}

/// An error message listing names.
pub open spec fn names_message(prefix: Seq<char>, names: Seq<Seq<char>>) -> Seq<char> {
    prefix + join_seqs(names, ", "@) + "."@
}

/// The template from `cursor` on with each placeholder replaced by its quoted value.
pub open spec fn fill(s: Seq<char>, found: Seq<Slot>, args: Map<Seq<char>, Seq<char>>, cursor: int) -> Seq<char>
    decreases found.len(),
{
    if found.len() == 0 {
        s.subrange(cursor, s.len() as int)
    } else {
        s.subrange(cursor, found[0].start) + quoted_value(found[0].context, args[found[0].name])
            + fill(s, found.drop_first(), args, found[0].end)
    }
}

/// What rendering gives: the first of missing names, unknown names, or the
/// filled template.
pub open spec fn render_outcome(template: Seq<char>, args: Map<Seq<char>, Seq<char>>) -> Result<
    Seq<char>,
    Seq<char>,
> {
    match scan_template(template) {
        Scan::Done(found) => {
            let missing = sorted_of(missing_names(found, args));
            let unknown = sorted_of(unknown_names(found, args));
            if missing.len() > 0 {
                Err(names_message("Missing render arguments: "@, missing))
            } else if unknown.len() > 0 {
                Err(names_message("Unknown render arguments: "@, unknown))
            } else {
                Ok(fill(template, found, args, 0))
            }
        },
        Scan::Fail(msg) => Err(msg),
        Scan::Stuck => Err(Seq::empty()),
    }
}

/// Holds for names without a value in `args`.
pub open spec fn absent_from(args: Map<Seq<char>, Seq<char>>) -> spec_fn(Seq<char>) -> bool {
    |n: Seq<char>| !args.dom().contains(n)
}

/// Holds for names not listed in `list`.
pub open spec fn not_listed(list: Seq<Seq<char>>) -> spec_fn(Seq<char>) -> bool {
    |n: Seq<char>| !list.contains(n)
}

fn names_without_value(names: &Vec<String>, args: &RenderArguments) -> (r: Vec<String>)
    ensures
        r.deep_view() == keep_if(names.deep_view(), absent_from(args@)),
{
    let mut out: Vec<String> = Vec::new();
    let mut k: usize = 0;
    let ghost nv = names.deep_view();
    assert(nv.subrange(0, 0) =~= Seq::<Seq<char>>::empty());
    while k < names.len()
        invariant
            k <= names@.len(),
            nv == names.deep_view(),
            out.deep_view() == keep_if(nv.subrange(0, k as int), absent_from(args@)),
        decreases names.len() - k,
    {
        let ghost before = out.deep_view();
        assert(nv.subrange(0, k + 1).drop_last() =~= nv.subrange(0, k as int));
        if !args.contains(names[k].as_str()) {
            let x = names[k].clone();
            out.push(x);
            assert(out.deep_view() =~= before.push(nv[k as int]));
        }
        k = k + 1;
    }
    assert(nv.subrange(0, names@.len() as int) =~= nv);
    out
}

fn names_not_in(names: &Vec<String>, other: &Vec<String>) -> (r: Vec<String>)
    ensures
        r.deep_view() == keep_if(names.deep_view(), not_listed(other.deep_view())),
{
    let mut out: Vec<String> = Vec::new();
    let mut k: usize = 0;
    let ghost nv = names.deep_view();
    assert(nv.subrange(0, 0) =~= Seq::<Seq<char>>::empty());
    while k < names.len()
        invariant
            k <= names@.len(),
            nv == names.deep_view(),
            out.deep_view() == keep_if(nv.subrange(0, k as int), not_listed(other.deep_view())),
        decreases names.len() - k,
    {
        let ghost before = out.deep_view();
        assert(nv.subrange(0, k + 1).drop_last() =~= nv.subrange(0, k as int));
        if !contains_string(other, names[k].as_str()) {
            let x = names[k].clone();
            out.push(x);
            assert(out.deep_view() =~= before.push(nv[k as int]));
        }
        k = k + 1;
    }
    assert(nv.subrange(0, names@.len() as int) =~= nv);
    out
}

fn names_line(prefix: &str, names: &Vec<String>) -> (r: String)
    ensures
        r@ == names_message(prefix@, names.deep_view()),
{
    let mut msg = String::from_str(prefix);
    let joined = join_strings(names, ", ");
    msg.append(joined.as_str());
    msg.append(".");
    msg
}

/// Fills a template's placeholders with the given values, each quoted for
/// the shell context it appears in.
pub fn render(template: &str, arguments: &RenderArguments) -> (r: Result<String, String>)
    requires
        !(scan_template(template@) is Stuck),
    ensures
        match render_outcome(template@, arguments@) {
            Ok(text) => r matches Ok(out) && out@ == text,
            Err(msg) => r matches Err(e) && e@ == msg,
        },
{
    let found = match parse_placeholders(template) {
        Ok(v) => v,
        Err(e) => {
            return Err(e);
        },
    };
    let ghost fs = slots(found@);
    let ghost args = arguments@;
    let names = placeholder_names(&found);
    let absent = names_without_value(&names, arguments);
    let missing = sorted_unique(&absent);
    proof {
        lemma_sorted_of(missing.deep_view());
        assert forall|n: Seq<char>| #[trigger] missing_names(fs, args).contains(n)
            == absent.deep_view().contains(n) by {
            lemma_keep_if_contains(names.deep_view(), absent_from(args), n);
        }
        assert(missing.deep_view().to_set() =~= missing_names(fs, args));
    }
    if missing.len() > 0 {
        return Err(names_line("Missing render arguments: ", &missing));
    }
    let given = arguments.names();
    let extra = names_not_in(&given, &names);
    let unknown = sorted_unique(&extra);
    proof {
        lemma_sorted_of(unknown.deep_view());
        assert forall|n: Seq<char>| #[trigger] unknown_names(fs, args).contains(n)
            == extra.deep_view().contains(n) by {
            lemma_keep_if_contains(given.deep_view(), not_listed(names.deep_view()), n);
            assert(given.deep_view().to_set().contains(n) == args.dom().contains(n));
        }
        assert(unknown.deep_view().to_set() =~= unknown_names(fs, args));
    }
    if unknown.len() > 0 {
        return Err(names_line("Unknown render arguments: ", &unknown));
    }
    let s = chars_vec(template);
    let mut out = String::new();
    let mut cursor: usize = 0;
    let mut k: usize = 0;
    proof {
        assert forall|n: Seq<char>| #[trigger] slot_names(fs).contains(n) implies args.dom().contains(
            n,
        ) by {
            if !args.dom().contains(n) {
                assert(missing_names(fs, args).contains(n));
                assert(missing.deep_view().to_set().contains(n));
            }
        }
        assert(fs.subrange(0, 0) =~= Seq::<Slot>::empty());
        assert(fs.subrange(0, fs.len() as int) =~= fs);
    }
    while k < found.len()
        invariant
            s@ == template@,
            fs == slots(found@),
            args == arguments@,
            k <= found@.len(),
            slots_ordered(fs, s@.len() as int),
            k == 0 ==> cursor == 0,
            k > 0 ==> cursor as int == fs[k - 1].end,
            cursor <= s@.len(),
            forall|n: Seq<char>| #[trigger] slot_names(fs).contains(n) ==> args.dom().contains(n),
            out@ + fill(s@, fs.subrange(k as int, fs.len() as int), args, cursor as int) == fill(
                s@,
                fs,
                args,
                0,
            ),
        decreases found.len() - k,
    {
        let p = &found[k];
        let ghost rest = fs.subrange(k as int, fs.len() as int);
        assert(rest[0] == p.slot());
        assert(rest.drop_first() =~= fs.subrange(k + 1, fs.len() as int));
        assert(slot_names(fs)[k as int] == p.name@);
        let piece = slice_chars(&s, cursor, p.start);
        let value = match arguments.get(p.name.as_str()) {
            Some(v) => v,
            None => {
                proof {
                    assert(slot_names(fs).contains(p.name@));
                }
                String::new()
            },
        };
        let quoted = quote_value(p.context, value.as_str());
        let ghost before = out@;
        let piece_str = string_of(&piece);
        out.append(piece_str.as_str());
        out.append(quoted.as_str());
        assert(out@ + fill(s@, fs.subrange(k + 1, fs.len() as int), args, p.end as int) =~= before
            + fill(s@, rest, args, cursor as int));
        cursor = p.end;
        k = k + 1;
    }
    let tail = slice_chars(&s, cursor, s.len());
    let tail_str = string_of(&tail);
    out.append(tail_str.as_str());
    Ok(out)
}


/// Rendering a template that scans succeeds exactly when the arguments give a
/// value for each of its parameters and for nothing else.
pub proof fn render_succeeds_iff_arguments_match_parameters(
    template: Seq<char>,
    args: Map<Seq<char>, Seq<char>>,
)
    requires
        args.dom().finite(),
        scan_template(template) is Done,
    ensures
        (render_outcome(template, args) is Ok) <==> args.dom() == slot_names(
            scan_template(template)->Done_0,
        ).to_set(),
{
    let found = scan_template(template)->Done_0;
    let names = slot_names(found).to_set();
    let missing = missing_names(found, args);
    let unknown = unknown_names(found, args);
    assert(missing.subset_of(names));
    assert(unknown.subset_of(args.dom()));
    vstd::set_lib::lemma_set_subset_finite(names, missing);
    vstd::set_lib::lemma_set_subset_finite(args.dom(), unknown);
    lemma_sorted_of_empty(missing);
    lemma_sorted_of_empty(unknown);
    if args.dom() == names {
        assert(missing =~= Set::<Seq<char>>::empty());
        assert(unknown =~= Set::<Seq<char>>::empty());
    }
    if missing == Set::<Seq<char>>::empty() && unknown == Set::<Seq<char>>::empty() {
        assert forall|n: Seq<char>| args.dom().contains(n) <==> names.contains(n) by {
            if args.dom().contains(n) && !names.contains(n) {
                assert(unknown.contains(n));
            }
            if names.contains(n) && !args.dom().contains(n) {
                assert(missing.contains(n));
            }
        }
        assert(args.dom() =~= names);
    }
}

} // verus!
