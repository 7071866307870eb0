//! References to named commands: `local/<shelf>/<name>` and
//! `shared/<team>/<shelf>/<name>`.
use crate::config::{
    is_valid_name, name_char, shelf_name_error, team_name_error, validate_shelf_name,
    validate_team_name,
};
use crate::database::{
    command_name_char, command_name_error, is_valid_command_name, validate_command_name,
};
use crate::text::{
    chars_eq, chars_vec, join_seqs, split_char, split_chars, string_of, Sep,
};
use vstd::prelude::*;

verus! {

/// A reference to a named command.
#[derive(Debug, Clone, PartialEq, Eq)]
pub enum CommandRef {
    Local { shelf: String, name: String },
    Shared { team: String, shelf: String, name: String },
}

/// The `/`-separated parts of a reference.
pub open spec fn ref_parts(r: CommandRef) -> Seq<Seq<char>> {
    match r {
        CommandRef::Local { shelf, name } => seq!["local"@, shelf@, name@],
        CommandRef::Shared { team, shelf, name } => seq!["shared"@, team@, shelf@, name@],
    }
}

/// The text of a reference.
pub open spec fn ref_text(r: CommandRef) -> Seq<char> {
    join_seqs(ref_parts(r), "/"@)
}

pub open spec fn invalid_ref_error(value: Seq<char>) -> Seq<char> {
    "Invalid command reference '"@ + value
        + "'. Use local/<shelf>/<name> or shared/<team>/<shelf>/<name>."@
}

/// What parsing `value` gives: its parts when it is a valid reference, else the
/// first error found (shape, then team, shelf and command names in order).
pub open spec fn parse_ref_outcome(value: Seq<char>) -> Result<Seq<Seq<char>>, Seq<char>> {
    let p = split_char(value, '/');
    if p.len() == 3 && p[0] == "local"@ {
        if !is_valid_name(p[1]) {
            Err(shelf_name_error())
        } else if !is_valid_command_name(p[2]) {
            Err(command_name_error())
        } else {
            Ok(p)
        }
    } else if p.len() == 4 && p[0] == "shared"@ {
        if !is_valid_name(p[1]) {
            Err(team_name_error())
        } else if !is_valid_name(p[2]) {
            Err(shelf_name_error())
        } else if !is_valid_command_name(p[3]) {
            Err(command_name_error())
        } else {
            Ok(p)
        }
    } else {
        Err(invalid_ref_error(value))
    }
}

proof fn lemma_join_unfold(a: Seq<Seq<char>>, sep: Seq<char>)
    requires
        a.len() >= 2,
    ensures
        join_seqs(a, sep) == join_seqs(a.drop_last(), sep) + sep + a.last(),
{
}

proof fn lemma_join_prepend_first(x: Seq<char>, a: Seq<Seq<char>>, sep: Seq<char>)
    requires
        a.len() >= 1,
    ensures
        join_seqs(a.update(0, x + a[0]), sep) == x + join_seqs(a, sep),
    decreases a.len(),
{
    let b = a.update(0, x + a[0]);
    if a.len() == 1 {
        assert(join_seqs(b, sep) == b[0]);
        assert(join_seqs(a, sep) == a[0]);
    } else {
        lemma_join_unfold(a, sep);
        lemma_join_unfold(b, sep);
        assert(b.drop_last() =~= a.drop_last().update(0, x + a.drop_last()[0]));
        lemma_join_prepend_first(x, a.drop_last(), sep);
        assert(b.last() == a.last());
        assert(x + join_seqs(a.drop_last(), sep) + sep + a.last() =~= x + (join_seqs(
            a.drop_last(),
            sep,
        ) + sep + a.last()));
    }
}

proof fn lemma_join_cons(e: Seq<char>, rest: Seq<Seq<char>>, sep: Seq<char>)
    requires
        rest.len() >= 1,
    ensures
        join_seqs(seq![e] + rest, sep) == e + sep + join_seqs(rest, sep),
    decreases rest.len(),
{
    let a = seq![e] + rest;
    lemma_join_unfold(a, sep);
    assert(a.last() == rest.last());
    if rest.len() == 1 {
        assert(a.drop_last() =~= seq![e]);
        assert(join_seqs(seq![e], sep) == e);
        assert(join_seqs(rest, sep) == rest[0]);
    } else {
        assert(a.drop_last() =~= seq![e] + rest.drop_last());
        lemma_join_cons(e, rest.drop_last(), sep);
        lemma_join_unfold(rest, sep);
        assert(e + sep + join_seqs(rest.drop_last(), sep) + sep + rest.last() =~= e + sep + (
        join_seqs(rest.drop_last(), sep) + sep + rest.last()));
    }
}

/// Joining the pieces of a split with the separator gives back the text.
pub proof fn lemma_join_split(s: Seq<char>, c: char)
    ensures
        join_seqs(split_char(s, c), seq![c]) == s,
    decreases s.len(),
{
    if s.len() == 0 {
        assert(split_char(s, c) =~= seq![Seq::<char>::empty()]);
        assert(s =~= Seq::<char>::empty());
    } else {
        let t = s.drop_first();
        lemma_join_split(t, c);
        crate::text::lemma_split_on_nonempty(t, Sep::Char(c));
        let rest = split_char(t, c);
        if s[0] == c {
            assert(split_char(s, c) == seq![Seq::<char>::empty()] + rest);
            lemma_join_cons(Seq::<char>::empty(), rest, seq![c]);
            assert(Seq::<char>::empty() + seq![c] + t =~= s);
        } else {
            assert(split_char(s, c) == rest.update(0, seq![s[0]] + rest[0]));
            lemma_join_prepend_first(seq![s[0]], rest, seq![c]);
            assert(seq![s[0]] + t =~= s);
        }
    }
}

impl CommandRef {
    /// Parses `local/<shelf>/<name>` or `shared/<team>/<shelf>/<name>`.
    pub fn parse(value: &str) -> (r: Result<Self, String>)
        ensures
            match parse_ref_outcome(value@) {
                Ok(p) => r matches Ok(cr) && ref_parts(cr) == p,
                Err(msg) => r matches Err(e) && e@ == msg,
            },
            r matches Ok(cr) ==> ref_text(cr) == value@,
    {
        let v = chars_vec(value);
        let parts = split_chars(&v, Sep::Char('/'));
        let ghost p = split_char(value@, '/');
        proof {
            lemma_join_split(value@, '/');
            reveal_strlit("/");
            assert("/"@ =~= seq!['/']);
        }
        let local = chars_vec("local");
        let shared = chars_vec("shared");
        if parts.len() == 3 && chars_eq(&parts[0], &local) {
            let shelf = string_of(&parts[1]);
            let name = string_of(&parts[2]);
            validate_shelf_name(shelf.as_str())?;
            validate_command_name(name.as_str())?;
            let r = CommandRef::Local { shelf, name };
            assert(ref_parts(r) =~= p);
            Ok(r)
        } else if parts.len() == 4 && chars_eq(&parts[0], &shared) {
            let team = string_of(&parts[1]);
            let shelf = string_of(&parts[2]);
            let name = string_of(&parts[3]);
            validate_team_name(team.as_str())?;
            validate_shelf_name(shelf.as_str())?;
            validate_command_name(name.as_str())?;
            let r = CommandRef::Shared { team, shelf, name };
            assert(ref_parts(r) =~= p);
            Ok(r)
        } else {
            let mut msg = String::from_str("Invalid command reference '");
            msg.append(value);
            msg.append("'. Use local/<shelf>/<name> or shared/<team>/<shelf>/<name>.");
            Err(msg)
        }
    }

    /// The command name of the reference.
    pub fn name(&self) -> (r: &str)
        ensures
            r@ == match self {
                CommandRef::Local { name, .. } => name@,
                CommandRef::Shared { name, .. } => name@,
            },
    {
        match self {
            CommandRef::Local { name, .. } => name.as_str(),
            CommandRef::Shared { name, .. } => name.as_str(),
        }
    }

    /// The text of the reference (what `Display` shows).
    /// The answer when no stored command carries the reference's name.
    pub fn not_found_message(&self) -> (r: String)
        ensures
            r@ == "Named command '"@ + ref_text(*self) + "' was not found."@,
    {
        let mut m = String::from_str("Named command '");
        let text = self.to_string();
        m.append(text.as_str());
        m.append("' was not found.");
        m
    }

    pub fn to_string(&self) -> (r: String)
        ensures
            r@ == ref_text(*self),
    {
        let mut s: String;
        match self {
            CommandRef::Local { shelf, name } => {
                s = String::from_str("local/");
                s.append(shelf.as_str());
                s.append("/");
                s.append(name.as_str());
            },
            CommandRef::Shared { team, shelf, name } => {
                s = String::from_str("shared/");
                s.append(team.as_str());
                s.append("/");
                s.append(shelf.as_str());
                s.append("/");
                s.append(name.as_str());
            },
        }
        proof {
            reveal_strlit("local/");
            reveal_strlit("shared/");
            reveal_strlit("local");
            reveal_strlit("shared");
            reveal_strlit("/");
            let parts = ref_parts(*self);
            let sep = "/"@;
            match self {
                CommandRef::Local { shelf, name } => {
                    lemma_join_unfold(parts, sep);
                    assert(parts.drop_last() =~= seq!["local"@, shelf@]);
                    lemma_join_unfold(parts.drop_last(), sep);
                    assert(parts.drop_last().drop_last() =~= seq!["local"@]);
                    assert(join_seqs(seq!["local"@], sep) == "local"@);
                    assert(s@ =~= "local"@ + sep + shelf@ + sep + name@);
                },
                CommandRef::Shared { team, shelf, name } => {
                    lemma_join_unfold(parts, sep);
                    assert(parts.drop_last() =~= seq!["shared"@, team@, shelf@]);
                    lemma_join_unfold(parts.drop_last(), sep);
                    assert(parts.drop_last().drop_last() =~= seq!["shared"@, team@]);
                    lemma_join_unfold(parts.drop_last().drop_last(), sep);
                    assert(parts.drop_last().drop_last().drop_last() =~= seq!["shared"@]);
                    assert(join_seqs(seq!["shared"@], sep) == "shared"@);
                    assert(s@ =~= "shared"@ + sep + team@ + sep + shelf@ + sep + name@);
                },
            }
        }
        s
    }
}


/// `c` occurs nowhere in `s`.
pub open spec fn free_of(s: Seq<char>, c: char) -> bool {
    forall|i: int| 0 <= i < s.len() ==> s[i] != c
}

proof fn lemma_split_whole(a: Seq<char>, c: char)
    requires
        free_of(a, c),
    ensures
        split_char(a, c) == seq![a],
    decreases a.len(),
{
    if a.len() == 0 {
        assert(a =~= Seq::<char>::empty());
        assert(split_char(a, c) == seq![Seq::<char>::empty()]);
    } else {
        lemma_split_whole(a.drop_first(), c);
        assert(a[0] != c);
        assert(seq![a[0]] + a.drop_first() =~= a);
        let rest = split_char(a.drop_first(), c);
        assert(rest == seq![a.drop_first()]);
        assert(split_char(a, c) == rest.update(0, seq![a[0]] + rest[0]));
        assert(split_char(a, c) =~= seq![a]);
    }
}

proof fn lemma_split_after(a: Seq<char>, c: char, b: Seq<char>)
    requires
        free_of(a, c),
    ensures
        split_char(a + seq![c] + b, c) == seq![a] + split_char(b, c),
    decreases a.len(),
{
    let s = a + seq![c] + b;
    if a.len() == 0 {
        assert(s[0] == c);
        assert(s.drop_first() =~= b);
        assert(a =~= Seq::<char>::empty());
    } else {
        lemma_split_after(a.drop_first(), c, b);
        assert(s.drop_first() =~= a.drop_first() + seq![c] + b);
        assert(s[0] == a[0]);
        assert(seq![a[0]] + a.drop_first() =~= a);
        assert(split_char(s, c) =~= seq![a] + split_char(b, c));
    }
}

proof fn lemma_split_join(parts: Seq<Seq<char>>, c: char)
    requires
        parts.len() >= 1,
        forall|k: int| 0 <= k < parts.len() ==> free_of(#[trigger] parts[k], c),
    ensures
        split_char(join_seqs(parts, seq![c]), c) == parts,
    decreases parts.len(),
{
    if parts.len() == 1 {
        assert(join_seqs(parts, seq![c]) == parts[0]);
        lemma_split_whole(parts[0], c);
        assert(parts =~= seq![parts[0]]);
    } else {
        let rest = parts.drop_first();
        assert(parts =~= seq![parts[0]] + rest);
        lemma_join_cons(parts[0], rest, seq![c]);
        assert forall|k: int| 0 <= k < rest.len() implies free_of(#[trigger] rest[k], c) by {
            assert(rest[k] == parts[k + 1]);
        }
        lemma_split_join(rest, c);
        assert(free_of(parts[0], c));
        lemma_split_after(parts[0], c, join_seqs(rest, seq![c]));
    }
}

/// The names of a reference are all valid.
pub open spec fn ref_names_valid(r: CommandRef) -> bool {
    match r {
        CommandRef::Local { shelf, name } => is_valid_name(shelf@) && is_valid_command_name(name@),
        CommandRef::Shared { team, shelf, name } => is_valid_name(team@) && is_valid_name(shelf@)
            && is_valid_command_name(name@),
    }
}

/// References read back from their text: formatting a parsed reference gives
/// the text that was parsed, and parsing the text of a reference with valid
/// names gives that reference's parts.
pub proof fn references_round_trip(value: Seq<char>, r: CommandRef)
    ensures
        parse_ref_outcome(value) matches Ok(p) ==> join_seqs(p, "/"@) == value,
        ref_names_valid(r) ==> parse_ref_outcome(ref_text(r)) == Ok::<Seq<Seq<char>>, Seq<char>>(
            ref_parts(r),
        ),
{
    reveal_strlit("/");
    reveal_strlit("local");
    reveal_strlit("shared");
    assert("/"@ =~= seq!['/']);
    lemma_join_split(value, '/');
    if ref_names_valid(r) {
        let parts = ref_parts(r);
        assert forall|k: int| 0 <= k < parts.len() implies free_of(#[trigger] parts[k], '/') by {
            if k == 0 {
                assert("local"@.len() == 5 && "shared"@.len() == 6);
            } else {
                let p = parts[k];
                assert forall|i: int| 0 <= i < p.len() implies p[i] != '/' by {
                    match r {
                        CommandRef::Local { shelf, name } => {
                            if k == 1 {
                                assert(name_char(shelf@[i]));
                            } else {
                                assert(command_name_char(name@[i]));
                            }
                        },
                        CommandRef::Shared { team, shelf, name } => {
                            if k == 1 {
                                assert(name_char(team@[i]));
                            } else if k == 2 {
                                assert(name_char(shelf@[i]));
                            } else {
                                assert(command_name_char(name@[i]));
                            }
                        },
                    }
                }
            }
        }
        lemma_split_join(parts, '/');
        assert(split_char(ref_text(r), '/') == parts);
    }
}

} // verus!
