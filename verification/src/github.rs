//! GitHub repository names and the managed checkout locations derived from them.
use crate::path::{join_path, path_join};
use crate::text::{
    chars_vec, ends_with, ends_with_chars, is_ascii_alnum, is_ascii_alphanumeric, slice_chars,
    split_once, split_once_chars, string_of, strip_prefix, strip_prefix_str, trim, trim_str,
};
use vstd::prelude::*;

verus! {

pub const DEFAULT_GITHUB_REPO_AUTO_UPDATE_INTERVAL_MINUTES: u64 = 15;

pub open spec fn repo_part_char(c: char) -> bool {
    is_ascii_alnum(c) || c == '-' || c == '_' || c == '.'
}

/// An owner or repository name: non-empty ASCII letters, digits, `-`, `_` and `.`.
pub open spec fn is_valid_repo_part(p: Seq<char>) -> bool {
    p.len() > 0 && forall|i: int| 0 <= i < p.len() ==> repo_part_char(#[trigger] p[i])
}

pub open spec fn repo_format_error() -> Seq<char> {
    "GitHub repository must be in the format <owner>/<repo>."@
}

pub open spec fn repo_chars_error() -> Seq<char> {
    "GitHub repository must be in the format <owner>/<repo> using only letters, numbers, dots, underscores, and hyphens."@
}

/// The error for a GitHub repository name, if it is not `<owner>/<repo>`.
pub open spec fn github_repo_error(repo: Seq<char>) -> Option<Seq<char>> {
    match split_once(repo, '/') {
        None => Some(repo_format_error()),
        Some((owner, name)) => if is_valid_repo_part(owner) && is_valid_repo_part(name) {
            None
        } else {
            Some(repo_chars_error())
        },
    }
}

fn valid_repo_part(p: &Vec<char>) -> (r: bool)
    ensures
        r == is_valid_repo_part(p@),
{
    if p.len() == 0 {
        return false;
    }
    let mut i: usize = 0;
    while i < p.len()
        invariant
            i <= p@.len(),
            forall|k: int| 0 <= k < i ==> repo_part_char(#[trigger] p@[k]),
        decreases p.len() - i,
    {
        let c = p[i];
        if !(is_ascii_alphanumeric(c) || c == '-' || c == '_' || c == '.') {
            return false;
        }
        i = i + 1;
    }
    true
}

/// Checks that `repo` is `<owner>/<repo>` with valid parts.
pub fn validate_github_repo_name(repo: &str) -> (r: Result<(), String>)
    ensures
        r is Ok <==> github_repo_error(repo@) is None,
        r matches Err(e) ==> github_repo_error(repo@) == Some(e@),
{
    let v = chars_vec(repo);
    match split_once_chars(&v, '/') {
        None => Err(String::from_str("GitHub repository must be in the format <owner>/<repo>.")),
        Some((owner, name)) => {
            if valid_repo_part(&owner) && valid_repo_part(&name) {
                Ok(())
            } else {
                Err(String::from_str("GitHub repository must be in the format <owner>/<repo> using only letters, numbers, dots, underscores, and hyphens."))
            }
        },
    }
}

/// `str::trim_end_matches` with a character.
pub open spec fn trim_end_char(s: Seq<char>, c: char) -> Seq<char>
    decreases s.len(),
{
    if s.len() > 0 && s.last() == c {
        trim_end_char(s.drop_last(), c)
    } else {
        s
    }
}

/// `str::trim_end_matches` with a non-empty string.
pub open spec fn trim_end_seq(s: Seq<char>, p: Seq<char>) -> Seq<char>
    decreases s.len(),
{
    if p.len() > 0 && ends_with(s, p) {
        trim_end_seq(s.subrange(0, s.len() - p.len()), p)
    } else {
        s
    }
}

/// The input with the first matching GitHub URL prefix removed.
pub open spec fn strip_github_prefix(t: Seq<char>) -> Seq<char> {
    if strip_prefix(t, "https://github.com/"@) is Some {
        strip_prefix(t, "https://github.com/"@)->0
    } else if strip_prefix(t, "http://github.com/"@) is Some {
        strip_prefix(t, "http://github.com/"@)->0
    } else if strip_prefix(t, "https://www.github.com/"@) is Some {
        strip_prefix(t, "https://www.github.com/"@)->0
    } else if strip_prefix(t, "http://www.github.com/"@) is Some {
        strip_prefix(t, "http://www.github.com/"@)->0
    } else if strip_prefix(t, "github.com/"@) is Some {
        strip_prefix(t, "github.com/"@)->0
    } else if strip_prefix(t, "git@github.com:"@) is Some {
        strip_prefix(t, "git@github.com:"@)->0
    } else {
        t
    }
}

/// `<owner>/<repo>` from a repository URL or name: trimmed, GitHub prefix removed,
/// trailing `/` and `.git` removed.
pub open spec fn normalized_repo(input: Seq<char>) -> Seq<char> {
    trim_end_seq(trim_end_char(strip_github_prefix(trim(input)), '/'), ".git"@)
}

pub open spec fn empty_repo_error() -> Seq<char> {
    "GitHub repository cannot be empty."@
}

fn trim_end_char_exec(v: &Vec<char>, c: char) -> (r: Vec<char>)
    ensures
        r@ == trim_end_char(v@, c),
{
    let mut n = v.len();
    assert(v@.subrange(0, v@.len() as int) =~= v@);
    while n > 0 && v[n - 1] == c
        invariant
            n <= v@.len(),
            trim_end_char(v@.subrange(0, n as int), c) == trim_end_char(v@, c),
        decreases n,
    {
        assert(v@.subrange(0, n as int).drop_last() =~= v@.subrange(0, n - 1));
        n = n - 1;
    }
    let r = slice_chars(v, 0, n);
    r
}

fn trim_end_seq_exec(v: &Vec<char>, p: &Vec<char>) -> (r: Vec<char>)
    requires
        p@.len() > 0,
    ensures
        r@ == trim_end_seq(v@, p@),
{
    let mut cur = crate::text::copy_chars(v);
    while ends_with_chars(&cur, p)
        invariant
            p@.len() > 0,
            trim_end_seq(cur@, p@) == trim_end_seq(v@, p@),
        decreases cur@.len(),
    {
        let n = cur.len() - p.len();
        cur = slice_chars(&cur, 0, n);
    }
    cur
}

fn strip_first_prefix(t: &str) -> (r: String)
    ensures
        r@ == strip_github_prefix(t@),
{
    if let Some(s) = strip_prefix_str(t, "https://github.com/") {
        return s;
    }
    if let Some(s) = strip_prefix_str(t, "http://github.com/") {
        return s;
    }
    if let Some(s) = strip_prefix_str(t, "https://www.github.com/") {
        return s;
    }
    if let Some(s) = strip_prefix_str(t, "http://www.github.com/") {
        return s;
    }
    if let Some(s) = strip_prefix_str(t, "github.com/") {
        return s;
    }
    if let Some(s) = strip_prefix_str(t, "git@github.com:") {
        return s;
    }
    String::from_str(t)
}

/// Turns a GitHub URL or `<owner>/<repo>` into `<owner>/<repo>`.
pub fn normalize_github_repo_input(input: &str) -> (r: Result<String, String>)
    ensures
        trim(input@).len() == 0 ==> (r matches Err(e) && e@ == empty_repo_error()),
        trim(input@).len() > 0 ==> (match github_repo_error(normalized_repo(input@)) {
            None => r matches Ok(n) && n@ == normalized_repo(input@),
            Some(msg) => r matches Err(e) && e@ == msg,
        }),
{
    let trimmed = trim_str(input);
    if trimmed.unicode_len() == 0 {
        return Err(String::from_str("GitHub repository cannot be empty."));
    }
    let stripped = strip_first_prefix(trimmed.as_str());
    let sv = chars_vec(stripped.as_str());
    let a = trim_end_char_exec(&sv, '/');
    let git = chars_vec(".git");
    proof {
        reveal_strlit(".git");
    }
    let b = trim_end_seq_exec(&a, &git);
    let normalized = string_of(&b);
    validate_github_repo_name(normalized.as_str())?;
    Ok(normalized)
}

/// `<owner>__<repo>` for a valid `<owner>/<repo>`.
pub open spec fn repo_slug(repo: Seq<char>) -> Seq<char> {
    let (owner, name) = split_once(repo, '/')->0;
    owner + "__"@ + name
}

/// The directory name of a managed checkout: `<owner>__<repo>`.
pub fn github_repo_slug(github_repo: &str) -> (r: Result<String, String>)
    ensures
        match github_repo_error(github_repo@) {
            None => r matches Ok(s) && s@ == repo_slug(github_repo@),
            Some(msg) => r matches Err(e) && e@ == msg,
        },
{
    validate_github_repo_name(github_repo)?;
    let v = chars_vec(github_repo);
    match split_once_chars(&v, '/') {
        Some((owner, name)) => {
            let mut s = string_of(&owner);
            s.append("__");
            let n = string_of(&name);
            s.append(n.as_str());
            Ok(s)
        },
        None => Err(String::from_str("GitHub repository must be in the format <owner>/<repo>.")),
    }
}

/// Where the managed checkout of `github_repo` lives under `repository_root`.
pub fn get_github_repo_checkout_path(repository_root: &str, github_repo: &str) -> (r: Result<String, String>)
    ensures
        match github_repo_error(github_repo@) {
            None => r matches Ok(p) && p@ == path_join(repository_root@, repo_slug(github_repo@)),
            Some(msg) => r matches Err(e) && e@ == msg,
        },
{
    let slug = github_repo_slug(github_repo)?;
    Ok(join_path(repository_root, slug.as_str()))
}

/// Where the sync stamp of `github_repo` lives under `state_root`.
pub fn get_github_repo_sync_stamp_path(state_root: &str, github_repo: &str) -> (r: Result<String, String>)
    ensures
        match github_repo_error(github_repo@) {
            None => r matches Ok(p) && p@ == path_join(state_root@, repo_slug(github_repo@) + ".sync"@),
            Some(msg) => r matches Err(e) && e@ == msg,
        },
{
    let mut slug = github_repo_slug(github_repo)?;
    slug.append(".sync");
    Ok(join_path(state_root, slug.as_str()))
}

/// The stamp to consult before refreshing a managed checkout: none when
/// refreshing is off, else the repository's stamp path (or why it has none).
pub fn update_stamp_to_check(github_repo: &str, auto_update_repo: bool, state_root: &str) -> (r: Result<
    Option<String>,
    String,
>)
    ensures
        !auto_update_repo ==> r matches Ok(None),
        auto_update_repo ==> match github_repo_error(github_repo@) {
            None => r matches Ok(Some(p)) && p@ == path_join(state_root@, repo_slug(github_repo@) + ".sync"@),
            Some(msg) => r matches Err(e) && e@ == msg,
        },
{
    if !auto_update_repo {
        return Ok(None);
    }
    let stamp = get_github_repo_sync_stamp_path(state_root, github_repo)?;
    Ok(Some(stamp))
}

} // verus!
