//! Publishing shared-shelf changes through a pull request: branch names, the
//! choice of branches, and reading what git and the GitHub CLI report.
use crate::text::{
    ascii_lower, chars_vec, decimal, is_ascii_alnum, is_ascii_digit, is_ascii_lower, is_ascii_alphanumeric, push_char, slice_chars,
    str_eq, string_of, strip_prefix, to_ascii_lowercase, trim, trim_str,
};
use vstd::prelude::*;

verus! {

/// Characters kept as they are in a branch component, and trimmed from its ends.
pub open spec fn branch_mark(c: char) -> bool {
    c == '-' || c == '_' || c == '.'
}

/// A branch component built so far, and whether it ends with a separator
/// standing for skipped characters.
pub open spec fn slug_step(st: (Seq<char>, bool), c: char) -> (Seq<char>, bool) {
    if is_ascii_alnum(c) {
        (st.0.push(ascii_lower(c)), false)
    } else if branch_mark(c) {
        (st.0.push(c), false)
    } else if !st.1 {
        (st.0.push('-'), true)
    } else {
        st
    }
}

/// Letters and digits in lowercase, `-`, `_` and `.` kept, each run of other
/// characters turned into one `-`.
pub open spec fn slug_of(s: Seq<char>) -> (Seq<char>, bool)
    decreases s.len(),
{
    if s.len() == 0 {
        (Seq::empty(), false)
    } else {
        slug_step(slug_of(s.drop_last()), s.last())
    }
}

pub open spec fn trim_marks_start(s: Seq<char>) -> Seq<char>
    decreases s.len(),
{
    if s.len() > 0 && branch_mark(s[0]) {
        trim_marks_start(s.drop_first())
    } else {
        s
    }
}

pub open spec fn trim_marks_end(s: Seq<char>) -> Seq<char>
    decreases s.len(),
{
    if s.len() > 0 && branch_mark(s.last()) {
        trim_marks_end(s.drop_last())
    } else {
        s
    }
}

/// A value made safe as part of a branch name: the slug without `-`, `_` and
/// `.` at its ends, or `update` when nothing is left.
pub open spec fn sanitized_component(value: Seq<char>) -> Seq<char> {
    let t = trim_marks_end(trim_marks_start(slug_of(value).0));
    if t.len() == 0 {
        "update"@
    } else {
        t
    }
}

proof fn lemma_trim_marks_start_at(s: Seq<char>, i: int)
    requires
        0 <= i <= s.len(),
        forall|k: int| 0 <= k < i ==> branch_mark(#[trigger] s[k]),
        i == s.len() || !branch_mark(s[i]),
    ensures
        trim_marks_start(s).len() <= s.len(),
        trim_marks_start(s) == s.subrange(i, s.len() as int),
    decreases i,
{
    if i == 0 {
        assert(s.subrange(0, s.len() as int) =~= s);
    } else {
        let t = s.drop_first();
        assert forall|k: int| 0 <= k < i - 1 implies branch_mark(#[trigger] t[k]) by {
            assert(t[k] == s[k + 1]);
        }
        lemma_trim_marks_start_at(t, i - 1);
        assert(t.subrange(i - 1, t.len() as int) =~= s.subrange(i, s.len() as int));
    }
}

proof fn lemma_trim_marks_end_at(s: Seq<char>, j: int)
    requires
        0 <= j <= s.len(),
        forall|k: int| j <= k < s.len() ==> branch_mark(#[trigger] s[k]),
        j == 0 || !branch_mark(s[j - 1]),
    ensures
        trim_marks_end(s).len() <= s.len(),
        trim_marks_end(s) == s.subrange(0, j),
    decreases s.len() - j,
{
    if j == s.len() {
        assert(s.subrange(0, j) =~= s);
    } else {
        let t = s.drop_last();
        assert forall|k: int| j <= k < t.len() implies branch_mark(#[trigger] t[k]) by {
            assert(t[k] == s[k]);
        }
        lemma_trim_marks_end_at(t, j);
        assert(t.subrange(0, j) =~= s.subrange(0, j));
    }
}

/// A character a branch component may hold: a lowercase ASCII letter, an ASCII
/// digit, `-`, `_` or `.`.
pub open spec fn branch_char(c: char) -> bool {
    is_ascii_lower(c) || is_ascii_digit(c) || branch_mark(c)
}

/// A finished branch component: non-empty, made of branch characters, and
/// neither starting nor ending with `-`, `_` or `.`.
pub open spec fn is_branch_component(t: Seq<char>) -> bool {
    &&& t.len() > 0
    &&& forall|k: int| 0 <= k < t.len() ==> branch_char(#[trigger] t[k])
    &&& !branch_mark(t[0])
    &&& !branch_mark(t.last())
}

proof fn lemma_slug_chars(s: Seq<char>)
    ensures
        forall|k: int| 0 <= k < slug_of(s).0.len() ==> branch_char(#[trigger] slug_of(s).0[k]),
    decreases s.len(),
{
    if s.len() > 0 {
        let prev = slug_of(s.drop_last());
        lemma_slug_chars(s.drop_last());
        let c = s.last();
        let next = slug_step(prev, c);
        assert(slug_of(s) == next);
        if is_ascii_alnum(c) {
            assert(branch_char(ascii_lower(c)));
        }
        assert forall|k: int| 0 <= k < next.0.len() implies branch_char(#[trigger] next.0[k]) by {
            if k < prev.0.len() {
                assert(next.0[k] == prev.0[k]);
            }
        }
    }
}

proof fn lemma_trim_start_suffix(s: Seq<char>)
    ensures
        trim_marks_start(s).len() <= s.len(),
        trim_marks_start(s) == s.subrange(s.len() - trim_marks_start(s).len(), s.len() as int),
        trim_marks_start(s).len() > 0 ==> !branch_mark(trim_marks_start(s)[0]),
    decreases s.len(),
{
    if s.len() > 0 && branch_mark(s[0]) {
        lemma_trim_start_suffix(s.drop_first());
        let t = trim_marks_start(s);
        assert(s.drop_first().subrange(s.len() - 1 - t.len(), s.len() - 1) =~= s.subrange(
            s.len() - t.len(),
            s.len() as int,
        ));
    } else {
        assert(s.subrange(0, s.len() as int) =~= s);
    }
}

proof fn lemma_trim_end_prefix(s: Seq<char>)
    ensures
        trim_marks_end(s).len() <= s.len(),
        trim_marks_end(s) == s.subrange(0, trim_marks_end(s).len() as int),
        trim_marks_end(s).len() > 0 ==> !branch_mark(trim_marks_end(s).last()),
    decreases s.len(),
{
    if s.len() > 0 && branch_mark(s.last()) {
        lemma_trim_end_prefix(s.drop_last());
        let t = trim_marks_end(s);
        assert(s.drop_last().subrange(0, t.len() as int) =~= s.subrange(0, t.len() as int));
    } else {
        assert(s.subrange(0, s.len() as int) =~= s);
    }
}

proof fn lemma_slug_of_component_chars(t: Seq<char>)
    requires
        forall|k: int| 0 <= k < t.len() ==> branch_char(#[trigger] t[k]),
    ensures
        slug_of(t) == (t, false),
    decreases t.len(),
{
    if t.len() > 0 {
        let p = t.drop_last();
        assert forall|k: int| 0 <= k < p.len() implies branch_char(#[trigger] p[k]) by {
            assert(p[k] == t[k]);
        }
        lemma_slug_of_component_chars(p);
        assert(branch_char(t[t.len() - 1]));
        assert(p.push(t.last()) =~= t);
    }
}

proof fn lemma_component_fixed(t: Seq<char>)
    requires
        is_branch_component(t),
    ensures
        sanitized_component(t) == t,
{
    lemma_slug_of_component_chars(t);
    lemma_trim_marks_start_at(t, 0);
    assert(t.subrange(0, t.len() as int) =~= t);
    lemma_trim_marks_end_at(t, t.len() as int);
}

/// Branch components are well formed and settled: sanitizing gives a non-empty
/// text of lowercase ASCII letters, digits, `-`, `_` and `.`, which neither
/// starts nor ends with `-`, `_` or `.`; and sanitizing it again changes nothing.
pub proof fn sanitized_components_are_settled(value: Seq<char>)
    ensures
        is_branch_component(sanitized_component(value)),
        sanitized_component(sanitized_component(value)) == sanitized_component(value),
{
    let slug = slug_of(value).0;
    lemma_slug_chars(value);
    let a = trim_marks_start(slug);
    lemma_trim_start_suffix(slug);
    let b = trim_marks_end(a);
    lemma_trim_end_prefix(a);
    if b.len() == 0 {
        reveal_strlit("update");
        assert(is_branch_component("update"@));
    } else {
        assert forall|k: int| 0 <= k < b.len() implies branch_char(#[trigger] b[k]) by {
            assert(b[k] == a[k]);
            assert(a[k] == slug[slug.len() - a.len() + k]);
        }
        assert(b[0] == a[0]);
    }
    lemma_component_fixed(sanitized_component(value));
}

/// Turns text into a part of a branch name.
pub fn sanitize_branch_component(value: &str) -> (r: String)
    ensures
        r@ == sanitized_component(value@),
{
    let v = chars_vec(value);
    let mut slug: Vec<char> = Vec::new();
    let mut previous_was_separator = false;
    let mut i: usize = 0;
    assert(v@.subrange(0, 0) =~= Seq::<char>::empty());
    while i < v.len()
        invariant
            i <= v@.len(),
            v@ == value@,
            slug_of(v@.subrange(0, i as int)) == (slug@, previous_was_separator),
        decreases v.len() - i,
    {
        let c = v[i];
        assert(v@.subrange(0, i + 1).drop_last() =~= v@.subrange(0, i as int));
        if is_ascii_alphanumeric(c) {
            slug.push(to_ascii_lowercase(c));
            previous_was_separator = false;
        } else if c == '-' || c == '_' || c == '.' {
            slug.push(c);
            previous_was_separator = false;
        } else if !previous_was_separator {
            slug.push('-');
            previous_was_separator = true;
        }
        i = i + 1;
    }
    assert(v@.subrange(0, v@.len() as int) =~= v@);
    let mut start: usize = 0;
    while start < slug.len() && (slug[start] == '-' || slug[start] == '_' || slug[start] == '.')
        invariant
            start <= slug@.len(),
            forall|k: int| 0 <= k < start ==> branch_mark(#[trigger] slug@[k]),
        decreases slug.len() - start,
    {
        start = start + 1;
    }
    proof {
        lemma_trim_marks_start_at(slug@, start as int);
    }
    let mut end: usize = slug.len();
    while end > start && (slug[end - 1] == '-' || slug[end - 1] == '_' || slug[end - 1] == '.')
        invariant
            start <= end <= slug@.len(),
            forall|k: int| end <= k < slug@.len() ==> branch_mark(#[trigger] slug@[k]),
        decreases end,
    {
        end = end - 1;
    }
    let ghost t = slug@.subrange(start as int, slug@.len() as int);
    proof {
        assert forall|k: int| end - start <= k < t.len() implies branch_mark(#[trigger] t[k]) by {
            assert(t[k] == slug@[k + start]);
        }
        lemma_trim_marks_end_at(t, end - start);
    }
    if end == start {
        return String::from_str("update");
    }
    let piece = slice_chars(&slug, start, end);
    assert(piece@ =~= t.subrange(0, end - start));
    string_of(&piece)
}

pub open spec fn empty_branch_message(source: Seq<char>) -> Seq<char> {
    source + " cannot be empty."@
}

/// A branch name given by the user, trimmed; it must not be empty.
pub fn validate_branch_input(value: &str, source: &str) -> (r: Result<String, String>)
    ensures
        trim(value@).len() > 0 ==> (r matches Ok(b) && b@ == trim(value@)),
        trim(value@).len() == 0 ==> (r matches Err(e) && e@ == empty_branch_message(source@)),
{
    let trimmed = trim_str(value);
    if trimmed.as_str().is_empty() {
        let mut msg = String::from_str(source);
        msg.append(" cannot be empty.");
        return Err(msg);
    }
    Ok(trimmed)
}

pub open spec fn same_branch_message() -> Seq<char> {
    "The publish branch must differ from the base branch."@
}

/// The branch a pull request is published from: the requested one (trimmed),
/// else the current branch when it is a branch other than the base, else the
/// generated default; it must differ from the base branch.
pub open spec fn chosen_pr_branch(
    requested: Option<Seq<char>>,
    current: Seq<char>,
    base: Seq<char>,
    default_branch: Seq<char>,
) -> Result<Seq<char>, Seq<char>> {
    let picked: Result<Seq<char>, Seq<char>> = match requested {
        Some(b) => if trim(b).len() > 0 {
            Ok(trim(b))
        } else {
            Err(empty_branch_message("--pr-branch"@))
        },
        None => if current.len() > 0 && current != base {
            Ok(current)
        } else if trim(default_branch).len() > 0 {
            Ok(trim(default_branch))
        } else {
            Err(empty_branch_message("generated publish branch"@))
        },
    };
    match picked {
        Err(e) => Err(e),
        Ok(b) => if b == base {
            Err(same_branch_message())
        } else {
            Ok(b)
        },
    }
}

/// Chooses the branch a pull request is published from.
pub fn select_pr_branch(
    requested: Option<&str>,
    current_branch: &str,
    base_branch: &str,
    default_pr_branch: &str,
) -> (r: Result<String, String>)
    ensures
        match chosen_pr_branch(
            match requested {
                Some(b) => Some(b@),
                None => None,
            },
            current_branch@,
            base_branch@,
            default_pr_branch@,
        ) {
            Ok(b) => r matches Ok(x) && x@ == b,
            Err(m) => r matches Err(e) && e@ == m,
        },
{
    let picked = match requested {
        Some(b) => validate_branch_input(b, "--pr-branch"),
        None => if !current_branch.is_empty() && !str_eq(current_branch, base_branch) {
            Ok(String::from_str(current_branch))
        } else {
            validate_branch_input(default_pr_branch, "generated publish branch")
        },
    };
    match picked {
        Err(e) => Err(e),
        Ok(b) => if str_eq(b.as_str(), base_branch) {
            Err(String::from_str("The publish branch must differ from the base branch."))
        } else {
            Ok(b)
        },
    }
}

/// The base branch that `git symbolic-ref refs/remotes/origin/HEAD` names.
pub fn base_branch_from_symbolic_ref(output: &str) -> (r: Option<String>)
    ensures
        match strip_prefix(trim(output@), "refs/remotes/origin/"@) {
            Some(b) => r matches Some(x) && x@ == b,
            None => r is None,
        },
{
    let trimmed = trim_str(output);
    crate::text::strip_prefix_str(trimmed.as_str(), "refs/remotes/origin/")
}

pub open spec fn dirty_worktree_message() -> Seq<char> {
    "Shared repository checkout has uncommitted changes. Commit, stash, or discard them before using --open-pr."@
}

/// `git status --porcelain` output of a clean checkout is blank.
pub fn ensure_clean_worktree(status: &str) -> (r: Result<(), String>)
    ensures
        trim(status@).len() == 0 ==> r is Ok,
        trim(status@).len() > 0 ==> (r matches Err(e) && e@ == dirty_worktree_message()),
{
    let t = trim_str(status);
    if t.as_str().is_empty() {
        Ok(())
    } else {
        Err(
            String::from_str(
                "Shared repository checkout has uncommitted changes. Commit, stash, or discard them before using --open-pr.",
            ),
        )
    }
}

/// The current branch `git branch --show-current` reports.
pub fn current_branch(output: &str) -> (r: String)
    ensures
        r@ == trim(output@),
{
    trim_str(output)
}

/// Whether `git status --porcelain -- <paths>` reports changes.
pub fn paths_have_changes(status: &str) -> (r: bool)
    ensures
        r == (trim(status@).len() > 0),
{
    let t = trim_str(status);
    !t.as_str().is_empty()
}

/// What opening a pull request reports: the URL the GitHub CLI printed, or
/// `<branch> -> <base>` when it printed nothing.
pub fn pull_request_result(gh_output: &str, pr_branch: &str, base_branch: &str) -> (r: String)
    ensures
        r@ == (if trim(gh_output@).len() == 0 {
            pr_branch@ + " -> "@ + base_branch@
        } else {
            trim(gh_output@)
        }),
{
    let url = trim_str(gh_output);
    if url.as_str().is_empty() {
        let mut s = String::from_str(pr_branch);
        s.append(" -> ");
        s.append(base_branch);
        s
    } else {
        url
    }
}

/// The error of a failed git or GitHub CLI run.
pub fn command_failure_message(binary: &str, stderr: &str) -> (r: String)
    ensures
        r@ == binary@ + " failed: "@ + trim(stderr@),
{
    let mut s = String::from_str(binary);
    s.append(" failed: ");
    let t = trim_str(stderr);
    s.append(t.as_str());
    s
}

/// The texts of a shared publish: the generated branch, the commit message
/// (also the pull request title) and the pull request body.
pub struct PublishTexts {
    pub default_branch: String,
    pub commit_message: String,
    pub pr_body: String,
}

pub open spec fn publish_commit_message(team: Seq<char>, shelf: Seq<char>, action: Seq<char>) -> Seq<char> {
    let label = team + "/"@ + shelf;
    if action == "create shelf"@ {
        "Add "@ + label + " shelf"@
    } else if action == "import a Postman collection"@ {
        "Import "@ + label + " shelf"@
    } else {
        "Update "@ + label + " shelf"@
    }
}

/// The branch, commit message and pull request body of publishing a change to
/// a team's shelf.
pub fn publish_texts(team: &str, shelf: &str, action: &str) -> (r: PublishTexts)
    ensures
        r.default_branch@ == "shellshelf/"@ + sanitized_component(team@) + "-"@ + sanitized_component(shelf@),
        r.commit_message@ == publish_commit_message(team@, shelf@, action@),
        r.pr_body@ == "## Summary\n- "@ + action@ + " in the shared shelf `"@ + team@ + "/"@ + shelf@ + "`\n"@,
{
    let mut branch = String::from_str("shellshelf/");
    let t = sanitize_branch_component(team);
    branch.append(t.as_str());
    branch.append("-");
    let s = sanitize_branch_component(shelf);
    branch.append(s.as_str());
    let mut label = String::from_str(team);
    label.append("/");
    label.append(shelf);
    let mut commit = if str_eq(action, "create shelf") {
        String::from_str("Add ")
    } else if str_eq(action, "import a Postman collection") {
        String::from_str("Import ")
    } else {
        String::from_str("Update ")
    };
    commit.append(label.as_str());
    commit.append(" shelf");
    let mut body = String::from_str("## Summary\n- ");
    body.append(action);
    body.append(" in the shared shelf `");
    body.append(label.as_str());
    body.append("`\n");
    PublishTexts { default_branch: branch, commit_message: commit, pr_body: body }
}

/// A write operation's outcome with the cleanup after it: the first error,
/// and both messages when both fail.
pub fn combine_operation_results<T>(result: Result<T, String>, cleanup: Result<(), String>) -> (r: Result<T, String>)
    ensures
        match (result, cleanup) {
            (Ok(v), Ok(_)) => r == Ok::<T, String>(v),
            (Err(e), Ok(_)) => r matches Err(x) && x@ == e@,
            (Ok(_), Err(c)) => r matches Err(x) && x@ == c@,
            (Err(e), Err(c)) => r matches Err(x) && x@ == e@ + " Cleanup also failed: "@ + c@,
        },
{
    match (result, cleanup) {
        (Ok(v), Ok(_)) => Ok(v),
        (Err(e), Ok(_)) => Err(e),
        (Ok(_), Err(c)) => Err(c),
        (Err(e), Err(c)) => {
            let mut m = e;
            m.append(" Cleanup also failed: ");
            m.append(c.as_str());
            Err(m)
        },
    }
}

} // verus!
