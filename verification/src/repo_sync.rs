//! Keeping local shelves in step with a personal or backup git repository:
//! where shelf files live, which files are shelves, the bootstrap decision,
//! branch handling and the sync-status warning.
use crate::config::is_valid_name;
use crate::database::{
    all_new_entries, database_view, merge_all, merged_with_keeps_one_entry_per_command, pairs_of,
    same_database, CommandDatabase, MergeDatabaseOutcome,
};
use crate::path::{join_path, path_join};
use crate::sorted::{sorted_unique, strictly_sorted};
use crate::template::shell_quoted;
use crate::text::{
    chars_vec, decimal, decimal_string, parse_usize, usize_parse_error, slice_chars, str_eq, string_of, strip_prefix,
    trim, trim_str, words,
};
use vstd::prelude::*;

verus! {

/// The file of a shelf inside a repository checkout: `shelves/<shelf>.json`.
pub open spec fn shelf_file(repo_root: Seq<char>, shelf: Seq<char>) -> Seq<char> {
    path_join(path_join(repo_root, "shelves"@), shelf + ".json"@)
}

/// Where a shelf lives in the personal repository checkout.
pub fn personal_shelf_path(repo_root: &str, shelf: &str) -> (r: String)
    ensures
        r@ == shelf_file(repo_root@, shelf@),
{
    let dir = join_path(repo_root, "shelves");
    let mut file = String::from_str(shelf);
    file.append(".json");
    join_path(dir.as_str(), file.as_str())
}

/// The position of the last `.`, or -1.
pub open spec fn last_dot(f: Seq<char>) -> int
    decreases f.len(),
{
    if f.len() == 0 {
        -1
    } else if f.last() == '.' {
        f.len() - 1
    } else {
        last_dot(f.drop_last())
    }
}

proof fn lemma_last_dot(f: Seq<char>)
    ensures
        -1 <= last_dot(f) < f.len(),
        last_dot(f) >= 0 ==> f[last_dot(f)] == '.',
        forall|k: int| last_dot(f) < k < f.len() ==> f[k] != '.',
    decreases f.len(),
{
    if f.len() > 0 && f.last() != '.' {
        lemma_last_dot(f.drop_last());
        assert forall|k: int| last_dot(f) < k < f.len() implies f[k] != '.' by {
            if k < f.len() - 1 {
                assert(f.drop_last()[k] == f[k]);
            }
        }
    }
}

/// The shelf a file name stands for: a stem and a `json` extension as
/// `Path::file_stem` and `Path::extension` split them (a leading dot does not
/// start an extension), the stem being a valid shelf name.
pub open spec fn json_shelf_of(file_name: Seq<char>) -> Option<Seq<char>> {
    let d = last_dot(file_name);
    if d > 0 && file_name.subrange(d + 1, file_name.len() as int) == "json"@ && is_valid_name(
        file_name.subrange(0, d),
    ) {
        Some(file_name.subrange(0, d))
    } else {
        None
    }
}

/// The shelf name of a `<shelf>.json` file name.
pub fn json_shelf_name(file_name: &str) -> (r: Option<String>)
    ensures
        match json_shelf_of(file_name@) {
            Some(s) => r matches Some(x) && x@ == s,
            None => r is None,
        },
{
    let f = chars_vec(file_name);
    let mut k: usize = f.len();
    proof {
        lemma_last_dot(f@);
        assert(f@.subrange(0, f@.len() as int) =~= f@);
    }
    while k > 0 && f[k - 1] != '.'
        invariant
            k <= f@.len(),
            last_dot(f@) == last_dot(f@.subrange(0, k as int)),
        decreases k,
    {
        assert(f@.subrange(0, k as int).drop_last() =~= f@.subrange(0, k - 1));
        k = k - 1;
    }
    if k <= 1 {
        proof {
            if k == 1 {
                assert(f@.subrange(0, 1).last() == '.');
            } else {
                assert(f@.subrange(0, 0).len() == 0);
            }
        }
        return None;
    }
    let d = k - 1;
    assert(f@.subrange(0, k as int).last() == '.');
    assert(last_dot(f@) == d);
    let ext = slice_chars(&f, d + 1, f.len());
    let stem = slice_chars(&f, 0, d);
    let ext_s = string_of(&ext);
    let stem_s = string_of(&stem);
    if !str_eq(ext_s.as_str(), "json") {
        return None;
    }
    match crate::config::validate_shelf_name(stem_s.as_str()) {
        Ok(()) => Some(stem_s),
        Err(_) => None,
    }
}

/// A repository that local shelves are synchronized with.
#[derive(Debug, Clone, Copy, PartialEq, Eq, Structural)]
pub enum SyncRepository {
    Personal,
    Backup,
    Shared,
}

pub open spec fn dirty_checkout_message(repo: SyncRepository) -> Seq<char> {
    match repo {
        SyncRepository::Personal => "Personal repository checkout has uncommitted changes. Commit, stash, or discard them before syncing local shelves."@,
        SyncRepository::Backup => "Backup repository checkout has uncommitted changes. Commit, stash, or discard them before syncing local shelves."@,
        SyncRepository::Shared => "Shared repository checkout has uncommitted changes. Commit, stash, or discard them before using --open-pr."@,
    }
}

/// A sync needs a checkout whose `git status --porcelain` output is blank.
pub fn ensure_clean_checkout(status: &str, repo: SyncRepository) -> (r: Result<(), String>)
    ensures
        trim(status@).len() == 0 ==> r is Ok,
        trim(status@).len() > 0 ==> (r matches Err(e) && e@ == dirty_checkout_message(repo)),
{
    let t = trim_str(status);
    if t.as_str().is_empty() {
        return Ok(());
    }
    match repo {
        SyncRepository::Personal => Err(
            String::from_str(
                "Personal repository checkout has uncommitted changes. Commit, stash, or discard them before syncing local shelves.",
            ),
        ),
        SyncRepository::Backup => Err(
            String::from_str(
                "Backup repository checkout has uncommitted changes. Commit, stash, or discard them before syncing local shelves.",
            ),
        ),
        SyncRepository::Shared => Err(
            String::from_str(
                "Shared repository checkout has uncommitted changes. Commit, stash, or discard them before using --open-pr.",
            ),
        ),
    }
}

/// The git arguments that switch to `branch`: none when it is current; an
/// existing local branch is switched to; otherwise it is created, tracking
/// the remote branch when there is one.
pub open spec fn switch_args(current: Seq<char>, branch: Seq<char>, local_exists: bool, on_origin: bool) -> Option<
    Seq<Seq<char>>,
> {
    if current == branch {
        None
    } else if local_exists {
        Some(seq!["switch"@, branch])
    } else if on_origin {
        Some(seq!["switch"@, "-c"@, branch, "--track"@, "origin/"@ + branch])
    } else {
        Some(seq!["switch"@, "-c"@, branch])
    }
}

fn push_arg(args: &mut Vec<String>, a: String)
    ensures
        final(args).deep_view() == old(args).deep_view().push(a@),
{
    let ghost before = args.deep_view();
    args.push(a);
    assert(args.deep_view() =~= before.push(a@));
}

pub fn switch_branch_args(current: &str, branch: &str, local_exists: bool, exists_on_origin: bool) -> (r: Option<Vec<String>>)
    ensures
        match switch_args(current@, branch@, local_exists, exists_on_origin) {
            Some(a) => r matches Some(v) && v.deep_view() == a,
            None => r is None,
        },
{
    if str_eq(current, branch) {
        return None;
    }
    let mut args: Vec<String> = Vec::new();
    push_arg(&mut args, String::from_str("switch"));
    if local_exists {
        push_arg(&mut args, String::from_str(branch));
        assert(args.deep_view() =~= seq!["switch"@, branch@]);
    } else if exists_on_origin {
        push_arg(&mut args, String::from_str("-c"));
        push_arg(&mut args, String::from_str(branch));
        push_arg(&mut args, String::from_str("--track"));
        let mut upstream = String::from_str("origin/");
        upstream.append(branch);
        push_arg(&mut args, upstream);
        assert(args.deep_view() =~= seq!["switch"@, "-c"@, branch@, "--track"@, "origin/"@ + branch@]);
    } else {
        push_arg(&mut args, String::from_str("-c"));
        push_arg(&mut args, String::from_str(branch));
        assert(args.deep_view() =~= seq!["switch"@, "-c"@, branch@]);
    }
    Some(args)
}

/// The branch a personal repository without a remote default is bootstrapped
/// on: the current branch, `master` read as `main`; none when detached.
pub open spec fn bootstrap_branch(current: Seq<char>) -> Option<Seq<char>> {
    if current.len() == 0 {
        None
    } else if current == "master"@ {
        Some("main"@)
    } else {
        Some(current)
    }
}

pub fn bootstrap_branch_name(current: &str) -> (r: Option<String>)
    ensures
        match bootstrap_branch(current@) {
            Some(b) => r matches Some(x) && x@ == b,
            None => r is None,
        },
{
    if current.is_empty() {
        proof {
            assert(current@.len() == 0);
        }
        return None;
    }
    if str_eq(current, "master") {
        Some(String::from_str("main"))
    } else {
        Some(String::from_str(current))
    }
}

/// How local shelves and a new personal repository are first brought together.
#[derive(Debug, Clone, Copy, PartialEq, Eq, Structural)]
pub enum PersonalRepoBootstrapMode {
    Auto,
    Merge,
    Push,
    Pull,
    Skip,
}

pub open spec fn bootstrap_mode_of(value: Seq<char>) -> Option<PersonalRepoBootstrapMode> {
    if value == "auto"@ {
        Some(PersonalRepoBootstrapMode::Auto)
    } else if value == "merge"@ {
        Some(PersonalRepoBootstrapMode::Merge)
    } else if value == "push"@ {
        Some(PersonalRepoBootstrapMode::Push)
    } else if value == "pull"@ {
        Some(PersonalRepoBootstrapMode::Pull)
    } else if value == "skip"@ {
        Some(PersonalRepoBootstrapMode::Skip)
    } else {
        None
    }
}

pub open spec fn bootstrap_mode_error() -> Seq<char> {
    "personal repo bootstrap mode must be one of: auto, merge, push, pull, skip."@
}

pub fn parse_personal_repo_bootstrap_mode(value: &str) -> (r: Result<PersonalRepoBootstrapMode, String>)
    ensures
        match bootstrap_mode_of(value@) {
            Some(m) => r == Ok::<PersonalRepoBootstrapMode, String>(m),
            None => r matches Err(e) && e@ == bootstrap_mode_error(),
        },
{
    if str_eq(value, "auto") {
        Ok(PersonalRepoBootstrapMode::Auto)
    } else if str_eq(value, "merge") {
        Ok(PersonalRepoBootstrapMode::Merge)
    } else if str_eq(value, "push") {
        Ok(PersonalRepoBootstrapMode::Push)
    } else if str_eq(value, "pull") {
        Ok(PersonalRepoBootstrapMode::Pull)
    } else if str_eq(value, "skip") {
        Ok(PersonalRepoBootstrapMode::Skip)
    } else {
        Err(String::from_str("personal repo bootstrap mode must be one of: auto, merge, push, pull, skip."))
    }
}

/// What a bootstrap does.
#[derive(Debug, Clone, Copy, PartialEq, Eq, Structural)]
pub enum BootstrapAction {
    Skip,
    Merge,
    Push,
    Pull,
    NothingToDo,
}

/// The bootstrap action: the mode's own, or in `auto` mode: nothing on either
/// side skips, an empty repository is pushed to, empty local shelves are
/// pulled, equal shelves need nothing, and different ones are merged.
pub open spec fn bootstrap_action_of(
    mode: PersonalRepoBootstrapMode,
    local_empty: bool,
    personal_empty: bool,
    same_shelves: bool,
) -> BootstrapAction {
    match mode {
        PersonalRepoBootstrapMode::Skip => BootstrapAction::Skip,
        PersonalRepoBootstrapMode::Merge => BootstrapAction::Merge,
        PersonalRepoBootstrapMode::Push => BootstrapAction::Push,
        PersonalRepoBootstrapMode::Pull => BootstrapAction::Pull,
        PersonalRepoBootstrapMode::Auto => if local_empty && personal_empty {
            BootstrapAction::Skip
        } else if personal_empty {
            BootstrapAction::Push
        } else if local_empty {
            BootstrapAction::Pull
        } else if same_shelves {
            BootstrapAction::NothingToDo
        } else {
            BootstrapAction::Merge
        },
    }
}

pub fn bootstrap_action(
    mode: PersonalRepoBootstrapMode,
    local_empty: bool,
    personal_empty: bool,
    same_shelves: bool,
) -> (r: BootstrapAction)
    ensures
        r == bootstrap_action_of(mode, local_empty, personal_empty, same_shelves),
{
    match mode {
        PersonalRepoBootstrapMode::Skip => BootstrapAction::Skip,
        PersonalRepoBootstrapMode::Merge => BootstrapAction::Merge,
        PersonalRepoBootstrapMode::Push => BootstrapAction::Push,
        PersonalRepoBootstrapMode::Pull => BootstrapAction::Pull,
        PersonalRepoBootstrapMode::Auto => if local_empty && personal_empty {
            BootstrapAction::Skip
        } else if personal_empty {
            BootstrapAction::Push
        } else if local_empty {
            BootstrapAction::Pull
        } else if same_shelves {
            BootstrapAction::NothingToDo
        } else {
            BootstrapAction::Merge
        },
    }
}

/// What a bootstrap reports.
#[derive(Debug, Clone, Copy, PartialEq, Eq, Structural)]
pub enum PersonalRepoBootstrapOutcome {
    Skipped,
    Merged,
    Pushed,
    Pulled,
    AlreadyInSync,
}

/// The outcome of an action, given whether it changed anything.
pub fn bootstrap_outcome(action: BootstrapAction, changed: bool) -> (r: PersonalRepoBootstrapOutcome)
    ensures
        r == match action {
            BootstrapAction::Skip => PersonalRepoBootstrapOutcome::Skipped,
            BootstrapAction::NothingToDo => PersonalRepoBootstrapOutcome::AlreadyInSync,
            BootstrapAction::Merge => if changed {
                PersonalRepoBootstrapOutcome::Merged
            } else {
                PersonalRepoBootstrapOutcome::AlreadyInSync
            },
            BootstrapAction::Push => if changed {
                PersonalRepoBootstrapOutcome::Pushed
            } else {
                PersonalRepoBootstrapOutcome::AlreadyInSync
            },
            BootstrapAction::Pull => if changed {
                PersonalRepoBootstrapOutcome::Pulled
            } else {
                PersonalRepoBootstrapOutcome::AlreadyInSync
            },
        },
{
    match action {
        BootstrapAction::Skip => PersonalRepoBootstrapOutcome::Skipped,
        BootstrapAction::NothingToDo => PersonalRepoBootstrapOutcome::AlreadyInSync,
        BootstrapAction::Merge => if changed {
            PersonalRepoBootstrapOutcome::Merged
        } else {
            PersonalRepoBootstrapOutcome::AlreadyInSync
        },
        BootstrapAction::Push => if changed {
            PersonalRepoBootstrapOutcome::Pushed
        } else {
            PersonalRepoBootstrapOutcome::AlreadyInSync
        },
        BootstrapAction::Pull => if changed {
            PersonalRepoBootstrapOutcome::Pulled
        } else {
            PersonalRepoBootstrapOutcome::AlreadyInSync
        },
    }
}

/// How the personal checkout's base branch differs from origin, with the
/// commands that settle it.
#[derive(Debug, Clone, PartialEq, Eq)]
pub enum PersonalRepoSyncWarning {
    Ahead { local_commits: usize, push_command: String, inspect_command: String },
    Behind { remote_commits: usize, pull_command: String, inspect_command: String },
    Diverged {
        local_commits: usize,
        remote_commits: usize,
        pull_command: String,
        push_command: String,
        inspect_command: String,
    },
}

/// `git -C <repo>` with the checkout path quoted for the shell.
pub open spec fn git_in(repo_root: Seq<char>) -> Seq<char> {
    "git -C "@ + shell_quoted(repo_root)
}

pub open spec fn inspect_command_of(repo_root: Seq<char>, branch: Seq<char>) -> Seq<char> {
    git_in(repo_root) + " fetch origin "@ + branch + " && "@ + git_in(repo_root)
        + " log --oneline --left-right --cherry "@ + branch + "...origin/"@ + branch + " && "@
        + git_in(repo_root) + " diff --stat "@ + branch + "...origin/"@ + branch
}

/// The warning for `<local> <remote>` commit counts of `git rev-list
/// --left-right --count`, when they are not both 0: `Ahead` with a push command
/// when only local commits exist, `Behind` with a fast-forward pull command when
/// only remote commits exist, and `Diverged` with a rebasing pull and a push when
/// both do.
pub open spec fn is_expected_warning(
    w: PersonalRepoSyncWarning,
    local: nat,
    remote: nat,
    repo_root: Seq<char>,
    branch: Seq<char>,
) -> bool {
    let push = git_in(repo_root) + " push origin "@ + branch;
    let inspect = inspect_command_of(repo_root, branch);
    match w {
        PersonalRepoSyncWarning::Ahead { local_commits, push_command, inspect_command } => {
            &&& remote == 0
            &&& local_commits as nat == local
            &&& push_command@ == push
            &&& inspect_command@ == inspect
        },
        PersonalRepoSyncWarning::Behind { remote_commits, pull_command, inspect_command } => {
            &&& local == 0
            &&& remote_commits as nat == remote
            &&& pull_command@ == git_in(repo_root) + " pull --ff-only origin "@ + branch
            &&& inspect_command@ == inspect
        },
        PersonalRepoSyncWarning::Diverged {
            local_commits,
            remote_commits,
            pull_command,
            push_command,
            inspect_command,
        } => {
            &&& local > 0
            &&& remote > 0
            &&& local_commits as nat == local
            &&& remote_commits as nat == remote
            &&& pull_command@ == git_in(repo_root) + " pull --rebase origin "@ + branch
            &&& push_command@ == push
            &&& inspect_command@ == inspect
        },
    }
}

fn git_in_text(repo_root: &str) -> (r: String)
    ensures
        r@ == git_in(repo_root@),
{
    let mut s = String::from_str("git -C ");
    let q = crate::template::quote_word(repo_root);
    s.append(q.as_str());
    s
}

/// Reads the commit counts of the personal checkout's base branch against
/// origin and builds the warning for them.
pub fn sync_warning_from_counts(rev_list: &str, repo_root: &str, branch: &str) -> (r: Result<
    Option<PersonalRepoSyncWarning>,
    String,
>)
    ensures
        ({
            let w = words(rev_list@);
            if w.len() == 0 {
                r matches Err(e) && e@ == "Failed to parse local personal repository sync status."@
            } else if parse_usize(w[0]) is None {
                r matches Err(e) && e@ == usize_parse_error(w[0])
            } else if w.len() == 1 {
                r matches Err(e) && e@ == "Failed to parse remote personal repository sync status."@
            } else if parse_usize(w[1]) is None {
                r matches Err(e) && e@ == usize_parse_error(w[1])
            } else {
                let local = parse_usize(w[0])->0 as nat;
                let remote = parse_usize(w[1])->0 as nat;
                if local == 0 && remote == 0 {
                    r == Ok::<Option<PersonalRepoSyncWarning>, String>(None)
                } else {
                    r matches Ok(Some(y)) && is_expected_warning(y, local, remote, repo_root@, branch@)
                }
            }
        }),
{
    let v = chars_vec(rev_list);
    let counts = crate::text::words_chars(&v);
    if counts.len() == 0 {
        return Err(String::from_str("Failed to parse local personal repository sync status."));
    }
    let first = string_of(&counts[0]);
    let local_commits = match crate::text::parse_usize_text(first.as_str()) {
        Ok(n) => n,
        Err(e) => {
            return Err(e);
        },
    };
    if counts.len() < 2 {
        return Err(String::from_str("Failed to parse remote personal repository sync status."));
    }
    let second = string_of(&counts[1]);
    let remote_commits = match crate::text::parse_usize_text(second.as_str()) {
        Ok(n) => n,
        Err(e) => {
            return Err(e);
        },
    };
    if local_commits == 0 && remote_commits == 0 {
        return Ok(None);
    }
    let git = git_in_text(repo_root);
    let mut inspect = git.clone();
    inspect.append(" fetch origin ");
    inspect.append(branch);
    inspect.append(" && ");
    inspect.append(git.as_str());
    inspect.append(" log --oneline --left-right --cherry ");
    inspect.append(branch);
    inspect.append("...origin/");
    inspect.append(branch);
    inspect.append(" && ");
    inspect.append(git.as_str());
    inspect.append(" diff --stat ");
    inspect.append(branch);
    inspect.append("...origin/");
    inspect.append(branch);
    let mut push = git.clone();
    push.append(" push origin ");
    push.append(branch);
    if remote_commits == 0 {
        return Ok(Some(PersonalRepoSyncWarning::Ahead { local_commits, push_command: push, inspect_command: inspect }));
    }
    if local_commits == 0 {
        let mut pull = git.clone();
        pull.append(" pull --ff-only origin ");
        pull.append(branch);
        return Ok(Some(PersonalRepoSyncWarning::Behind { remote_commits, pull_command: pull, inspect_command: inspect }));
    }
    let mut pull = git.clone();
    pull.append(" pull --rebase origin ");
    pull.append(branch);
    Ok(
        Some(
            PersonalRepoSyncWarning::Diverged {
                local_commits,
                remote_commits,
                pull_command: pull,
                push_command: push,
                inspect_command: inspect,
            },
        ),
    )
}

/// The text shown for a sync warning.
pub open spec fn warning_text(w: PersonalRepoSyncWarning) -> Seq<char> {
    match w {
        PersonalRepoSyncWarning::Ahead { local_commits, push_command, inspect_command } =>
            "Warning: the managed personal repository checkout is ahead of origin by "@ + decimal(local_commits as nat)
                + " commit(s).\nPush: "@ + push_command@ + "\nInspect: "@ + inspect_command@,
        PersonalRepoSyncWarning::Behind { remote_commits, pull_command, inspect_command } =>
            "Warning: the managed personal repository checkout is behind origin by "@ + decimal(remote_commits as nat)
                + " commit(s).\nPull: "@ + pull_command@ + "\nInspect: "@ + inspect_command@,
        PersonalRepoSyncWarning::Diverged { local_commits, remote_commits, pull_command, push_command, inspect_command } =>
            "Warning: the managed personal repository checkout and origin have diverged ("@ + decimal(local_commits as nat)
                + " local-only commit(s), "@ + decimal(remote_commits as nat) + " remote-only commit(s)).\nPull: "@
                + pull_command@ + "\nPush: "@ + push_command@ + "\nInspect: "@ + inspect_command@,
    }
}

pub fn sync_warning_message(w: &PersonalRepoSyncWarning) -> (r: String)
    ensures
        r@ == warning_text(*w),
{
    match w {
        PersonalRepoSyncWarning::Ahead { local_commits, push_command, inspect_command } => {
            let mut s = String::from_str("Warning: the managed personal repository checkout is ahead of origin by ");
            let n = decimal_string(*local_commits);
            s.append(n.as_str());
            s.append(" commit(s).\nPush: ");
            s.append(push_command.as_str());
            s.append("\nInspect: ");
            s.append(inspect_command.as_str());
            s
        },
        PersonalRepoSyncWarning::Behind { remote_commits, pull_command, inspect_command } => {
            let mut s = String::from_str("Warning: the managed personal repository checkout is behind origin by ");
            let n = decimal_string(*remote_commits);
            s.append(n.as_str());
            s.append(" commit(s).\nPull: ");
            s.append(pull_command.as_str());
            s.append("\nInspect: ");
            s.append(inspect_command.as_str());
            s
        },
        PersonalRepoSyncWarning::Diverged { local_commits, remote_commits, pull_command, push_command, inspect_command } => {
            let mut s = String::from_str("Warning: the managed personal repository checkout and origin have diverged (");
            let a = decimal_string(*local_commits);
            s.append(a.as_str());
            s.append(" local-only commit(s), ");
            let b = decimal_string(*remote_commits);
            s.append(b.as_str());
            s.append(" remote-only commit(s)).\nPull: ");
            s.append(pull_command.as_str());
            s.append("\nPush: ");
            s.append(push_command.as_str());
            s.append("\nInspect: ");
            s.append(inspect_command.as_str());
            s
        },
    }
}

/// The shelves of a merge: every local and personal shelf, once, sorted.
pub fn merged_shelf_names(local: &Vec<String>, personal: &Vec<String>) -> (r: Vec<String>)
    ensures
        strictly_sorted(r.deep_view()),
        r.deep_view().to_set() == local.deep_view().to_set() + personal.deep_view().to_set(),
{
    let mut all: Vec<String> = Vec::new();
    let mut i: usize = 0;
    while i < local.len()
        invariant
            i <= local@.len(),
            all.deep_view() == local.deep_view().subrange(0, i as int),
        decreases local.len() - i,
    {
        let ghost before = all.deep_view();
        let x = local[i].clone();
        all.push(x);
        assert(all.deep_view() =~= before.push(local.deep_view()[i as int]));
        assert(local.deep_view().subrange(0, i + 1) =~= local.deep_view().subrange(0, i as int).push(local.deep_view()[i as int]));
        i = i + 1;
    }
    assert(local.deep_view().subrange(0, i as int) =~= local.deep_view());
    let mut j: usize = 0;
    while j < personal.len()
        invariant
            j <= personal@.len(),
            all.deep_view() == local.deep_view() + personal.deep_view().subrange(0, j as int),
        decreases personal.len() - j,
    {
        let ghost before = all.deep_view();
        let x = personal[j].clone();
        all.push(x);
        assert(all.deep_view() =~= before.push(personal.deep_view()[j as int]));
        assert(personal.deep_view().subrange(0, j + 1) =~= personal.deep_view().subrange(0, j as int).push(personal.deep_view()[j as int]));
        j = j + 1;
    }
    assert(personal.deep_view().subrange(0, j as int) =~= personal.deep_view());
    proof {
        vstd::seq_lib::seq_to_set_distributes_over_add(local.deep_view(), personal.deep_view());
    }
    sorted_unique(&all)
}

/// What merging all shelves with the personal repository changed.
#[derive(Debug, Clone, Copy, PartialEq, Eq, Structural)]
pub struct MergeShelvesOutcome {
    pub local_shelves_changed: usize,
    pub personal_shelves_changed: usize,
    pub duplicate_commands_removed: usize,
    pub descriptions_upgraded: usize,
}

impl MergeShelvesOutcome {
    pub fn default() -> (r: Self)
        ensures
            r == (MergeShelvesOutcome {
                local_shelves_changed: 0,
                personal_shelves_changed: 0,
                duplicate_commands_removed: 0,
                descriptions_upgraded: 0,
            }),
    {
        MergeShelvesOutcome {
            local_shelves_changed: 0,
            personal_shelves_changed: 0,
            duplicate_commands_removed: 0,
            descriptions_upgraded: 0,
        }
    }

    /// Whether nothing changed.
    pub fn is_unchanged(&self) -> (r: bool)
        ensures
            r == (self.local_shelves_changed == 0 && self.personal_shelves_changed == 0
                && self.duplicate_commands_removed == 0 && self.descriptions_upgraded == 0),
    {
        self.local_shelves_changed == 0 && self.personal_shelves_changed == 0
            && self.duplicate_commands_removed == 0 && self.descriptions_upgraded == 0
    }
}

/// Adds one shelf's merge counts to the totals.
pub fn accumulate_merge_outcome(total: &mut MergeShelvesOutcome, next: MergeDatabaseOutcome)
    requires
        old(total).duplicate_commands_removed + next.duplicate_commands_removed <= usize::MAX,
        old(total).descriptions_upgraded + next.descriptions_upgraded <= usize::MAX,
    ensures
        final(total).duplicate_commands_removed == old(total).duplicate_commands_removed
            + next.duplicate_commands_removed,
        final(total).descriptions_upgraded == old(total).descriptions_upgraded + next.descriptions_upgraded,
        final(total).local_shelves_changed == old(total).local_shelves_changed,
        final(total).personal_shelves_changed == old(total).personal_shelves_changed,
{
    total.duplicate_commands_removed = total.duplicate_commands_removed + next.duplicate_commands_removed;
    total.descriptions_upgraded = total.descriptions_upgraded + next.descriptions_upgraded;
}

/// Whether a checkout is due for an update: when the time since the last one
/// is unknown (no stamp, or a stamp from the future), or at least the interval.
pub fn auto_update_due(elapsed_nanos: Option<u128>, interval_nanos: u128) -> (r: bool)
    ensures
        r == match elapsed_nanos {
            Some(e) => e >= interval_nanos,
            None => true,
        },
{
    match elapsed_nanos {
        Some(e) => e >= interval_nanos,
        None => true,
    }
}


/// Merges one shelf's local and personal databases: the merge of the local
/// entries then the personal ones, with the totals advanced by the merge's
/// counts and by one for each side whose content the merge changes; returns
/// the merged database and whether each side must be rewritten.
pub fn merge_shelf(
    local: &CommandDatabase,
    personal: &CommandDatabase,
    total: &mut MergeShelvesOutcome,
) -> (r: (CommandDatabase, bool, bool))
    requires
        local.commands@.len() + personal.commands@.len() < usize::MAX,
        old(total).duplicate_commands_removed + local.commands@.len() + personal.commands@.len() <= usize::MAX,
        old(total).descriptions_upgraded + local.commands@.len() + personal.commands@.len() <= usize::MAX,
        old(total).local_shelves_changed < usize::MAX,
        old(total).personal_shelves_changed < usize::MAX,
    ensures
        ({
            let (a, d, u) = merge_all(Seq::empty(), pairs_of(local.commands@) + pairs_of(personal.commands@));
            &&& pairs_of(r.0.commands@) == a
            &&& all_new_entries(r.0.commands@)
            &&& final(total).duplicate_commands_removed == old(total).duplicate_commands_removed + d
            &&& final(total).descriptions_upgraded == old(total).descriptions_upgraded + u
        }),
        r.1 == (database_view(*local) != database_view(r.0)),
        r.2 == (database_view(*personal) != database_view(r.0)),
        final(total).local_shelves_changed == old(total).local_shelves_changed + if r.1 { 1int } else { 0int },
        final(total).personal_shelves_changed == old(total).personal_shelves_changed + if r.2 {
            1int
        } else {
            0int
        },
{
    let (merged, outcome) = local.merged_with(personal);
    proof {
        merged_with_keeps_one_entry_per_command(local.commands@, personal.commands@);
    }
    accumulate_merge_outcome(total, outcome);
    let local_changed = !same_database(local, &merged);
    let personal_changed = !same_database(personal, &merged);
    if local_changed {
        total.local_shelves_changed = total.local_shelves_changed + 1;
    }
    if personal_changed {
        total.personal_shelves_changed = total.personal_shelves_changed + 1;
    }
    (merged, local_changed, personal_changed)
}


/// Where a shelf lives in the backup repository checkout.
pub fn backup_shelf_path(repo_root: &str, shelf: &str) -> (r: String)
    ensures
        r@ == shelf_file(repo_root@, shelf@),
{
    personal_shelf_path(repo_root, shelf)
}

/// The shelf names of (shelf, file) pairs, in order.
pub fn collect_shelf_names(paths: &Vec<(String, String)>) -> (r: Vec<String>)
    ensures
        r@.len() == paths@.len(),
        forall|k: int| 0 <= k < r@.len() ==> #[trigger] r@[k]@ == paths@[k].0@,
{
    let mut names: Vec<String> = Vec::new();
    let mut i: usize = 0;
    while i < paths.len()
        invariant
            i <= paths@.len(),
            names@.len() == i,
            forall|k: int| 0 <= k < i ==> #[trigger] names@[k]@ == paths@[k].0@,
        decreases paths.len() - i,
    {
        names.push(paths[i].0.clone());
        i = i + 1;
    }
    names
}

/// The base branch of a synchronized repository, and whether origin has it.
#[derive(Debug, Clone, PartialEq, Eq)]
pub struct BaseBranch {
    pub name: String,
    pub exists_on_origin: bool,
}

pub open spec fn no_base_branch_message(repo: SyncRepository) -> Seq<char> {
    match repo {
        SyncRepository::Personal => "Could not determine the personal repository base branch."@,
        SyncRepository::Backup => "Could not determine the backup repository base branch."@,
        SyncRepository::Shared => "Could not determine the shared repository base branch. Use --base-branch <BRANCH>."@,
    }
}

/// The base branch of a synchronized repository, from what git reports: the
/// branch origin's HEAD names (the output of `git symbolic-ref
/// refs/remotes/origin/HEAD` when it succeeded), else `main` or `master` when
/// origin has it; a personal repository (not a backup or shared one) falls back to the branch it is
/// bootstrapped on (the current branch, `master` read as `main`), with whether
/// origin has that branch.
pub open spec fn base_branch_of(
    repo: SyncRepository,
    origin_head: Option<Seq<char>>,
    main_on_origin: bool,
    master_on_origin: bool,
    current: Seq<char>,
    bootstrap_on_origin: bool,
) -> Result<(Seq<char>, bool), Seq<char>> {
    let from_head = match origin_head {
        Some(h) => strip_prefix(trim(h), "refs/remotes/origin/"@),
        None => None,
    };
    match from_head {
        Some(b) => Ok((b, true)),
        None => if main_on_origin {
            Ok(("main"@, true))
        } else if master_on_origin {
            Ok(("master"@, true))
        } else {
            match (repo, bootstrap_branch(current)) {
                (SyncRepository::Personal, Some(b)) => Ok((b, bootstrap_on_origin)),
                _ => Err(no_base_branch_message(repo)),
            }
        },
    }
}

/// Decides the base branch of a synchronized repository.
pub fn detect_default_base_branch(
    repo: SyncRepository,
    origin_head: Option<&str>,
    main_on_origin: bool,
    master_on_origin: bool,
    current: &str,
    bootstrap_on_origin: bool,
) -> (r: Result<BaseBranch, String>)
    ensures
        match base_branch_of(
            repo,
            match origin_head {
                Some(h) => Some(h@),
                None => None,
            },
            main_on_origin,
            master_on_origin,
            current@,
            bootstrap_on_origin,
        ) {
            Ok((name, on_origin)) => r matches Ok(b) && b.name@ == name && b.exists_on_origin == on_origin,
            Err(msg) => r matches Err(e) && e@ == msg,
        },
{
    if let Some(h) = origin_head {
        if let Some(b) = crate::publish::base_branch_from_symbolic_ref(h) {
            return Ok(BaseBranch { name: b, exists_on_origin: true });
        }
    }
    if main_on_origin {
        return Ok(BaseBranch { name: String::from_str("main"), exists_on_origin: true });
    }
    if master_on_origin {
        return Ok(BaseBranch { name: String::from_str("master"), exists_on_origin: true });
    }
    match repo {
        SyncRepository::Personal => match bootstrap_branch_name(current) {
            Some(b) => Ok(BaseBranch { name: b, exists_on_origin: bootstrap_on_origin }),
            None => Err(String::from_str("Could not determine the personal repository base branch.")),
        },
        SyncRepository::Backup => Err(String::from_str("Could not determine the backup repository base branch.")),
        SyncRepository::Shared => Err(
            String::from_str("Could not determine the shared repository base branch. Use --base-branch <BRANCH>."),
        ),
    }
}

} // verus!
