//! Which combinations of command-line options are accepted, and the message
//! for the first rule a combination breaks.
use crate::text::str_eq;
use vstd::prelude::*;

verus! {

/// The options given on a command line: whether each was given, and the
/// shelf names where they matter.
#[derive(Debug, Clone)]
pub struct CliFlags {
    pub add_repo: bool,
    pub add_personal_repo: bool,
    pub personal_repo_bootstrap: bool,
    pub all_teams: bool,
    pub force_sync: bool,
    pub force_sync_personal: bool,
    pub sync_personal: bool,
    pub local_only: bool,
    pub shared_only: bool,
    pub import_postman: bool,
    pub open_pr: bool,
    pub web: bool,
    pub web_port: bool,
    pub add: bool,
    pub description: bool,
    pub target_shelf: bool,
    pub shelf: Option<String>,
    pub create_shelf: Option<String>,
    pub list: bool,
    pub list_shelves: bool,
    pub limit: bool,
    pub repo: bool,
    pub teams_dir: bool,
    pub team: bool,
    pub base_branch: bool,
    pub pr_branch: bool,
    pub has_keywords: bool,
    pub get: bool,
    pub render: bool,
    pub name: bool,
    pub json: bool,
    pub raw: bool,
    pub has_args: bool,
}

pub open spec fn has_shelf(f: CliFlags) -> bool {
    f.shelf is Some
}

pub open spec fn has_create_shelf(f: CliFlags) -> bool {
    f.create_shelf is Some
}

pub open spec fn shelf_name(f: CliFlags) -> Seq<char> {
    match f.shelf {
        Some(s) => s@,
        None => Seq::empty(),
    }
}

pub open spec fn create_shelf_name(f: CliFlags) -> Seq<char> {
    match f.create_shelf {
        Some(s) => s@,
        None => Seq::empty(),
    }
}

fn same_shelf(f: &CliFlags) -> (r: bool)
    ensures
        r == (shelf_name(*f) == create_shelf_name(*f)),
{
    match (&f.shelf, &f.create_shelf) {
        (Some(a), Some(b)) => str_eq(a.as_str(), b.as_str()),
        (Some(a), None) => {
            assert(a@.len() == 0 ==> a@ =~= Seq::<char>::empty());
            a.as_str().is_empty()
        },
        (None, Some(b)) => {
            assert(b@.len() == 0 ==> b@ =~= Seq::<char>::empty());
            b.as_str().is_empty()
        },
        (None, None) => true,
    }
}

/// The rules on the agent-facing flags (`--get`, `--render`, `--name`, `--raw`, `--arg`, `--json`).
pub open spec fn agent_violation(f: CliFlags) -> Option<Seq<char>> {
    if f.get && f.render {
        Some("--get and --render cannot be used together."@)
    } else if f.name && !f.add {
        Some("--name can only be used with --add."@)
    } else if f.raw && !(f.get || f.render) {
        Some("--raw can only be used with --get or --render."@)
    } else if f.raw && f.json {
        Some("--raw and --json cannot be used together."@)
    } else if f.has_args && !f.render {
        Some("--arg can only be used with --render."@)
    } else if f.json && !(f.add || f.get || f.render || f.list || f.list_shelves || f.has_keywords) {
        Some("--json requires --add, --get, --render, --list, --list-shelves, or search keywords."@)
    } else if (f.get || f.render) && (f.add || f.description || f.name || f.list || f.list_shelves || has_shelf(f) || f.team || f.all_teams || f.local_only || f.shared_only || has_create_shelf(f) || f.import_postman || f.target_shelf || f.open_pr || f.base_branch || f.pr_branch || f.limit || f.web || f.force_sync || f.force_sync_personal || f.sync_personal || f.add_repo || f.add_personal_repo || f.has_keywords) {
        Some("--get and --render must be used as standalone read operations."@)
    } else {
        None
    }
}

fn check_agent(f: &CliFlags) -> (r: Result<(), String>)
    ensures
        match agent_violation(*f) {
            Some(m) => r matches Err(e) && e@ == m,
            None => r is Ok,
        },
{
    if f.get && f.render {
        return Err(String::from_str("--get and --render cannot be used together."));
    }
    if f.name && !f.add {
        return Err(String::from_str("--name can only be used with --add."));
    }
    if f.raw && !(f.get || f.render) {
        return Err(String::from_str("--raw can only be used with --get or --render."));
    }
    if f.raw && f.json {
        return Err(String::from_str("--raw and --json cannot be used together."));
    }
    if f.has_args && !f.render {
        return Err(String::from_str("--arg can only be used with --render."));
    }
    if f.json && !(f.add || f.get || f.render || f.list || f.list_shelves || f.has_keywords) {
        return Err(String::from_str("--json requires --add, --get, --render, --list, --list-shelves, or search keywords."));
    }
    if (f.get || f.render) && (f.add || f.description || f.name || f.list || f.list_shelves || f.shelf.is_some() || f.team || f.all_teams || f.local_only || f.shared_only || f.create_shelf.is_some() || f.import_postman || f.target_shelf || f.open_pr || f.base_branch || f.pr_branch || f.limit || f.web || f.force_sync || f.force_sync_personal || f.sync_personal || f.add_repo || f.add_personal_repo || f.has_keywords) {
        return Err(String::from_str("--get and --render must be used as standalone read operations."));
    }
    Ok(())
}

/// The operations that must be used on their own, and the options that need another.
pub open spec fn standalone_violation(f: CliFlags) -> Option<Seq<char>> {
    if f.add_repo && (f.web || f.web_port || f.add || f.description || f.import_postman || f.target_shelf || has_shelf(f) || has_create_shelf(f) || f.list || f.list_shelves || f.limit || f.repo || f.teams_dir || f.team || f.open_pr || f.base_branch || f.pr_branch || f.all_teams || f.local_only || f.shared_only || f.force_sync_personal || f.sync_personal || f.add_personal_repo || f.personal_repo_bootstrap || f.has_keywords) {
        Some("--add-repo must be used on its own."@)
    } else if f.add_personal_repo && (f.web || f.web_port || f.add || f.description || f.import_postman || f.target_shelf || has_shelf(f) || has_create_shelf(f) || f.list || f.list_shelves || f.limit || f.repo || f.teams_dir || f.team || f.open_pr || f.base_branch || f.pr_branch || f.all_teams || f.local_only || f.shared_only || f.force_sync || f.force_sync_personal || f.sync_personal || f.has_keywords) {
        Some("--add-personal-repo must be used on its own."@)
    } else if f.personal_repo_bootstrap && !f.add_personal_repo {
        Some("--personal-repo-bootstrap can only be used with --add-personal-repo."@)
    } else if f.web_port && !f.web {
        Some("--web-port can only be used with --web."@)
    } else if f.force_sync && (f.add || f.description || f.import_postman || f.target_shelf || has_shelf(f) || has_create_shelf(f) || f.list || f.list_shelves || f.repo || f.add_repo || f.add_personal_repo || f.teams_dir || f.team || f.open_pr || f.base_branch || f.pr_branch || f.all_teams || f.local_only || f.shared_only || f.force_sync_personal || f.sync_personal || f.limit || f.web || f.has_keywords) {
        Some("--force-sync must be used on its own."@)
    } else if f.force_sync_personal && (f.add || f.description || f.import_postman || f.target_shelf || has_shelf(f) || has_create_shelf(f) || f.list || f.list_shelves || f.repo || f.add_repo || f.add_personal_repo || f.teams_dir || f.team || f.open_pr || f.base_branch || f.pr_branch || f.all_teams || f.local_only || f.shared_only || f.force_sync || f.sync_personal || f.limit || f.web || f.has_keywords) {
        Some("--force-sync-personal must be used on its own."@)
    } else if f.sync_personal && (f.add || f.description || f.import_postman || f.target_shelf || has_shelf(f) || has_create_shelf(f) || f.list || f.list_shelves || f.repo || f.add_repo || f.add_personal_repo || f.teams_dir || f.team || f.open_pr || f.base_branch || f.pr_branch || f.all_teams || f.local_only || f.shared_only || f.force_sync || f.force_sync_personal || f.limit || f.web || f.has_keywords) {
        Some("--sync-personal must be used on its own."@)
    } else if f.base_branch && !f.open_pr {
        Some("--base-branch can only be used with --open-pr."@)
    } else if f.pr_branch && !f.open_pr {
        Some("--pr-branch can only be used with --open-pr."@)
    } else {
        None
    }
}

fn check_standalone(f: &CliFlags) -> (r: Result<(), String>)
    ensures
        match standalone_violation(*f) {
            Some(m) => r matches Err(e) && e@ == m,
            None => r is Ok,
        },
{
    if f.add_repo && (f.web || f.web_port || f.add || f.description || f.import_postman || f.target_shelf || f.shelf.is_some() || f.create_shelf.is_some() || f.list || f.list_shelves || f.limit || f.repo || f.teams_dir || f.team || f.open_pr || f.base_branch || f.pr_branch || f.all_teams || f.local_only || f.shared_only || f.force_sync_personal || f.sync_personal || f.add_personal_repo || f.personal_repo_bootstrap || f.has_keywords) {
        return Err(String::from_str("--add-repo must be used on its own."));
    }
    if f.add_personal_repo && (f.web || f.web_port || f.add || f.description || f.import_postman || f.target_shelf || f.shelf.is_some() || f.create_shelf.is_some() || f.list || f.list_shelves || f.limit || f.repo || f.teams_dir || f.team || f.open_pr || f.base_branch || f.pr_branch || f.all_teams || f.local_only || f.shared_only || f.force_sync || f.force_sync_personal || f.sync_personal || f.has_keywords) {
        return Err(String::from_str("--add-personal-repo must be used on its own."));
    }
    if f.personal_repo_bootstrap && !f.add_personal_repo {
        return Err(String::from_str("--personal-repo-bootstrap can only be used with --add-personal-repo."));
    }
    if f.web_port && !f.web {
        return Err(String::from_str("--web-port can only be used with --web."));
    }
    if f.force_sync && (f.add || f.description || f.import_postman || f.target_shelf || f.shelf.is_some() || f.create_shelf.is_some() || f.list || f.list_shelves || f.repo || f.add_repo || f.add_personal_repo || f.teams_dir || f.team || f.open_pr || f.base_branch || f.pr_branch || f.all_teams || f.local_only || f.shared_only || f.force_sync_personal || f.sync_personal || f.limit || f.web || f.has_keywords) {
        return Err(String::from_str("--force-sync must be used on its own."));
    }
    if f.force_sync_personal && (f.add || f.description || f.import_postman || f.target_shelf || f.shelf.is_some() || f.create_shelf.is_some() || f.list || f.list_shelves || f.repo || f.add_repo || f.add_personal_repo || f.teams_dir || f.team || f.open_pr || f.base_branch || f.pr_branch || f.all_teams || f.local_only || f.shared_only || f.force_sync || f.sync_personal || f.limit || f.web || f.has_keywords) {
        return Err(String::from_str("--force-sync-personal must be used on its own."));
    }
    if f.sync_personal && (f.add || f.description || f.import_postman || f.target_shelf || f.shelf.is_some() || f.create_shelf.is_some() || f.list || f.list_shelves || f.repo || f.add_repo || f.add_personal_repo || f.teams_dir || f.team || f.open_pr || f.base_branch || f.pr_branch || f.all_teams || f.local_only || f.shared_only || f.force_sync || f.force_sync_personal || f.limit || f.web || f.has_keywords) {
        return Err(String::from_str("--sync-personal must be used on its own."));
    }
    if f.base_branch && !f.open_pr {
        return Err(String::from_str("--base-branch can only be used with --open-pr."));
    }
    if f.pr_branch && !f.open_pr {
        return Err(String::from_str("--pr-branch can only be used with --open-pr."));
    }
    Ok(())
}

/// What `--web` cannot be combined with.
pub open spec fn web_violation(f: CliFlags) -> Option<Seq<char>> {
    if f.web && (f.add || f.list || f.list_shelves || has_create_shelf(f) || f.import_postman) {
        Some("--web cannot be combined with --add, --list, --list-shelves, --create-shelf, or --import-postman."@)
    } else if f.web && f.description {
        Some("--description cannot be used with --web."@)
    } else if f.web && f.limit {
        Some("--limit cannot be used with --web."@)
    } else if f.web && (f.open_pr || f.base_branch || f.pr_branch) {
        Some("--open-pr, --base-branch, and --pr-branch cannot be used with --web."@)
    } else if f.web && has_shelf(f) {
        Some("--shelf cannot be used with --web."@)
    } else if f.web && (f.team || f.all_teams || f.local_only || f.shared_only) {
        Some("--web cannot be combined with --team, --all-teams, --local-only, or --shared-only."@)
    } else if f.web && f.has_keywords {
        Some("--web cannot be combined with search keywords."@)
    } else {
        None
    }
}

fn check_web(f: &CliFlags) -> (r: Result<(), String>)
    ensures
        match web_violation(*f) {
            Some(m) => r matches Err(e) && e@ == m,
            None => r is Ok,
        },
{
    if f.web && (f.add || f.list || f.list_shelves || f.create_shelf.is_some() || f.import_postman) {
        return Err(String::from_str("--web cannot be combined with --add, --list, --list-shelves, --create-shelf, or --import-postman."));
    }
    if f.web && f.description {
        return Err(String::from_str("--description cannot be used with --web."));
    }
    if f.web && f.limit {
        return Err(String::from_str("--limit cannot be used with --web."));
    }
    if f.web && (f.open_pr || f.base_branch || f.pr_branch) {
        return Err(String::from_str("--open-pr, --base-branch, and --pr-branch cannot be used with --web."));
    }
    if f.web && f.shelf.is_some() {
        return Err(String::from_str("--shelf cannot be used with --web."));
    }
    if f.web && (f.team || f.all_teams || f.local_only || f.shared_only) {
        return Err(String::from_str("--web cannot be combined with --team, --all-teams, --local-only, or --shared-only."));
    }
    if f.web && f.has_keywords {
        return Err(String::from_str("--web cannot be combined with search keywords."));
    }
    Ok(())
}

/// The read scope and publishing options.
pub open spec fn scope_violation(f: CliFlags) -> Option<Seq<char>> {
    if f.local_only && f.shared_only {
        Some("--local-only cannot be used together with --shared-only."@)
    } else if f.team && (f.local_only || f.shared_only) {
        Some("--local-only and --shared-only cannot be used with --team."@)
    } else if f.all_teams && (f.local_only || f.shared_only) {
        Some("--local-only and --shared-only cannot be used with --all-teams."@)
    } else if f.limit && !f.list && !f.has_keywords {
        Some("--limit can only be used with --list or search keywords."@)
    } else if f.description && !f.add {
        Some("--description can only be used with --add."@)
    } else if f.open_pr && !f.add && !has_create_shelf(f) && !f.import_postman {
        Some("--open-pr can only be used with --add, --create-shelf, or --import-postman."@)
    } else if f.open_pr && !f.team {
        Some("--open-pr requires --team so the change targets shared storage."@)
    } else {
        None
    }
}

fn check_scope(f: &CliFlags) -> (r: Result<(), String>)
    ensures
        match scope_violation(*f) {
            Some(m) => r matches Err(e) && e@ == m,
            None => r is Ok,
        },
{
    if f.local_only && f.shared_only {
        return Err(String::from_str("--local-only cannot be used together with --shared-only."));
    }
    if f.team && (f.local_only || f.shared_only) {
        return Err(String::from_str("--local-only and --shared-only cannot be used with --team."));
    }
    if f.all_teams && (f.local_only || f.shared_only) {
        return Err(String::from_str("--local-only and --shared-only cannot be used with --all-teams."));
    }
    if f.limit && !f.list && !f.has_keywords {
        return Err(String::from_str("--limit can only be used with --list or search keywords."));
    }
    if f.description && !f.add {
        return Err(String::from_str("--description can only be used with --add."));
    }
    if f.open_pr && !f.add && !f.create_shelf.is_some() && !f.import_postman {
        return Err(String::from_str("--open-pr can only be used with --add, --create-shelf, or --import-postman."));
    }
    if f.open_pr && !f.team {
        return Err(String::from_str("--open-pr requires --team so the change targets shared storage."));
    }
    Ok(())
}

/// What `--list-shelves` cannot be combined with.
pub open spec fn list_shelves_violation(f: CliFlags) -> Option<Seq<char>> {
    if f.list_shelves && (f.add || f.list || has_create_shelf(f) || f.import_postman) {
        Some("--list-shelves cannot be combined with --add, --list, --create-shelf, or --import-postman."@)
    } else if f.list_shelves && f.description {
        Some("--description cannot be used with --list-shelves."@)
    } else if f.list_shelves && f.limit {
        Some("--limit cannot be used with --list-shelves."@)
    } else if f.list_shelves && f.open_pr {
        Some("--open-pr cannot be used with --list-shelves."@)
    } else if f.list_shelves && has_shelf(f) {
        Some("--shelf cannot be used with --list-shelves."@)
    } else if f.list_shelves && f.has_keywords {
        Some("--list-shelves cannot be combined with search keywords."@)
    } else {
        None
    }
}

fn check_list_shelves(f: &CliFlags) -> (r: Result<(), String>)
    ensures
        match list_shelves_violation(*f) {
            Some(m) => r matches Err(e) && e@ == m,
            None => r is Ok,
        },
{
    if f.list_shelves && (f.add || f.list || f.create_shelf.is_some() || f.import_postman) {
        return Err(String::from_str("--list-shelves cannot be combined with --add, --list, --create-shelf, or --import-postman."));
    }
    if f.list_shelves && f.description {
        return Err(String::from_str("--description cannot be used with --list-shelves."));
    }
    if f.list_shelves && f.limit {
        return Err(String::from_str("--limit cannot be used with --list-shelves."));
    }
    if f.list_shelves && f.open_pr {
        return Err(String::from_str("--open-pr cannot be used with --list-shelves."));
    }
    if f.list_shelves && f.shelf.is_some() {
        return Err(String::from_str("--shelf cannot be used with --list-shelves."));
    }
    if f.list_shelves && f.has_keywords {
        return Err(String::from_str("--list-shelves cannot be combined with search keywords."));
    }
    Ok(())
}

/// What `--create-shelf` cannot be combined with.
pub open spec fn create_shelf_violation(f: CliFlags) -> Option<Seq<char>> {
    if has_create_shelf(f) && f.all_teams {
        Some("--all-teams cannot be used with --create-shelf."@)
    } else if has_create_shelf(f) && (f.local_only || f.shared_only) {
        Some("--local-only and --shared-only cannot be used with --create-shelf."@)
    } else if has_create_shelf(f) && (f.add || f.list || f.import_postman) {
        Some("--create-shelf cannot be combined with --add, --list, or --import-postman."@)
    } else if has_create_shelf(f) && f.has_keywords {
        Some("--create-shelf cannot be combined with search keywords."@)
    } else if has_create_shelf(f) && f.description {
        Some("--description cannot be used with --create-shelf."@)
    } else if has_create_shelf(f) && f.limit {
        Some("--limit cannot be used with --create-shelf."@)
    } else if has_create_shelf(f) && has_shelf(f) && shelf_name(f) != create_shelf_name(f) {
        Some("--shelf must match --create-shelf when both are provided."@)
    } else if has_create_shelf(f) && f.repo && !f.team {
        Some("--repo requires --team when creating a shared shelf."@)
    } else if has_create_shelf(f) && f.teams_dir && !f.team {
        Some("--teams-dir requires --team when creating a shared shelf."@)
    } else {
        None
    }
}

fn check_create_shelf(f: &CliFlags) -> (r: Result<(), String>)
    ensures
        match create_shelf_violation(*f) {
            Some(m) => r matches Err(e) && e@ == m,
            None => r is Ok,
        },
{
    if f.create_shelf.is_some() && f.all_teams {
        return Err(String::from_str("--all-teams cannot be used with --create-shelf."));
    }
    if f.create_shelf.is_some() && (f.local_only || f.shared_only) {
        return Err(String::from_str("--local-only and --shared-only cannot be used with --create-shelf."));
    }
    if f.create_shelf.is_some() && (f.add || f.list || f.import_postman) {
        return Err(String::from_str("--create-shelf cannot be combined with --add, --list, or --import-postman."));
    }
    if f.create_shelf.is_some() && f.has_keywords {
        return Err(String::from_str("--create-shelf cannot be combined with search keywords."));
    }
    if f.create_shelf.is_some() && f.description {
        return Err(String::from_str("--description cannot be used with --create-shelf."));
    }
    if f.create_shelf.is_some() && f.limit {
        return Err(String::from_str("--limit cannot be used with --create-shelf."));
    }
    if f.create_shelf.is_some() && f.shelf.is_some() && !same_shelf(f) {
        return Err(String::from_str("--shelf must match --create-shelf when both are provided."));
    }
    if f.create_shelf.is_some() && f.repo && !f.team {
        return Err(String::from_str("--repo requires --team when creating a shared shelf."));
    }
    if f.create_shelf.is_some() && f.teams_dir && !f.team {
        return Err(String::from_str("--teams-dir requires --team when creating a shared shelf."));
    }
    Ok(())
}

/// What `--add` cannot be combined with.
pub open spec fn add_violation(f: CliFlags) -> Option<Seq<char>> {
    if f.add && f.all_teams {
        Some("--all-teams cannot be used with --add."@)
    } else if f.add && (f.local_only || f.shared_only) {
        Some("--local-only and --shared-only cannot be used with --add."@)
    } else if f.add && f.repo && !f.team {
        Some("--repo requires --team when using shared repository write mode."@)
    } else if f.add && f.teams_dir && !f.team {
        Some("--teams-dir requires --team when using shared repository write mode."@)
    } else if f.add && f.import_postman {
        Some("--add cannot be combined with --import-postman."@)
    } else {
        None
    }
}

fn check_add(f: &CliFlags) -> (r: Result<(), String>)
    ensures
        match add_violation(*f) {
            Some(m) => r matches Err(e) && e@ == m,
            None => r is Ok,
        },
{
    if f.add && f.all_teams {
        return Err(String::from_str("--all-teams cannot be used with --add."));
    }
    if f.add && (f.local_only || f.shared_only) {
        return Err(String::from_str("--local-only and --shared-only cannot be used with --add."));
    }
    if f.add && f.repo && !f.team {
        return Err(String::from_str("--repo requires --team when using shared repository write mode."));
    }
    if f.add && f.teams_dir && !f.team {
        return Err(String::from_str("--teams-dir requires --team when using shared repository write mode."));
    }
    if f.add && f.import_postman {
        return Err(String::from_str("--add cannot be combined with --import-postman."));
    }
    Ok(())
}

/// What `--import-postman` cannot be combined with.
pub open spec fn import_violation(f: CliFlags) -> Option<Seq<char>> {
    if f.import_postman && f.all_teams {
        Some("--all-teams cannot be used with --import-postman."@)
    } else if f.import_postman && (f.local_only || f.shared_only) {
        Some("--local-only and --shared-only cannot be used with --import-postman."@)
    } else if f.import_postman && f.list {
        Some("--list cannot be combined with --import-postman."@)
    } else if f.import_postman && f.description {
        Some("--description cannot be used with --import-postman."@)
    } else if f.import_postman && has_shelf(f) {
        Some("--shelf cannot be used with --import-postman. Use --target-shelf instead."@)
    } else if f.import_postman && f.limit {
        Some("--limit cannot be used with --import-postman."@)
    } else if f.import_postman && f.has_keywords {
        Some("--import-postman cannot be combined with search keywords."@)
    } else if f.import_postman && f.repo && !f.team {
        Some("--repo requires --team when importing into shared storage."@)
    } else if f.import_postman && f.teams_dir && !f.team {
        Some("--teams-dir requires --team when importing into shared storage."@)
    } else {
        None
    }
}

fn check_import(f: &CliFlags) -> (r: Result<(), String>)
    ensures
        match import_violation(*f) {
            Some(m) => r matches Err(e) && e@ == m,
            None => r is Ok,
        },
{
    if f.import_postman && f.all_teams {
        return Err(String::from_str("--all-teams cannot be used with --import-postman."));
    }
    if f.import_postman && (f.local_only || f.shared_only) {
        return Err(String::from_str("--local-only and --shared-only cannot be used with --import-postman."));
    }
    if f.import_postman && f.list {
        return Err(String::from_str("--list cannot be combined with --import-postman."));
    }
    if f.import_postman && f.description {
        return Err(String::from_str("--description cannot be used with --import-postman."));
    }
    if f.import_postman && f.shelf.is_some() {
        return Err(String::from_str("--shelf cannot be used with --import-postman. Use --target-shelf instead."));
    }
    if f.import_postman && f.limit {
        return Err(String::from_str("--limit cannot be used with --import-postman."));
    }
    if f.import_postman && f.has_keywords {
        return Err(String::from_str("--import-postman cannot be combined with search keywords."));
    }
    if f.import_postman && f.repo && !f.team {
        return Err(String::from_str("--repo requires --team when importing into shared storage."));
    }
    if f.import_postman && f.teams_dir && !f.team {
        return Err(String::from_str("--teams-dir requires --team when importing into shared storage."));
    }
    Ok(())
}

/// The message of the first rule the options break, checked in order.
pub open spec fn flags_violation(f: CliFlags) -> Option<Seq<char>> {
    if agent_violation(f) is Some {
        agent_violation(f)
    } else if standalone_violation(f) is Some {
        standalone_violation(f)
    } else if web_violation(f) is Some {
        web_violation(f)
    } else if scope_violation(f) is Some {
        scope_violation(f)
    } else if list_shelves_violation(f) is Some {
        list_shelves_violation(f)
    } else if create_shelf_violation(f) is Some {
        create_shelf_violation(f)
    } else if add_violation(f) is Some {
        add_violation(f)
    } else if import_violation(f) is Some {
        import_violation(f)
    } else {
        None
    }
}

/// Checks a combination of command-line options; the error is the message of
/// the first rule it breaks.
pub fn validate_flags(f: &CliFlags) -> (r: Result<(), String>)
    ensures
        match flags_violation(*f) {
            Some(m) => r matches Err(e) && e@ == m,
            None => r is Ok,
        },
{
    check_agent(f)?;
    check_standalone(f)?;
    check_web(f)?;
    check_scope(f)?;
    check_list_shelves(f)?;
    check_create_shelf(f)?;
    check_add(f)?;
    check_import(f)?;
    Ok(())
}

/// An accepted combination keeps each operation apart: `--add-repo` and
/// `--add-personal-repo` stand alone, `--get` and `--render` are plain reads,
/// the two read scopes exclude each other, and `--open-pr` publishes a
/// team's write.
pub proof fn lemma_accepted_flags(f: CliFlags)
    requires
        flags_violation(f) is None,
    ensures
        !(f.local_only && f.shared_only),
        f.add_repo ==> !(f.add || f.list || f.web || f.has_keywords || f.team || f.add_personal_repo),
        f.add_personal_repo ==> !(f.add || f.list || f.web || f.has_keywords || f.team || f.add_repo),
        (f.get || f.render) ==> !(f.add || f.list || f.list_shelves || f.has_keywords || f.web),
        f.open_pr ==> f.team && (f.add || has_create_shelf(f) || f.import_postman),
        f.web ==> !(f.add || f.list || f.list_shelves || f.has_keywords),
        f.limit ==> f.list || f.has_keywords,
{
}

} // verus!
