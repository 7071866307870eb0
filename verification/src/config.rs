//! Configuration: shared repository settings, their validation, and the names and
//! paths of teams and shelves.
use crate::github::{
    github_repo_error, validate_github_repo_name, DEFAULT_GITHUB_REPO_AUTO_UPDATE_INTERVAL_MINUTES,
};
use crate::path::{join_path, path_join};
use crate::sorted::{sorted_unique, strictly_sorted};
use crate::text::{
    chars_vec, is_ascii_alnum, is_ascii_alphanumeric, split_char, split_chars, str_eq, Sep,
};
use vstd::prelude::*;

verus! {

pub open spec fn name_char(c: char) -> bool {
    is_ascii_alnum(c) || c == '-' || c == '_' || c == '.'
}

/// A team or shelf name: non-empty ASCII letters, digits, dots, underscores and
/// hyphens, and neither `.` nor `..`.
pub open spec fn is_valid_name(name: Seq<char>) -> bool {
    &&& name.len() > 0
    &&& name != "."@
    &&& name != ".."@
    &&& forall|i: int| 0 <= i < name.len() ==> name_char(#[trigger] name[i])
}

pub open spec fn team_name_error() -> Seq<char> {
    "Team names may only contain letters, numbers, dots, underscores, and hyphens."@
}

pub open spec fn shelf_name_error() -> Seq<char> {
    "Shelf names may only contain letters, numbers, dots, underscores, and hyphens."@
}

fn valid_name(name: &str) -> (r: bool)
    ensures
        r == is_valid_name(name@),
{
    let v = chars_vec(name);
    if v.len() == 0 || str_eq(name, ".") || str_eq(name, "..") {
        return false;
    }
    let mut i: usize = 0;
    while i < v.len()
        invariant
            i <= v@.len(),
            v@ == name@,
            forall|k: int| 0 <= k < i ==> name_char(#[trigger] name@[k]),
        decreases v.len() - i,
    {
        let c = v[i];
        if !(is_ascii_alphanumeric(c) || c == '-' || c == '_' || c == '.') {
            return false;
        }
        i = i + 1;
    }
    true
}

/// Checks a team name.
pub fn validate_team_name(team: &str) -> (r: Result<(), String>)
    ensures
        r is Ok <==> is_valid_name(team@),
        r matches Err(e) ==> e@ == team_name_error(),
{
    if valid_name(team) {
        Ok(())
    } else {
        Err(String::from_str("Team names may only contain letters, numbers, dots, underscores, and hyphens."))
    }
}

/// Checks a shelf name (the same rules as team names).
pub fn validate_shelf_name(shelf: &str) -> (r: Result<(), String>)
    ensures
        r is Ok <==> is_valid_name(shelf@),
        r matches Err(e) ==> e@ == shelf_name_error(),
{
    if valid_name(shelf) {
        Ok(())
    } else {
        Err(String::from_str("Shelf names may only contain letters, numbers, dots, underscores, and hyphens."))
    }
}

/// A relative directory whose components are all normal names: not absolute, not
/// starting with a `.` component, and without `..` components (`.` components
/// after the first are dropped by path parsing).
pub open spec fn is_valid_relative_dir(path: Seq<char>) -> bool {
    let parts = split_char(path, '/');
    &&& path.len() > 0
    &&& path[0] != '/'
    &&& parts[0] != "."@
    &&& forall|i: int| 0 <= i < parts.len() ==> #[trigger] parts[i] != ".."@
}

pub open spec fn empty_dir_error() -> Seq<char> {
    "Teams directory cannot be empty."@
}

pub open spec fn relative_dir_error() -> Seq<char> {
    "Teams directory must be a relative path without '.' or '..' components."@
}

/// The error for a teams directory, if it is not a valid relative directory.
pub open spec fn relative_dir_problem(path: Seq<char>) -> Option<Seq<char>> {
    if path.len() == 0 {
        Some(empty_dir_error())
    } else if is_valid_relative_dir(path) {
        None
    } else {
        Some(relative_dir_error())
    }
}

/// Checks a teams directory.
pub fn validate_relative_directory(path: &str) -> (r: Result<(), String>)
    ensures
        r is Ok <==> relative_dir_problem(path@) is None,
        r matches Err(e) ==> relative_dir_problem(path@) == Some(e@),
{
    let v = chars_vec(path);
    if v.len() == 0 {
        return Err(String::from_str("Teams directory cannot be empty."));
    }
    let parts = split_chars(&v, Sep::Char('/'));
    proof {
        crate::text::lemma_split_on_nonempty(path@, Sep::Char('/'));
    }
    let dot = chars_vec(".");
    let dotdot = chars_vec("..");
    let mut ok = v[0] != '/' && !crate::text::chars_eq(&parts[0], &dot);
    let mut i: usize = 0;
    while i < parts.len()
        invariant
            i <= parts@.len(),
            v@ == path@,
            v@.len() > 0,
            dotdot@ == ".."@,
            dot@ == "."@,
            parts@.len() == split_char(path@, '/').len(),
            forall|k: int| 0 <= k < parts@.len() ==> #[trigger] parts@[k]@ == split_char(path@, '/')[k],
            ok == (path@[0] != '/' && split_char(path@, '/')[0] != "."@ && forall|k: int| 0 <= k < i ==> #[trigger] split_char(path@, '/')[k] != ".."@),
        decreases parts.len() - i,
    {
        if crate::text::chars_eq(&parts[i], &dotdot) {
            ok = false;
        }
        i = i + 1;
    }
    if ok {
        Ok(())
    } else {
        Err(String::from_str("Teams directory must be a relative path without '.' or '..' components."))
    }
}

/// `<repository_root>/<teams_dir>/<team>/commands.json` for a valid team and teams directory.
pub fn get_team_data_file_path(repository_root: &str, teams_dir: &str, team: &str) -> (r: Result<String, String>)
    ensures
        !is_valid_name(team@) ==> (r matches Err(e) && e@ == team_name_error()),
        is_valid_name(team@) ==> (match relative_dir_problem(teams_dir@) {
            Some(msg) => r matches Err(e) && e@ == msg,
            None => r matches Ok(p) && p@ == path_join(path_join(path_join(repository_root@, teams_dir@), team@), "commands.json"@),
        }),
{
    validate_team_name(team)?;
    validate_relative_directory(teams_dir)?;
    let a = join_path(repository_root, teams_dir);
    let b = join_path(a.as_str(), team);
    Ok(join_path(b.as_str(), "commands.json"))
}

/// `<repository_root>/<teams_dir>/<team>/shelves/<shelf>.json`, the file of a team's shelf.
pub fn get_team_shelf_file_path(repository_root: &str, teams_dir: &str, team: &str, shelf: &str) -> (r: Result<String, String>)
    ensures
        !is_valid_name(team@) ==> (r matches Err(e) && e@ == team_name_error()),
        is_valid_name(team@) && !is_valid_name(shelf@) ==> (r matches Err(e) && e@ == shelf_name_error()),
        is_valid_name(team@) && is_valid_name(shelf@) ==> (match relative_dir_problem(teams_dir@) {
            Some(msg) => r matches Err(e) && e@ == msg,
            None => r matches Ok(p) && p@ == path_join(path_join(path_join(path_join(repository_root@, teams_dir@), team@), "shelves"@), shelf@ + ".json"@),
        }),
{
    validate_team_name(team)?;
    validate_shelf_name(shelf)?;
    validate_relative_directory(teams_dir)?;
    let a = join_path(repository_root, teams_dir);
    let b = join_path(a.as_str(), team);
    let c = join_path(b.as_str(), "shelves");
    let mut file = String::from_str(shelf);
    file.append(".json");
    Ok(join_path(c.as_str(), file.as_str()))
}

pub open spec fn shared_repository_required() -> Seq<char> {
    "No shared repository configured. Use --repo or configure shared_repo in config."@
}

/// The message for operations that need a shared repository when none is configured.
pub fn shared_repository_required_message() -> (r: &'static str)
    ensures
        r@ == shared_repository_required(),
{
    "No shared repository configured. Use --repo or configure shared_repo in config."
}

/// Shared storage in a local directory.
#[derive(Debug, Clone, PartialEq)]
pub struct PathSharedRepoConfig {
    pub path: String,
    pub teams_dir: Option<String>,
    pub default_team: Option<String>,
    pub default_all_teams: bool,
}

/// Shared storage in a managed checkout of a GitHub repository.
#[derive(Debug, Clone, PartialEq)]
pub struct GithubSharedRepoConfig {
    pub github_repo: String,
    pub teams_dir: Option<String>,
    pub auto_update_repo: bool,
    pub auto_update_interval_minutes: u64,
    pub default_team: Option<String>,
    pub default_all_teams: bool,
}

#[derive(Debug, Clone, PartialEq)]
pub enum SharedRepoConfig {
    Path(PathSharedRepoConfig),
    Github(GithubSharedRepoConfig),
}

/// The validated configuration.
#[derive(Debug, Clone, PartialEq)]
pub struct ReqbibConfig {
    pub shared_repo: Option<SharedRepoConfig>,
    pub default_list_limit: Option<usize>,
}

/// The `shared_repo` section as read from the file, before validation.
#[derive(Debug, Clone)]
pub struct RawSharedRepoConfig {
    pub mode: String,
    pub path: Option<String>,
    pub github_repo: Option<String>,
    pub teams_dir: Option<String>,
    pub auto_update_repo: Option<bool>,
    pub auto_update_interval_minutes: Option<u64>,
    pub default_team: Option<String>,
    pub default_all_teams: Option<bool>,
}

/// The configuration as read from the file, before validation.
#[derive(Debug, Clone)]
pub struct RawReqbibConfig {
    pub shared_repo: Option<RawSharedRepoConfig>,
    pub default_list_limit: Option<usize>,
}

/// Where shared storage lives.
#[derive(Debug, Clone, PartialEq)]
pub struct SharedStorageContext {
    pub repository_root: String,
    pub teams_dir: String,
}

/// What non-team reads include from shared storage by default.
#[derive(Debug, Clone, PartialEq, Eq)]
pub enum DefaultSharedReadTarget {
    Team(String),
    AllTeams,
}

pub open spec fn opt_view(o: Option<String>) -> Option<Seq<char>> {
    match o {
        Some(s) => Some(s@),
        None => None,
    }
}

/// The error that validating a raw `shared_repo` section gives, in the order the
/// checks are made; `None` when it is valid.
pub open spec fn raw_shared_repo_error(raw: RawSharedRepoConfig) -> Option<Seq<char>> {
    let all_teams = match raw.default_all_teams {
        Some(b) => b,
        None => false,
    };
    if raw.teams_dir is Some && relative_dir_problem(raw.teams_dir->0@) is Some {
        relative_dir_problem(raw.teams_dir->0@)
    } else if raw.default_team is Some && !is_valid_name(raw.default_team->0@) {
        Some(team_name_error())
    } else if all_teams && raw.default_team is Some {
        Some("shared_repo.default_team cannot be combined with shared_repo.default_all_teams."@)
    } else if raw.mode@ == "path"@ {
        if raw.path is None {
            Some("shared_repo.mode 'path' requires shared_repo.path."@)
        } else if raw.path->0@.len() == 0 {
            Some("shared_repo.path cannot be empty."@)
        } else if raw.github_repo is Some {
            Some("shared_repo.mode 'path' cannot be combined with shared_repo.github_repo."@)
        } else if raw.auto_update_repo is Some {
            Some("shared_repo.auto_update_repo is only valid when shared_repo.mode is 'github'."@)
        } else if raw.auto_update_interval_minutes is Some {
            Some("shared_repo.auto_update_interval_minutes is only valid when shared_repo.mode is 'github'."@)
        } else {
            None
        }
    } else if raw.mode@ == "github"@ {
        if raw.github_repo is None {
            Some("shared_repo.mode 'github' requires shared_repo.github_repo."@)
        } else if github_repo_error(raw.github_repo->0@) is Some {
            github_repo_error(raw.github_repo->0@)
        } else if raw.path is Some {
            Some("shared_repo.mode 'github' cannot be combined with shared_repo.path."@)
        } else if raw.auto_update_interval_minutes == Some(0u64) {
            Some("shared_repo.auto_update_interval_minutes must be greater than 0."@)
        } else {
            None
        }
    } else {
        Some("shared_repo.mode must be either 'path' or 'github'."@)
    }
}

/// `c` is the configuration a valid raw section describes, with defaults applied.
pub open spec fn built_from_raw(c: SharedRepoConfig, raw: RawSharedRepoConfig) -> bool {
    let all_teams = match raw.default_all_teams {
        Some(b) => b,
        None => false,
    };
    match c {
        SharedRepoConfig::Path(p) => {
            &&& raw.mode@ == "path"@
            &&& raw.path is Some && p.path@ == raw.path->0@
            &&& opt_view(p.teams_dir) == opt_view(raw.teams_dir)
            &&& opt_view(p.default_team) == opt_view(raw.default_team)
            &&& p.default_all_teams == all_teams
        },
        SharedRepoConfig::Github(g) => {
            &&& raw.mode@ == "github"@
            &&& raw.github_repo is Some && g.github_repo@ == raw.github_repo->0@
            &&& opt_view(g.teams_dir) == opt_view(raw.teams_dir)
            &&& g.auto_update_repo == match raw.auto_update_repo {
                Some(b) => b,
                None => true,
            }
            &&& g.auto_update_interval_minutes == match raw.auto_update_interval_minutes {
                Some(m) => m,
                None => DEFAULT_GITHUB_REPO_AUTO_UPDATE_INTERVAL_MINUTES,
            }
            &&& opt_view(g.default_team) == opt_view(raw.default_team)
            &&& g.default_all_teams == all_teams
        },
    }
}

fn clone_opt(o: &Option<String>) -> (r: Option<String>)
    ensures
        opt_view(r) == opt_view(*o),
{
    match o {
        Some(s) => Some(s.clone()),
        None => None,
    }
}

impl GithubSharedRepoConfig {
    /// The refresh interval in seconds (minutes times sixty, saturating).
    pub fn auto_update_interval(&self) -> (r: u64)
        ensures
            r == if self.auto_update_interval_minutes * 60 > u64::MAX { u64::MAX as int } else { self.auto_update_interval_minutes * 60 },
    {
        if self.auto_update_interval_minutes > u64::MAX / 60 {
            u64::MAX
        } else {
            self.auto_update_interval_minutes * 60
        }
    }
}

impl ReqbibConfig {
    /// The teams directory: the configured one, else `teams`, once validated.
    pub fn teams_dir(&self) -> (r: Result<String, String>)
        ensures
            ({
                let dir = match self.shared_repo {
                    Some(c) => match c {
                        SharedRepoConfig::Path(p) => opt_view(p.teams_dir),
                        SharedRepoConfig::Github(g) => opt_view(g.teams_dir),
                    },
                    None => None,
                };
                let chosen = match dir { Some(d) => d, None => "teams"@ };
                match relative_dir_problem(chosen) {
                    Some(msg) => r matches Err(e) && e@ == msg,
                    None => r matches Ok(d) && d@ == chosen,
                }
            }),
    {
        let configured: Option<&String> = match &self.shared_repo {
            Some(c) => c.teams_dir(),
            None => None,
        };
        let teams_dir = match configured {
            Some(d) => d.clone(),
            None => String::from_str("teams"),
        };
        validate_relative_directory(teams_dir.as_str())?;
        Ok(teams_dir)
    }

    /// The default shared read target of the configured shared repository.
    pub fn default_shared_read_target(&self) -> (r: Option<DefaultSharedReadTarget>)
        ensures
            match self.shared_repo {
                Some(c) => config_read_target_ok(c, r),
                None => r is None,
            },
    {
        match &self.shared_repo {
            Some(c) => c.default_shared_read_target(),
            None => None,
        }
    }

    /// The default configuration: no shared repository, no list limit.
    pub fn default() -> (r: Self)
        ensures
            r.shared_repo is None,
            r.default_list_limit is None,
    {
        ReqbibConfig { shared_repo: None, default_list_limit: None }
    }

    /// Validates a raw configuration.
    pub fn try_from(value: RawReqbibConfig) -> (r: Result<Self, String>)
        ensures
            match value.shared_repo {
                None => r matches Ok(c) && c.shared_repo is None && c.default_list_limit == value.default_list_limit,
                Some(raw) => match raw_shared_repo_error(raw) {
                    Some(msg) => r matches Err(e) && e@ == msg,
                    None => r matches Ok(c) && c.default_list_limit == value.default_list_limit
                        && (c.shared_repo matches Some(s) && built_from_raw(s, raw)),
                },
            },
    {
        let shared_repo = match value.shared_repo {
            Some(raw) => Some(SharedRepoConfig::try_from(raw)?),
            None => None,
        };
        Ok(ReqbibConfig { shared_repo, default_list_limit: value.default_list_limit })
    }
}

impl SharedRepoConfig {
    /// Validates a raw `shared_repo` section.
    pub fn try_from(value: RawSharedRepoConfig) -> (r: Result<Self, String>)
        ensures
            match raw_shared_repo_error(value) {
                Some(msg) => r matches Err(e) && e@ == msg,
                None => r matches Ok(c) && built_from_raw(c, value),
            },
    {
        if let Some(teams_dir) = value.teams_dir.as_ref() {
            validate_relative_directory(teams_dir.as_str())?;
        }
        if let Some(default_team) = value.default_team.as_ref() {
            validate_team_name(default_team.as_str())?;
        }
        let default_all_teams = match value.default_all_teams {
            Some(b) => b,
            None => false,
        };
        if default_all_teams && value.default_team.is_some() {
            return Err(String::from_str("shared_repo.default_team cannot be combined with shared_repo.default_all_teams."));
        }
        if str_eq(value.mode.as_str(), "path") {
            let path = match &value.path {
                Some(p) => p.clone(),
                None => return Err(String::from_str("shared_repo.mode 'path' requires shared_repo.path.")),
            };
            if path.unicode_len() == 0 {
                return Err(String::from_str("shared_repo.path cannot be empty."));
            }
            if value.github_repo.is_some() {
                return Err(String::from_str("shared_repo.mode 'path' cannot be combined with shared_repo.github_repo."));
            }
            if value.auto_update_repo.is_some() {
                return Err(String::from_str("shared_repo.auto_update_repo is only valid when shared_repo.mode is 'github'."));
            }
            if value.auto_update_interval_minutes.is_some() {
                return Err(String::from_str("shared_repo.auto_update_interval_minutes is only valid when shared_repo.mode is 'github'."));
            }
            Ok(SharedRepoConfig::Path(PathSharedRepoConfig {
                path,
                teams_dir: clone_opt(&value.teams_dir),
                default_team: clone_opt(&value.default_team),
                default_all_teams,
            }))
        } else if str_eq(value.mode.as_str(), "github") {
            let github_repo = match &value.github_repo {
                Some(g) => g.clone(),
                None => return Err(String::from_str("shared_repo.mode 'github' requires shared_repo.github_repo.")),
            };
            validate_github_repo_name(github_repo.as_str())?;
            if value.path.is_some() {
                return Err(String::from_str("shared_repo.mode 'github' cannot be combined with shared_repo.path."));
            }
            let auto_update_interval_minutes = match value.auto_update_interval_minutes {
                Some(m) => m,
                None => DEFAULT_GITHUB_REPO_AUTO_UPDATE_INTERVAL_MINUTES,
            };
            if auto_update_interval_minutes == 0 {
                return Err(String::from_str("shared_repo.auto_update_interval_minutes must be greater than 0."));
            }
            Ok(SharedRepoConfig::Github(GithubSharedRepoConfig {
                github_repo,
                teams_dir: clone_opt(&value.teams_dir),
                auto_update_repo: match value.auto_update_repo {
                    Some(b) => b,
                    None => true,
                },
                auto_update_interval_minutes,
                default_team: clone_opt(&value.default_team),
                default_all_teams,
            }))
        } else {
            Err(String::from_str("shared_repo.mode must be either 'path' or 'github'."))
        }
    }

    /// The configured teams directory, if any.
    pub fn teams_dir(&self) -> (r: Option<&String>)
        ensures
            match r { Some(d) => Some(d@), None => None } == match self {
                SharedRepoConfig::Path(c) => opt_view(c.teams_dir),
                SharedRepoConfig::Github(c) => opt_view(c.teams_dir),
            },
    {
        match self {
            SharedRepoConfig::Path(config) => config.teams_dir.as_ref(),
            SharedRepoConfig::Github(config) => config.teams_dir.as_ref(),
        }
    }

    /// The default shared read target this section configures.
    pub fn default_shared_read_target(&self) -> (r: Option<DefaultSharedReadTarget>)
        ensures
            config_read_target_ok(*self, r),
    {
        match self {
            SharedRepoConfig::Path(config) => default_shared_read_target(
                opt_str(&config.default_team),
                config.default_all_teams,
            ),
            SharedRepoConfig::Github(config) => default_shared_read_target(
                opt_str(&config.default_team),
                config.default_all_teams,
            ),
        }
    }
}

/// All teams when `default_all_teams` is set, else the default team if one is set.
pub open spec fn is_read_target(
    r: Option<DefaultSharedReadTarget>,
    default_team: Option<Seq<char>>,
    default_all_teams: bool,
) -> bool {
    if default_all_teams {
        r == Some(DefaultSharedReadTarget::AllTeams)
    } else {
        match default_team {
            Some(t) => r matches Some(DefaultSharedReadTarget::Team(x)) && x@ == t,
            None => r is None,
        }
    }
}

/// The default shared read target of a team setting and an all-teams flag.
pub fn default_shared_read_target(default_team: Option<&str>, default_all_teams: bool) -> (r: Option<
    DefaultSharedReadTarget,
>)
    ensures
        is_read_target(r, match default_team { Some(t) => Some(t@), None => None }, default_all_teams),
{
    if default_all_teams {
        Some(DefaultSharedReadTarget::AllTeams)
    } else {
        match default_team {
            Some(team) => Some(DefaultSharedReadTarget::Team(String::from_str(team))),
            None => None,
        }
    }
}

fn opt_str(o: &Option<String>) -> (r: Option<&str>)
    ensures
        match r { Some(t) => Some(t@), None => None } == opt_view(*o),
{
    match o {
        Some(s) => Some(s.as_str()),
        None => None,
    }
}

pub open spec fn config_read_target_ok(c: SharedRepoConfig, r: Option<DefaultSharedReadTarget>) -> bool {
    match c {
        SharedRepoConfig::Path(p) => is_read_target(r, opt_view(p.default_team), p.default_all_teams),
        SharedRepoConfig::Github(g) => is_read_target(r, opt_view(g.default_team), g.default_all_teams),
    }
}


/// The keys of the old flat layout that now belong under `shared_repo`, in order.
pub open spec fn legacy_keys() -> Seq<Seq<char>> {
    seq!["github_repo"@, "shared_repo_path"@, "teams_dir"@, "auto_update_repo"@, "auto_update_interval_minutes"@]
}

/// The legacy keys present among `keys`, in the order of `legacy_keys`.
pub open spec fn present_legacy_keys(keys: Seq<Seq<char>>) -> Seq<Seq<char>> {
    legacy_keys().filter(|k: Seq<char>| keys.contains(k))
}

/// Rejects a configuration object that still uses the flat shared-repository keys.
/// `object_keys` holds the keys of the top-level JSON value when it is an object.
pub fn validate_no_legacy_flat_shared_repo_keys(object_keys: Option<&Vec<String>>) -> (r: Result<(), String>)
    ensures
        match object_keys {
            None => r is Ok,
            Some(keys) => {
                let present = present_legacy_keys(keys.deep_view());
                if present.len() == 0 {
                    r is Ok
                } else {
                    r matches Err(e) && e@ == "Legacy flat shared repository config is no longer supported. Move "@
                        + crate::text::join_seqs(present, ", "@) + " under 'shared_repo'."@
                }
            },
        },
{
    let keys = match object_keys {
        None => return Ok(()),
        Some(k) => k,
    };
    let mut legacy: Vec<String> = Vec::new();
    legacy.push(String::from_str("github_repo"));
    legacy.push(String::from_str("shared_repo_path"));
    legacy.push(String::from_str("teams_dir"));
    legacy.push(String::from_str("auto_update_repo"));
    legacy.push(String::from_str("auto_update_interval_minutes"));
    let ghost lk = legacy_keys();
    let ghost pred = |k: Seq<char>| keys.deep_view().contains(k);
    assert(legacy.deep_view() =~= lk);
    let mut present: Vec<String> = Vec::new();
    let mut i: usize = 0;
    proof {
        reveal(Seq::filter);
        assert(lk.subrange(0, 0).filter(pred) =~= Seq::<Seq<char>>::empty());
    }
    while i < legacy.len()
        invariant
            i <= legacy@.len(),
            legacy.deep_view() == lk,
            lk == legacy_keys(),
            pred == |k: Seq<char>| keys.deep_view().contains(k),
            present.deep_view() == lk.subrange(0, i as int).filter(pred),
        decreases legacy.len() - i,
    {
        proof {
            assert(lk.subrange(0, i + 1) =~= lk.subrange(0, i as int).push(lk[i as int]));
            lk.subrange(0, i as int).lemma_filter_push(lk[i as int], pred);
        }
        assert(legacy.deep_view()[i as int] == legacy@[i as int]@);
        if crate::dedup::contains_string(keys, legacy[i].as_str()) {
            let ghost before = present.deep_view();
            present.push(legacy[i].clone());
            assert(present.deep_view() =~= before.push(lk[i as int]));
        }
        i = i + 1;
    }
    assert(lk.subrange(0, lk.len() as int) =~= lk);
    assert(present.deep_view() == present_legacy_keys(keys.deep_view()));
    if present.len() == 0 {
        Ok(())
    } else {
        let mut msg = String::from_str("Legacy flat shared repository config is no longer supported. Move ");
        let joined = crate::text::join_strings(&present, ", ");
        msg.append(joined.as_str());
        msg.append(" under 'shared_repo'.");
        Err(msg)
    }
}


/// Where this run finds the shared repository.
#[derive(Debug, Clone, PartialEq, Eq)]
pub enum SharedRepoSource {
    /// A directory: the one given on the command line or the configured path.
    Directory(String),
    /// A managed checkout of a GitHub repository, refreshed as configured
    /// (the interval in seconds).
    Github { repo: String, auto_update: bool, interval_seconds: u64 },
}

pub open spec fn team_with_all_teams_error() -> Seq<char> {
    "--team cannot be used together with --all-teams."@
}

pub open spec fn interval_seconds(minutes: u64) -> u64 {
    if minutes * 60 > u64::MAX {
        u64::MAX
    } else {
        (minutes * 60) as u64
    }
}

/// The shared repository of a run: `--team` and `--all-teams` exclude each
/// other; an explicit `--repo` wins over the configuration; without either, a
/// run that names a team or all teams fails and any other has none.
pub open spec fn repo_source_ok(
    explicit_repo: Option<Seq<char>>,
    config: ReqbibConfig,
    team_given: bool,
    all_teams: bool,
    r: Result<Option<SharedRepoSource>, String>,
) -> bool {
    if team_given && all_teams {
        r matches Err(e) && e@ == team_with_all_teams_error()
    } else {
        match explicit_repo {
            Some(p) => r matches Ok(Some(SharedRepoSource::Directory(d))) && d@ == p,
            None => match config.shared_repo {
                Some(SharedRepoConfig::Path(c)) => r matches Ok(Some(SharedRepoSource::Directory(d)))
                    && d@ == c.path@,
                Some(SharedRepoConfig::Github(g)) => r matches Ok(
                    Some(SharedRepoSource::Github { repo, auto_update, interval_seconds: secs }),
                ) && repo@ == g.github_repo@ && auto_update == g.auto_update_repo && secs
                    == interval_seconds(g.auto_update_interval_minutes),
                None => if team_given || all_teams {
                    r matches Err(e) && e@ == shared_repository_required()
                } else {
                    r matches Ok(None)
                },
            },
        }
    }
}

/// Decides where a run finds the shared repository.
pub fn shared_repo_source(
    explicit_repo: Option<&str>,
    config: &ReqbibConfig,
    team_given: bool,
    all_teams: bool,
) -> (r: Result<Option<SharedRepoSource>, String>)
    ensures
        repo_source_ok(
            match explicit_repo {
                Some(p) => Some(p@),
                None => None,
            },
            *config,
            team_given,
            all_teams,
            r,
        ),
{
    if team_given && all_teams {
        return Err(String::from_str("--team cannot be used together with --all-teams."));
    }
    if let Some(p) = explicit_repo {
        return Ok(Some(SharedRepoSource::Directory(String::from_str(p))));
    }
    match &config.shared_repo {
        Some(SharedRepoConfig::Path(c)) => Ok(Some(SharedRepoSource::Directory(c.path.clone()))),
        Some(SharedRepoConfig::Github(g)) => Ok(
            Some(
                SharedRepoSource::Github {
                    repo: g.github_repo.clone(),
                    auto_update: g.auto_update_repo,
                    interval_seconds: g.auto_update_interval(),
                },
            ),
        ),
        None => {
            if team_given || all_teams {
                Err(String::from_str(shared_repository_required_message()))
            } else {
                Ok(None)
            }
        },
    }
}

/// The teams directory of a run: `--teams-dir` once validated, else the
/// configured one (`teams` by default).
pub fn resolve_teams_dir(explicit_teams_dir: Option<&str>, config: &ReqbibConfig) -> (r: Result<String, String>)
    ensures
        match explicit_teams_dir {
            Some(d) => match relative_dir_problem(d@) {
                Some(msg) => r matches Err(e) && e@ == msg,
                None => r matches Ok(x) && x@ == d@,
            },
            None => {
                let dir = match config.shared_repo {
                    Some(c) => match c {
                        SharedRepoConfig::Path(p) => opt_view(p.teams_dir),
                        SharedRepoConfig::Github(g) => opt_view(g.teams_dir),
                    },
                    None => None,
                };
                let chosen = match dir {
                    Some(d) => d,
                    None => "teams"@,
                };
                match relative_dir_problem(chosen) {
                    Some(msg) => r matches Err(e) && e@ == msg,
                    None => r matches Ok(d) && d@ == chosen,
                }
            },
        },
{
    match explicit_teams_dir {
        Some(d) => {
            validate_relative_directory(d)?;
            Ok(String::from_str(d))
        },
        None => config.teams_dir(),
    }
}

/// The data file of a team, which needs a shared repository.
pub fn team_data_file(shared_context: Option<&SharedStorageContext>, team: &str) -> (r: Result<String, String>)
    ensures
        match shared_context {
            None => r matches Err(e) && e@ == shared_repository_required(),
            Some(c) => if !is_valid_name(team@) {
                r matches Err(e) && e@ == team_name_error()
            } else {
                match relative_dir_problem(c.teams_dir@) {
                    Some(msg) => r matches Err(e) && e@ == msg,
                    None => r matches Ok(p) && p@ == path_join(
                        path_join(path_join(c.repository_root@, c.teams_dir@), team@),
                        "commands.json"@,
                    ),
                }
            },
        },
{
    match shared_context {
        None => Err(String::from_str(shared_repository_required_message())),
        Some(c) => get_team_data_file_path(c.repository_root.as_str(), c.teams_dir.as_str(), team),
    }
}

/// The valid team names among a directory's entries, given as (name, is a
/// directory) pairs, in ascending order.
pub open spec fn listed_teams(entries: Seq<(Seq<char>, bool)>) -> Set<Seq<char>> {
    Set::new(
        |s: Seq<char>|
            exists|k: int| 0 <= k < entries.len() && entries[k].1 && entries[k].0 == s && is_valid_name(s),
    )
}

pub open spec fn dir_entry_pairs(v: Seq<(String, bool)>) -> Seq<(Seq<char>, bool)> {
    Seq::new(v.len(), |k: int| (v[k].0@, v[k].1))
}

/// The teams found in the teams directory's listing, ascending.
pub fn teams_in_listing(entries: &Vec<(String, bool)>) -> (r: Vec<String>)
    ensures
        strictly_sorted(r.deep_view()),
        r.deep_view().to_set() == listed_teams(dir_entry_pairs(entries@)),
{
    let ghost ev = dir_entry_pairs(entries@);
    let mut found: Vec<String> = Vec::new();
    let mut i: usize = 0;
    while i < entries.len()
        invariant
            i <= entries@.len(),
            ev == dir_entry_pairs(entries@),
            found.deep_view().to_set() == listed_teams(ev.subrange(0, i as int)),
        decreases entries.len() - i,
    {
        let ghost before = found.deep_view();
        assert(ev[i as int] == (entries@[i as int].0@, entries@[i as int].1));
        let keep = entries[i].1 && validate_team_name(entries[i].0.as_str()).is_ok();
        let ghost pre = ev.subrange(0, i as int);
        let ghost next = ev.subrange(0, i + 1);
        assert forall|k: int| 0 <= k < i implies #[trigger] next[k] == pre[k] by {}
        if keep {
            let name = entries[i].0.clone();
            found.push(name);
            assert(found.deep_view() =~= before.push(name@));
            assert(found.deep_view().to_set() =~= listed_teams(next)) by {
                before.lemma_push_to_set_commute(name@);
                assert forall|x: Seq<char>| listed_teams(next).contains(x) implies #[trigger] before.push(
                    name@,
                ).to_set().contains(x) by {
                    let k = choose|k: int|
                        0 <= k < next.len() && next[k].1 && next[k].0 == x && is_valid_name(x);
                    if k < i {
                        assert(listed_teams(pre).contains(x));
                    }
                }
                assert forall|x: Seq<char>| #[trigger] before.push(name@).to_set().contains(x)
                    implies listed_teams(next).contains(x) by {
                    if x == name@ {
                        assert(next[i as int].1 && next[i as int].0 == x && is_valid_name(x));
                    } else {
                        assert(before.to_set().contains(x));
                        assert(listed_teams(pre).contains(x));
                        let k = choose|k: int|
                            0 <= k < pre.len() && pre[k].1 && pre[k].0 == x && is_valid_name(x);
                        assert(next[k] == pre[k]);
                    }
                }
            }
        } else {
            assert(found.deep_view().to_set() =~= listed_teams(next)) by {
                assert forall|x: Seq<char>| listed_teams(next).contains(x) implies #[trigger] before.to_set().contains(
                    x,
                ) by {
                    let k = choose|k: int|
                        0 <= k < next.len() && next[k].1 && next[k].0 == x && is_valid_name(x);
                    if k < i {
                        assert(listed_teams(pre).contains(x));
                    }
                }
                assert forall|x: Seq<char>| #[trigger] before.to_set().contains(x) implies listed_teams(
                    next,
                ).contains(x) by {
                    assert(listed_teams(pre).contains(x));
                    let k = choose|k: int|
                        0 <= k < pre.len() && pre[k].1 && pre[k].0 == x && is_valid_name(x);
                    assert(next[k] == pre[k]);
                }
            }
        }
        i = i + 1;
    }
    assert(ev.subrange(0, entries@.len() as int) =~= ev);
    sorted_unique(&found)
}


/// The shelf used when none is named.
pub open spec fn builtin_default_shelf() -> Seq<char> {
    "default"@
}

/// A configured default shelf must follow the shelf naming rules.
pub fn validate_default_shelf(default_shelf: Option<&str>) -> (r: Result<(), String>)
    ensures
        match default_shelf {
            None => r is Ok,
            Some(s) => if is_valid_name(s@) {
                r is Ok
            } else {
                r matches Err(e) && e@ == shelf_name_error()
            },
        },
{
    match default_shelf {
        None => Ok(()),
        Some(s) => validate_shelf_name(s),
    }
}

/// The shelf a command works on: the one named with `--shelf`, else the
/// configured default shelf, else the built-in `default` shelf; it must
/// follow the shelf naming rules.
pub open spec fn active_shelf_of(shelf: Option<Seq<char>>, default_shelf: Option<Seq<char>>) -> Result<
    Seq<char>,
    Seq<char>,
> {
    let chosen = match shelf {
        Some(s) => s,
        None => match default_shelf {
            Some(d) => d,
            None => builtin_default_shelf(),
        },
    };
    if is_valid_name(chosen) {
        Ok(chosen)
    } else {
        Err(shelf_name_error())
    }
}

pub open spec fn opt_str_view(o: Option<&str>) -> Option<Seq<char>> {
    match o {
        Some(s) => Some(s@),
        None => None,
    }
}

pub open spec fn result_text(r: Result<String, String>) -> Result<Seq<char>, Seq<char>> {
    match r {
        Ok(s) => Ok(s@),
        Err(e) => Err(e@),
    }
}

/// Resolves the active shelf.
pub fn resolve_active_shelf(shelf: Option<&str>, default_shelf: Option<&str>) -> (r: Result<String, String>)
    ensures
        result_text(r) == active_shelf_of(opt_str_view(shelf), opt_str_view(default_shelf)),
{
    let chosen = match shelf {
        Some(s) => s,
        None => match default_shelf {
            Some(d) => d,
            None => "default",
        },
    };
    validate_shelf_name(chosen)?;
    Ok(String::from_str(chosen))
}

/// The shelf a write goes to: the one being created (which must follow the
/// shelf naming rules), else the active shelf.
pub fn resolve_target_shelf(create_shelf: Option<&str>, shelf: Option<&str>, default_shelf: Option<&str>) -> (r:
    Result<String, String>)
    ensures
        result_text(r) == match create_shelf {
            Some(c) => active_shelf_of(Some(c@), None),
            None => active_shelf_of(opt_str_view(shelf), opt_str_view(default_shelf)),
        },
{
    match create_shelf {
        Some(c) => {
            validate_shelf_name(c)?;
            Ok(String::from_str(c))
        },
        None => resolve_active_shelf(shelf, default_shelf),
    }
}

/// The GitHub shared repository setting that `--add-repo` writes: the new
/// repository, keeping the teams directory and default read selection of the
/// current setting, and its refresh settings when it already is a GitHub one
/// (refreshing every 15 minutes otherwise).
pub fn github_shared_config_for(existing: Option<&SharedRepoConfig>, github_repo: String) -> (r: GithubSharedRepoConfig)
    ensures
        r.github_repo@ == github_repo@,
        match existing {
            Some(SharedRepoConfig::Path(p)) => opt_view(r.teams_dir) == opt_view(p.teams_dir) && opt_view(
                r.default_team,
            ) == opt_view(p.default_team) && r.default_all_teams == p.default_all_teams && r.auto_update_repo
                && r.auto_update_interval_minutes == DEFAULT_GITHUB_REPO_AUTO_UPDATE_INTERVAL_MINUTES,
            Some(SharedRepoConfig::Github(g)) => opt_view(r.teams_dir) == opt_view(g.teams_dir) && opt_view(
                r.default_team,
            ) == opt_view(g.default_team) && r.default_all_teams == g.default_all_teams && r.auto_update_repo
                == g.auto_update_repo && r.auto_update_interval_minutes == g.auto_update_interval_minutes,
            None => r.teams_dir is None && r.default_team is None && !r.default_all_teams && r.auto_update_repo
                && r.auto_update_interval_minutes == DEFAULT_GITHUB_REPO_AUTO_UPDATE_INTERVAL_MINUTES,
        },
{
    match existing {
        Some(SharedRepoConfig::Path(p)) => GithubSharedRepoConfig {
            github_repo,
            teams_dir: clone_opt(&p.teams_dir),
            auto_update_repo: true,
            auto_update_interval_minutes: DEFAULT_GITHUB_REPO_AUTO_UPDATE_INTERVAL_MINUTES,
            default_team: clone_opt(&p.default_team),
            default_all_teams: p.default_all_teams,
        },
        Some(SharedRepoConfig::Github(g)) => GithubSharedRepoConfig {
            github_repo,
            teams_dir: clone_opt(&g.teams_dir),
            auto_update_repo: g.auto_update_repo,
            auto_update_interval_minutes: g.auto_update_interval_minutes,
            default_team: clone_opt(&g.default_team),
            default_all_teams: g.default_all_teams,
        },
        None => GithubSharedRepoConfig {
            github_repo,
            teams_dir: None,
            auto_update_repo: true,
            auto_update_interval_minutes: DEFAULT_GITHUB_REPO_AUTO_UPDATE_INTERVAL_MINUTES,
            default_team: None,
            default_all_teams: false,
        },
    }
}

} // verus!
