//! What the web interface shows and decides: command previews laid out one
//! option per line, the browse listing with each command's runnability, where
//! a shelf edited from the browser lives, and the messages it answers with.
use crate::browse::{opt_text, BrowseData, CommandEntry, ShelfData, TeamData};
use crate::config::{
    get_team_shelf_file_path, is_valid_name, relative_dir_problem, shelf_name_error, team_name_error,
    validate_shelf_name, SharedStorageContext,
};
use crate::curl_runner::{analysis_of, analyze_command, shell_split, split_shell_words};
use crate::database::SaveCommandOutcome;
use crate::path::{join_path, path_join};
use crate::template::{quote_word, shell_quoted};
use crate::text::{
    join_seqs, join_strings, occurs_at, replace_all, replace_str, starts_with_str, str_eq,
    strip_prefix, strip_prefix_str,
};
use vstd::prelude::*;

verus! {

/// The options whose value the preview keeps on the option's own line.
pub open spec fn value_options() -> Seq<Seq<char>> {
    seq![
        "-H"@,
        "--header"@,
        "-X"@,
        "--request"@,
        "-d"@,
        "--data"@,
        "--data-raw"@,
        "--data-binary"@,
        "--data-urlencode"@,
        "-F"@,
        "--form"@,
        "--json"@,
        "--url"@,
        "-u"@,
        "--user"@,
        "-A"@,
        "--user-agent"@,
    ]
}

fn value_option_list() -> (r: Vec<String>)
    ensures
        r.deep_view() == value_options(),
{
    let mut v: Vec<String> = Vec::new();
    v.push(String::from_str("-H"));
    v.push(String::from_str("--header"));
    v.push(String::from_str("-X"));
    v.push(String::from_str("--request"));
    v.push(String::from_str("-d"));
    v.push(String::from_str("--data"));
    v.push(String::from_str("--data-raw"));
    v.push(String::from_str("--data-binary"));
    v.push(String::from_str("--data-urlencode"));
    v.push(String::from_str("-F"));
    v.push(String::from_str("--form"));
    v.push(String::from_str("--json"));
    v.push(String::from_str("--url"));
    v.push(String::from_str("-u"));
    v.push(String::from_str("--user"));
    v.push(String::from_str("-A"));
    v.push(String::from_str("--user-agent"));
    assert(v.deep_view() =~= value_options());
    v
}

pub open spec fn is_long_name(o: Seq<char>) -> bool {
    occurs_at(o, "--"@, 0)
}

/// The option that the token at `index` gives with its value, trying the value
/// options from the `k`-th on: the option alone takes the next token (none when
/// there is no next token), `--name=value` and `-Xvalue` carry it inline.
pub open spec fn preview_option_from(
    token: Seq<char>,
    tokens: Seq<Seq<char>>,
    index: int,
    k: int,
) -> Option<(Seq<char>, Seq<char>, bool)>
    decreases value_options().len() - k,
{
    if k < 0 || k >= value_options().len() {
        None
    } else {
        let o = value_options()[k];
        if token == o {
            if index + 1 < tokens.len() {
                Some((o, tokens[index + 1], true))
            } else {
                None
            }
        } else if is_long_name(o) {
            match strip_prefix(token, o + "="@) {
                Some(v) => Some((o, v, false)),
                None => preview_option_from(token, tokens, index, k + 1),
            }
        } else {
            match strip_prefix(token, o) {
                Some(v) => if v.len() > 0 {
                    Some((o, v, false))
                } else {
                    preview_option_from(token, tokens, index, k + 1)
                },
                None => preview_option_from(token, tokens, index, k + 1),
            }
        }
    }
}

proof fn lemma_consumed_has_next(token: Seq<char>, tokens: Seq<Seq<char>>, index: int, k: int)
    ensures
        preview_option_from(token, tokens, index, k) matches Some((o, v, true)) ==> index + 1
            < tokens.len(),
    decreases value_options().len() - k,
{
    if 0 <= k < value_options().len() {
        lemma_consumed_has_next(token, tokens, index, k + 1);
    }
}

pub open spec fn option_view(r: Option<(String, String, bool)>) -> Option<(Seq<char>, Seq<char>, bool)> {
    match r {
        Some((o, v, c)) => Some((o@, v@, c)),
        None => None,
    }
}

/// The option, value and whether the value was the next token, for the token
/// at `index`; `None` where the token is not a value option with its value.
pub fn preview_option(token: &str, tokens: &Vec<String>, index: usize) -> (r: Option<(String, String, bool)>)
    requires
        index < tokens@.len(),
    ensures
        option_view(r) == preview_option_from(token@, tokens.deep_view(), index as int, 0),
{
    let options = value_option_list();
    let n = tokens.len();
    let mut k: usize = 0;
    while k < options.len()
        invariant
            n == tokens@.len(),
            k <= options@.len(),
            options.deep_view() == value_options(),
            index < tokens@.len(),
            preview_option_from(token@, tokens.deep_view(), index as int, 0) == preview_option_from(
                token@,
                tokens.deep_view(),
                index as int,
                k as int,
            ),
        decreases options.len() - k,
    {
        let o = &options[k];
        assert(options.deep_view()[k as int] == o@);
        if str_eq(token, o.as_str()) {
            if index + 1 < n {
                assert(tokens.deep_view()[index + 1] == tokens@[index + 1]@);
                return Some((o.clone(), tokens[index + 1].clone(), true));
            }
            return None;
        }
        if starts_with_str(o.as_str(), "--") {
            let mut with_eq = o.clone();
            with_eq.append("=");
            if let Some(v) = strip_prefix_str(token, with_eq.as_str()) {
                return Some((o.clone(), v, false));
            }
        } else {
            if let Some(v) = strip_prefix_str(token, o.as_str()) {
                if v.unicode_len() > 0 {
                    return Some((o.clone(), v, false));
                }
            }
        }
        k = k + 1;
    }
    None
}

/// The preview line of a token that is not a value option.
pub open spec fn plain_line(token: Seq<char>) -> Seq<char> {
    if token.len() > 0 && token[0] == '-' {
        "  "@ + token
    } else {
        "  "@ + shell_quoted(token)
    }
}

/// The preview lines of the tokens from `index` on: a value option and its
/// (quoted) value share a line, other options stand as they are, other words
/// are quoted, each line indented by two spaces.
pub open spec fn preview_rest(tokens: Seq<Seq<char>>, index: int) -> Seq<Seq<char>>
    decreases tokens.len() + 1 - index,
{
    if index < 0 || index >= tokens.len() {
        Seq::empty()
    } else {
        match preview_option_from(tokens[index], tokens, index, 0) {
            Some((o, v, consumed)) => seq!["  "@ + o + " "@ + shell_quoted(v)] + preview_rest(
                tokens,
                index + if consumed {
                    2int
                } else {
                    1int
                },
            ),
            None => seq![plain_line(tokens[index])] + preview_rest(tokens, index + 1),
        }
    }
}

/// The preview of a command's words: the first word, then one line per option.
pub open spec fn preview_of_words(tokens: Seq<Seq<char>>) -> Seq<char> {
    if tokens.len() == 0 {
        Seq::empty()
    } else {
        join_seqs(seq![tokens[0]] + preview_rest(tokens, 1), "\n"@)
    }
}

/// The preview of a command that does not split into words: a line break
/// before each ` --` and then before each ` -`.
pub open spec fn fallback_preview(command: Seq<char>) -> Seq<char> {
    replace_all(replace_all(command, " --"@, "\n  --"@), " -"@, "\n  -"@)
}

/// The preview of a command given how it splits into words.
pub open spec fn preview_text(split: Option<Seq<Seq<char>>>, command: Seq<char>) -> Seq<char> {
    match split {
        Some(tokens) => preview_of_words(tokens),
        None => fallback_preview(command),
    }
}

/// Breaks a command that does not split into words before its options.
pub fn fallback_command_preview(command: &str) -> (r: String)
    ensures
        r@ == fallback_preview(command@),
{
    proof {
        reveal_strlit(" --");
        reveal_strlit(" -");
    }
    let first = replace_str(command, " --", "\n  --");
    replace_str(first.as_str(), " -", "\n  -")
}

fn indented(parts: &Vec<&str>) -> (r: String)
    ensures
        parts@.len() == 1 ==> r@ == "  "@ + parts@[0]@,
        parts@.len() == 3 ==> r@ == "  "@ + parts@[0]@ + parts@[1]@ + parts@[2]@,
{
    let mut line = String::from_str("  ");
    let mut i: usize = 0;
    let ghost start = line@;
    while i < parts.len()
        invariant
            i <= parts@.len(),
            start == "  "@,
            parts@.len() == 1 ==> line@ == start + (if i == 0 { Seq::empty() } else { parts@[0]@ }),
            parts@.len() == 3 ==> line@ == start + (if i == 0 {
                Seq::empty()
            } else if i == 1 {
                parts@[0]@
            } else if i == 2 {
                parts@[0]@ + parts@[1]@
            } else {
                parts@[0]@ + parts@[1]@ + parts@[2]@
            }),
        decreases parts.len() - i,
    {
        line.append(parts[i]);
        proof {
            if parts@.len() == 3 {
                if i == 1 {
                    assert(line@ =~= start + (parts@[0]@ + parts@[1]@));
                } else if i == 2 {
                    assert(line@ =~= start + (parts@[0]@ + parts@[1]@ + parts@[2]@));
                }
            }
        }
        i = i + 1;
    }
    proof {
        if parts@.len() == 3 {
            assert(start + (parts@[0]@ + parts@[1]@ + parts@[2]@) =~= "  "@ + parts@[0]@
                + parts@[1]@ + parts@[2]@);
        }
    }
    line
}

/// The preview of a command from the result of splitting it into words, or
/// the fallback layout where splitting failed.
pub fn preview_from_words(split: &Result<Vec<String>, String>, command: &str) -> (r: String)
    ensures
        r@ == match split {
            Ok(words) => preview_of_words(words.deep_view()),
            Err(_) => fallback_preview(command@),
        },
{
    let tokens = match split {
        Ok(words) => words,
        Err(_) => {
            return fallback_command_preview(command);
        },
    };
    if tokens.len() == 0 {
        return String::new();
    }
    let ghost tv = tokens.deep_view();
    let mut lines: Vec<String> = Vec::new();
    lines.push(tokens[0].clone());
    assert(tv[0] == tokens@[0]@);
    assert(lines.deep_view() =~= seq![tv[0]]);
    let n = tokens.len();
    let mut index: usize = 1;
    while index < n
        invariant
            n == tokens@.len(),
            tv == tokens.deep_view(),
            1 <= index <= n,
            seq![tv[0]] + preview_rest(tv, 1) == lines.deep_view() + preview_rest(tv, index as int),
        decreases n - index,
    {
        let token = &tokens[index];
        assert(tv[index as int] == token@);
        let ghost before = lines.deep_view();
        let ghost old_index: int = index as int;
        let ghost line: Seq<char>;
        let ghost next: int;
        let found = preview_option(token.as_str(), tokens, index);
        proof {
            lemma_consumed_has_next(token@, tv, index as int, 0);
        }
        match found {
            Some((option, value, consumed_next)) => {
                let quoted = quote_word(value.as_str());
                let mut parts: Vec<&str> = Vec::new();
                parts.push(option.as_str());
                parts.push(" ");
                parts.push(quoted.as_str());
                let l = indented(&parts);
                proof {
                    line = l@;
                    assert(line =~= "  "@ + option@ + " "@ + shell_quoted(value@));
                    next = if consumed_next { index + 2 } else { index + 1 };
                }
                lines.push(l);
                index = if consumed_next { index + 2 } else { index + 1 };
            },
            None => {
                let mut parts: Vec<&str> = Vec::new();
                let l = if starts_with_str(token.as_str(), "-") {
                    parts.push(token.as_str());
                    indented(&parts)
                } else {
                    let quoted = quote_word(token.as_str());
                    parts.push(quoted.as_str());
                    indented(&parts)
                };
                proof {
                    line = l@;
                    reveal_strlit("-");
                    assert("-"@.len() == 1 && "-"@[0] == '-');
                    if token@.len() > 0 && token@[0] == '-' {
                        assert(token@.subrange(0, 1) =~= "-"@);
                    }
                    if occurs_at(token@, "-"@, 0) {
                        assert(token@.subrange(0, 1)[0] == token@[0]);
                    }
                    assert(occurs_at(token@, "-"@, 0) == (token@.len() > 0 && token@[0] == '-'));
                    assert(line == plain_line(token@));
                    next = index + 1;
                }
                lines.push(l);
                index = index + 1;
            },
        }
        proof {
            assert(next == index as int);
            assert(preview_rest(tv, old_index) == seq![line] + preview_rest(tv, next));
            assert(lines.deep_view() =~= before.push(line));
            assert(before.push(line) + preview_rest(tv, next) =~= before + (seq![line]
                + preview_rest(tv, next)));
        }
    }
    join_strings(&lines, "\n")
}

/// The preview of a command: one line for the program and one per option.
pub fn format_command_preview(command: &str) -> (r: String)
    ensures
        r@ == preview_text(shell_split(command@), command@),
{
    let split = split_shell_words(command);
    preview_from_words(&split, command)
}

/// A command in the browse listing, with its preview and runnability.
#[derive(Debug, Clone, PartialEq, Eq)]
pub struct WebCommandEntry {
    pub command: String,
    pub preview_command: String,
    pub description: Option<String>,
    pub runnable: bool,
    pub unsupported_reason: Option<String>,
}

/// A shelf in the browse listing, with how many of its commands can run.
#[derive(Debug, Clone, PartialEq, Eq)]
pub struct WebShelfData {
    pub shelf: String,
    pub runnable_command_count: usize,
    pub commands: Vec<WebCommandEntry>,
}

/// A team's shelves in the browse listing.
#[derive(Debug, Clone, PartialEq, Eq)]
pub struct WebTeamData {
    pub team: String,
    pub shelves: Vec<WebShelfData>,
}

/// The whole browse listing.
#[derive(Debug, Clone, PartialEq, Eq)]
pub struct BrowseResponse {
    pub local: Vec<WebShelfData>,
    pub shared: Vec<WebTeamData>,
}

/// What the listing shows of a command: its text, preview, description and
/// whether (and why not) it can run.
pub open spec fn web_entry_of(command: Seq<char>, description: Option<Seq<char>>) -> (
    Seq<char>,
    Seq<char>,
    Option<Seq<char>>,
    (bool, Option<Seq<char>>),
) {
    (
        command,
        preview_text(shell_split(command), command),
        description,
        analysis_of(
            match shell_split(command) {
                Some(words) => Ok(words),
                None => Err("missing closing quote"@),
            },
        ),
    )
}

pub open spec fn web_entry_view(e: WebCommandEntry) -> (
    Seq<char>,
    Seq<char>,
    Option<Seq<char>>,
    (bool, Option<Seq<char>>),
) {
    (e.command@, e.preview_command@, opt_text(e.description), (e.runnable, opt_text(e.unsupported_reason)))
}

/// The listing entry of a command.
pub fn map_command(command: CommandEntry) -> (r: WebCommandEntry)
    ensures
        web_entry_view(r) == web_entry_of(command.command@, opt_text(command.description)),
{
    let analysis = analyze_command(command.command.as_str());
    let preview = format_command_preview(command.command.as_str());
    WebCommandEntry {
        command: command.command,
        preview_command: preview,
        description: command.description,
        runnable: analysis.runnable,
        unsupported_reason: analysis.unsupported_reason,
    }
}

/// How many entries can run.
pub open spec fn runnable_count(v: Seq<WebCommandEntry>) -> nat
    decreases v.len(),
{
    if v.len() == 0 {
        0
    } else {
        runnable_count(v.drop_last()) + if v.last().runnable {
            1nat
        } else {
            0nat
        }
    }
}

proof fn lemma_runnable_count_bound(v: Seq<WebCommandEntry>)
    ensures
        runnable_count(v) <= v.len(),
    decreases v.len(),
{
    if v.len() > 0 {
        lemma_runnable_count_bound(v.drop_last());
    }
}

pub open spec fn entry_views_of(v: Seq<CommandEntry>) -> Seq<(Seq<char>, Option<Seq<char>>)> {
    Seq::new(v.len(), |k: int| (v[k].command@, opt_text(v[k].description)))
}

pub open spec fn web_entries_view(v: Seq<WebCommandEntry>) -> Seq<
    (Seq<char>, Seq<char>, Option<Seq<char>>, (bool, Option<Seq<char>>)),
> {
    Seq::new(v.len(), |k: int| web_entry_view(v[k]))
}

pub open spec fn web_entries_of(v: Seq<(Seq<char>, Option<Seq<char>>)>) -> Seq<
    (Seq<char>, Seq<char>, Option<Seq<char>>, (bool, Option<Seq<char>>)),
> {
    Seq::new(v.len(), |k: int| web_entry_of(v[k].0, v[k].1))
}

/// The listing of a shelf: each command mapped in order, and the number of
/// them that can run.
pub fn map_shelf(shelf: ShelfData) -> (r: WebShelfData)
    ensures
        r.shelf@ == shelf.shelf@,
        web_entries_view(r.commands@) == web_entries_of(entry_views_of(shelf.commands@)),
        r.runnable_command_count == runnable_count(r.commands@),
{
    let ghost src = entry_views_of(shelf.commands@);
    let n = shelf.commands.len();
    let mut rest = shelf.commands;
    let mut out: Vec<WebCommandEntry> = Vec::new();
    let mut count: usize = 0;
    assert(entry_views_of(rest@) =~= src);
    while rest.len() > 0
        invariant
            n == src.len(),
            out@.len() + rest@.len() == n,
            entry_views_of(rest@) == src.subrange(out@.len() as int, n as int),
            web_entries_view(out@) == web_entries_of(src.subrange(0, out@.len() as int)),
            count == runnable_count(out@),
            count <= out@.len(),
        decreases rest.len(),
    {
        let ghost ro = rest@;
        let ghost k: int = out@.len() as int;
        let c = rest.remove(0);
        assert(rest@ =~= ro.drop_first());
        assert(entry_views_of(ro)[0] == (c.command@, opt_text(c.description)));
        assert(entry_views_of(rest@) =~= src.subrange(k + 1, n as int)) by {
            assert forall|i: int| 0 <= i < rest@.len() implies #[trigger] entry_views_of(rest@)[i]
                == src.subrange(k + 1, n as int)[i] by {
                assert(entry_views_of(ro)[i + 1] == (ro[i + 1].command@, opt_text(ro[i + 1].description)));
            }
        }
        let e = map_command(c);
        let ghost bo = out@;
        if e.runnable {
            count = count + 1;
        }
        out.push(e);
        assert(out@.drop_last() =~= bo);
        assert(web_entries_view(out@) =~= web_entries_of(src.subrange(0, k + 1))) by {
            assert forall|i: int| 0 <= i < k + 1 implies #[trigger] web_entries_view(out@)[i]
                == web_entries_of(src.subrange(0, k + 1))[i] by {
                if i < k {
                    assert(web_entries_view(bo)[i] == web_entries_of(src.subrange(0, k))[i]);
                }
            }
        }
    }
    assert(src.subrange(0, n as int) =~= src);
    WebShelfData { shelf: shelf.shelf, runnable_command_count: count, commands: out }
}

/// What the listing shows of a shelf: its name and the entries of its commands.
pub open spec fn web_shelf_of(s: ShelfData) -> (
    Seq<char>,
    Seq<(Seq<char>, Seq<char>, Option<Seq<char>>, (bool, Option<Seq<char>>))>,
) {
    (s.shelf@, web_entries_of(entry_views_of(s.commands@)))
}

pub open spec fn web_shelf_view(s: WebShelfData) -> (
    Seq<char>,
    Seq<(Seq<char>, Seq<char>, Option<Seq<char>>, (bool, Option<Seq<char>>))>,
) {
    (s.shelf@, web_entries_view(s.commands@))
}

/// Every shelf's count is the number of its commands that can run.
pub open spec fn counts_agree(v: Seq<WebShelfData>) -> bool {
    forall|k: int| 0 <= k < v.len() ==> #[trigger] v[k].runnable_command_count == runnable_count(v[k].commands@)
}

/// Maps a list of shelves in order.
pub fn map_shelves(shelves: Vec<ShelfData>) -> (r: Vec<WebShelfData>)
    ensures
        r@.len() == shelves@.len(),
        forall|k: int| 0 <= k < r@.len() ==> #[trigger] web_shelf_view(r@[k]) == web_shelf_of(shelves@[k]),
        counts_agree(r@),
{
    let ghost src = shelves@;
    let n = shelves.len();
    let mut rest = shelves;
    let mut out: Vec<WebShelfData> = Vec::new();
    while rest.len() > 0
        invariant
            n == src.len(),
            out@.len() + rest@.len() == n,
            rest@ == src.subrange(out@.len() as int, n as int),
            forall|k: int| 0 <= k < out@.len() ==> #[trigger] web_shelf_view(out@[k]) == web_shelf_of(src[k]),
            counts_agree(out@),
        decreases rest.len(),
    {
        let ghost k: int = out@.len() as int;
        let s = rest.remove(0);
        assert(s == src[k]);
        assert(rest@ =~= src.subrange(k + 1, n as int));
        let w = map_shelf(s);
        out.push(w);
    }
    out
}

/// Maps a team's shelves.
pub fn map_team(team: TeamData) -> (r: WebTeamData)
    ensures
        r.team@ == team.team@,
        r.shelves@.len() == team.shelves@.len(),
        forall|k: int| 0 <= k < r.shelves@.len() ==> #[trigger] web_shelf_view(r.shelves@[k]) == web_shelf_of(
            team.shelves@[k],
        ),
        counts_agree(r.shelves@),
{
    WebTeamData { team: team.team, shelves: map_shelves(team.shelves) }
}

/// A team's listing maps its shelves in order, each with its runnable count.
pub open spec fn team_mapped(w: WebTeamData, t: TeamData) -> bool {
    &&& w.team@ == t.team@
    &&& w.shelves@.len() == t.shelves@.len()
    &&& counts_agree(w.shelves@)
    &&& forall|j: int| 0 <= j < w.shelves@.len() ==> #[trigger] web_shelf_view(w.shelves@[j]) == web_shelf_of(t.shelves@[j])
}

/// The browse listing of the browse data: local shelves and each team mapped
/// in order.
pub fn map_browse_response(data: BrowseData) -> (r: BrowseResponse)
    ensures
        r.local@.len() == data.local@.len(),
        forall|k: int| 0 <= k < r.local@.len() ==> #[trigger] web_shelf_view(r.local@[k]) == web_shelf_of(
            data.local@[k],
        ),
        counts_agree(r.local@),
        r.shared@.len() == data.shared@.len(),
        forall|k: int| 0 <= k < r.shared@.len() ==> #[trigger] team_mapped(r.shared@[k], data.shared@[k]),
{
    let local = map_shelves(data.local);
    let ghost src = data.shared@;
    let n = data.shared.len();
    let mut rest = data.shared;
    let mut shared: Vec<WebTeamData> = Vec::new();
    while rest.len() > 0
        invariant
            n == src.len(),
            shared@.len() + rest@.len() == n,
            rest@ == src.subrange(shared@.len() as int, n as int),
            forall|k: int| 0 <= k < shared@.len() ==> #[trigger] team_mapped(shared@[k], src[k]),
        decreases rest.len(),
    {
        let ghost k: int = shared@.len() as int;
        let t = rest.remove(0);
        assert(t == src[k]);
        assert(rest@ =~= src.subrange(k + 1, n as int));
        let w = map_team(t);
        let ghost bo = shared@;
        shared.push(w);
        assert(team_mapped(w, src[k]));
        assert forall|i: int| 0 <= i < shared@.len() implies #[trigger] team_mapped(shared@[i], src[i]) by {
            if i < k {
                assert(shared@[i] == bo[i]);
            }
        }
    }
    BrowseResponse { local, shared }
}

/// Where a shelf edited from the browser lives.
#[derive(Debug, Clone, Copy, PartialEq, Eq, Structural)]
pub enum ShelfScope {
    Local,
    Shared,
}

/// `<root>/<shelf>.json`, the file of a local shelf.
pub fn local_data_file_path(local_shelves_root: &str, shelf: &str) -> (r: String)
    ensures
        r@ == path_join(local_shelves_root@, shelf@ + ".json"@),
{
    let mut file = String::from_str(shelf);
    file.append(".json");
    join_path(local_shelves_root, file.as_str())
}

pub open spec fn no_shared_repository() -> Seq<char> {
    "Shared repository is not configured for the web interface."@
}

pub open spec fn team_required() -> Seq<char> {
    "Shared shelf operations require a team name."@
}

/// The file a browser request on a shelf reads or writes, or why it cannot.
pub open spec fn data_file_for(
    local_root: Seq<char>,
    shared: Option<(Seq<char>, Seq<char>)>,
    scope: ShelfScope,
    team: Option<Seq<char>>,
    shelf: Seq<char>,
) -> Result<Seq<char>, Seq<char>> {
    if !is_valid_name(shelf) {
        Err(shelf_name_error())
    } else {
        match scope {
            ShelfScope::Local => Ok(path_join(local_root, shelf + ".json"@)),
            ShelfScope::Shared => match shared {
                None => Err(no_shared_repository()),
                Some((root, teams_dir)) => match team {
                    None => Err(team_required()),
                    Some(t) => if !is_valid_name(t) {
                        Err(team_name_error())
                    } else {
                        match relative_dir_problem(teams_dir) {
                            Some(msg) => Err(msg),
                            None => Ok(
                                path_join(
                                    path_join(path_join(path_join(root, teams_dir), t), "shelves"@),
                                    shelf + ".json"@,
                                ),
                            ),
                        }
                    },
                },
            },
        }
    }
}

pub open spec fn context_view(c: Option<&SharedStorageContext>) -> Option<(Seq<char>, Seq<char>)> {
    match c {
        Some(c) => Some((c.repository_root@, c.teams_dir@)),
        None => None,
    }
}

pub open spec fn opt_str_view(o: Option<&str>) -> Option<Seq<char>> {
    match o {
        Some(s) => Some(s@),
        None => None,
    }
}

pub open spec fn result_view(r: Result<String, String>) -> Result<Seq<char>, Seq<char>> {
    match r {
        Ok(p) => Ok(p@),
        Err(e) => Err(e@),
    }
}

/// Resolves the file of a shelf named in a browser request.
pub fn resolve_data_file_path(
    local_shelves_root: &str,
    shared_context: Option<&SharedStorageContext>,
    scope: ShelfScope,
    team: Option<&str>,
    shelf: &str,
) -> (r: Result<String, String>)
    ensures
        result_view(r) == data_file_for(
            local_shelves_root@,
            context_view(shared_context),
            scope,
            opt_str_view(team),
            shelf@,
        ),
{
    validate_shelf_name(shelf)?;
    match scope {
        ShelfScope::Local => Ok(local_data_file_path(local_shelves_root, shelf)),
        ShelfScope::Shared => {
            let context = match shared_context {
                Some(c) => c,
                None => {
                    return Err(String::from_str("Shared repository is not configured for the web interface."));
                },
            };
            let team = match team {
                Some(t) => t,
                None => {
                    return Err(String::from_str("Shared shelf operations require a team name."));
                },
            };
            get_team_shelf_file_path(
                context.repository_root.as_str(),
                context.teams_dir.as_str(),
                team,
                shelf,
            )
        },
    }
}

/// The refusal to create a shelf whose file exists.
pub fn shelf_exists_message(shelf: &str) -> (r: String)
    ensures
        r@ == "Shelf '"@ + shelf@ + "' already exists."@,
{
    let mut m = String::from_str("Shelf '");
    m.append(shelf);
    m.append("' already exists.");
    m
}

/// The answer to a created shelf.
pub fn created_shelf_message(scope: ShelfScope, shelf: &str, team: Option<&str>) -> (r: String)
    ensures
        r@ == match scope {
            ShelfScope::Local => "Created shelf '"@ + shelf@ + "'."@,
            ShelfScope::Shared => "Created shelf '"@ + shelf@ + "' for team '"@ + match team {
                Some(t) => t@,
                None => Seq::empty(),
            } + "'."@,
        },
{
    let mut m = String::from_str("Created shelf '");
    m.append(shelf);
    match scope {
        ShelfScope::Local => {
            m.append("'.");
        },
        ShelfScope::Shared => {
            m.append("' for team '");
            if let Some(t) = team {
                m.append(t);
            }
            m.append("'.");
        },
    }
    m
}

/// The answer to saving a command into a shelf: an error for a duplicate,
/// otherwise what was done.
pub fn saved_command_message(outcome: SaveCommandOutcome, shelf: &str) -> (r: Result<String, String>)
    ensures
        outcome == SaveCommandOutcome::Duplicate ==> (r matches Err(e) && e@ == "Command already exists in shelf '"@
            + shelf@ + "'."@),
        outcome == SaveCommandOutcome::Added ==> (r matches Ok(m) && m@ == "Saved command to shelf '"@ + shelf@
            + "'."@),
        outcome == SaveCommandOutcome::Updated ==> (r matches Ok(m) && m@ == "Updated command in shelf '"@
            + shelf@ + "'."@),
{
    match outcome {
        SaveCommandOutcome::Duplicate => {
            let mut m = String::from_str("Command already exists in shelf '");
            m.append(shelf);
            m.append("'.");
            Err(m)
        },
        SaveCommandOutcome::Added => {
            let mut m = String::from_str("Saved command to shelf '");
            m.append(shelf);
            m.append("'.");
            Ok(m)
        },
        SaveCommandOutcome::Updated => {
            let mut m = String::from_str("Updated command in shelf '");
            m.append(shelf);
            m.append("'.");
            Ok(m)
        },
    }
}

/// Why a command cannot run from the browser, or `None` when it can.
pub fn run_refusal(runnable: bool, unsupported_reason: Option<String>) -> (r: Option<String>)
    ensures
        runnable ==> r is None,
        !runnable ==> (r matches Some(m) && m@ == match unsupported_reason {
            Some(reason) => reason@,
            None => "Only curl commands can run in the web interface."@,
        }),
{
    if runnable {
        None
    } else {
        match unsupported_reason {
            Some(reason) => Some(reason),
            None => Some(String::from_str("Only curl commands can run in the web interface.")),
        }
    }
}

/// The page with the interface's theme filled in for its placeholder.
pub fn themed_index(page: &str, theme: &str) -> (r: String)
    ensures
        r@ == replace_all(page@, "__WEB_THEME__"@, theme@),
{
    proof {
        reveal_strlit("__WEB_THEME__");
    }
    replace_str(page, "__WEB_THEME__", theme)
}


/// The themes of the web interface.
#[derive(Debug, Clone, Copy, PartialEq, Eq, Structural)]
pub enum WebTheme {
    Dracula,
    SolarizedDark,
    SolarizedLight,
    Giphy,
}

pub open spec fn theme_text(theme: WebTheme) -> Seq<char> {
    match theme {
        WebTheme::Dracula => "dracula"@,
        WebTheme::SolarizedDark => "solarized-dark"@,
        WebTheme::SolarizedLight => "solarized-light"@,
        WebTheme::Giphy => "giphy"@,
    }
}

impl WebTheme {
    /// The theme's name as the page and the configuration write it.
    pub fn as_str(&self) -> (r: &'static str)
        ensures
            r@ == theme_text(*self),
    {
        match self {
            WebTheme::Dracula => "dracula",
            WebTheme::SolarizedDark => "solarized-dark",
            WebTheme::SolarizedLight => "solarized-light",
            WebTheme::Giphy => "giphy",
        }
    }

    /// The theme used when none is configured.
    pub fn default() -> (r: Self)
        ensures
            r == WebTheme::Dracula,
    {
        WebTheme::Dracula
    }
}

/// The port the web interface listens on when none is given or configured.
pub const DEFAULT_WEB_PORT: u16 = 4812;

/// The port of the web interface: `--web-port`, else the configured port,
/// else 4812.
pub fn resolve_web_port(requested: Option<u16>, configured: Option<u16>) -> (r: u16)
    ensures
        r == match requested {
            Some(p) => p,
            None => match configured {
                Some(p) => p,
                None => DEFAULT_WEB_PORT,
            },
        },
{
    match requested {
        Some(p) => p,
        None => match configured {
            Some(p) => p,
            None => DEFAULT_WEB_PORT,
        },
    }
}

} // verus!
