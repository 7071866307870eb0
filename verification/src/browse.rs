//! The data the web interface browses: shelves with their commands, local
//! ones listed from the shelves directory and shared ones grouped by team.
use crate::database::StoredCommand;
use crate::listing::runs_by_key;
use crate::repo_sync::{json_shelf_name, json_shelf_of};
use crate::sorted::{sorted_unique, strictly_sorted};
use crate::text::str_eq;
use vstd::prelude::*;

verus! {

/// A command as the browser shows it.
#[derive(Debug, Clone, PartialEq, Eq)]
pub struct CommandEntry {
    pub command: String,
    pub description: Option<String>,
}

/// A shelf with its commands.
#[derive(Debug, Clone, PartialEq, Eq)]
pub struct ShelfData {
    pub shelf: String,
    pub commands: Vec<CommandEntry>,
}

/// The shelves of one team.
#[derive(Debug, Clone, PartialEq, Eq)]
pub struct TeamData {
    pub team: String,
    pub shelves: Vec<ShelfData>,
}

/// Everything the browser lists: local shelves, then shared ones by team.
#[derive(Debug, Clone, PartialEq, Eq)]
pub struct BrowseData {
    pub local: Vec<ShelfData>,
    pub shared: Vec<TeamData>,
}

pub open spec fn opt_text(o: Option<String>) -> Option<Seq<char>> {
    match o {
        Some(s) => Some(s@),
        None => None,
    }
}

pub open spec fn entry_view(e: CommandEntry) -> (Seq<char>, Option<Seq<char>>) {
    (e.command@, opt_text(e.description))
}

pub open spec fn entries_view(v: Seq<CommandEntry>) -> Seq<(Seq<char>, Option<Seq<char>>)> {
    Seq::new(v.len(), |k: int| entry_view(v[k]))
}

pub open spec fn stored_view(c: StoredCommand) -> (Seq<char>, Option<Seq<char>>) {
    (c.command@, opt_text(c.description))
}

pub open spec fn stored_views(v: Seq<StoredCommand>) -> Seq<(Seq<char>, Option<Seq<char>>)> {
    Seq::new(v.len(), |k: int| stored_view(v[k]))
}

/// A shelf as a name and the (command, description) pairs it holds.
pub open spec fn shelf_view(s: ShelfData) -> (Seq<char>, Seq<(Seq<char>, Option<Seq<char>>)>) {
    (s.shelf@, entries_view(s.commands@))
}

pub open spec fn shelves_view(v: Seq<ShelfData>) -> Seq<(Seq<char>, Seq<(Seq<char>, Option<Seq<char>>)>)> {
    Seq::new(v.len(), |k: int| shelf_view(v[k]))
}

pub open spec fn team_view(t: TeamData) -> (Seq<char>, Seq<(Seq<char>, Seq<(Seq<char>, Option<Seq<char>>)>)>) {
    (t.team@, shelves_view(t.shelves@))
}

pub open spec fn teams_view(v: Seq<TeamData>) -> Seq<
    (Seq<char>, Seq<(Seq<char>, Seq<(Seq<char>, Option<Seq<char>>)>)>),
> {
    Seq::new(v.len(), |k: int| team_view(v[k]))
}

impl CommandEntry {
    /// The command and description of a stored command.
    pub fn from_stored(command: StoredCommand) -> (r: Self)
        ensures
            entry_view(r) == stored_view(command),
    {
        CommandEntry { command: command.command, description: command.description }
    }
}

/// A shelf named `shelf` holding the given stored commands, in order.
pub fn shelf_data(shelf: String, commands: Vec<StoredCommand>) -> (r: ShelfData)
    ensures
        shelf_view(r) == (shelf@, stored_views(commands@)),
{
    let ghost src = commands@;
    let n = commands.len();
    let mut rest = commands;
    let mut out: Vec<CommandEntry> = Vec::new();
    while rest.len() > 0
        invariant
            n == src.len(),
            out@.len() + rest@.len() == n,
            rest@ == src.subrange(out@.len() as int, n as int),
            entries_view(out@) == stored_views(src.subrange(0, out@.len() as int)),
        decreases rest.len(),
    {
        let ghost ro = rest@;
        let ghost k: int = out@.len() as int;
        let c = rest.remove(0);
        assert(rest@ =~= src.subrange(k + 1, n as int));
        assert(c == src[k]);
        let e = CommandEntry::from_stored(c);
        let ghost bo = out@;
        out.push(e);
        assert(entries_view(out@) =~= stored_views(src.subrange(0, k + 1))) by {
            assert forall|i: int| 0 <= i < k + 1 implies #[trigger] entries_view(out@)[i]
                == stored_views(src.subrange(0, k + 1))[i] by {
                if i < k {
                    assert(entries_view(bo)[i] == stored_views(src.subrange(0, k))[i]);
                }
            }
        }
    }
    assert(src.subrange(0, n as int) =~= src);
    ShelfData { shelf, commands: out }
}

/// The shelves that the entries of a directory hold: each regular file named
/// `<shelf>.json` whose stem is a valid shelf name.
pub open spec fn listed_shelves(entries: Seq<(Seq<char>, bool)>) -> Set<Seq<char>> {
    Set::new(
        |s: Seq<char>|
            exists|k: int|
                0 <= k < entries.len() && entries[k].1 && json_shelf_of(entries[k].0) == Some(s),
    )
}

pub open spec fn entry_pairs(v: Seq<(String, bool)>) -> Seq<(Seq<char>, bool)> {
    Seq::new(v.len(), |k: int| (v[k].0@, v[k].1))
}

/// The shelf names in a directory listing, given as (file name, is a regular
/// file) pairs, in ascending order. A directory never lists a name twice, so
/// the shelves found are distinct.
pub fn shelves_in_listing(entries: &Vec<(String, bool)>) -> (r: Vec<String>)
    ensures
        strictly_sorted(r.deep_view()),
        r.deep_view().to_set() == listed_shelves(entry_pairs(entries@)),
{
    let ghost ev = entry_pairs(entries@);
    let mut found: Vec<String> = Vec::new();
    let mut i: usize = 0;
    while i < entries.len()
        invariant
            i <= entries@.len(),
            ev == entry_pairs(entries@),
            found.deep_view().to_set() == listed_shelves(ev.subrange(0, i as int)),
        decreases entries.len() - i,
    {
        let ghost before = found.deep_view();
        assert(ev[i as int] == (entries@[i as int].0@, entries@[i as int].1));
        let is_file = entries[i].1;
        let shelf = if is_file {
            json_shelf_name(entries[i].0.as_str())
        } else {
            None
        };
        let ghost pre = ev.subrange(0, i as int);
        let ghost next = ev.subrange(0, i + 1);
        assert forall|k: int| 0 <= k < i implies #[trigger] next[k] == pre[k] by {}
        match shelf {
            Some(s) => {
                found.push(s);
                assert(found.deep_view() =~= before.push(s@));
                assert(found.deep_view().to_set() =~= listed_shelves(next)) by {
                    before.lemma_push_to_set_commute(s@);
                    assert forall|x: Seq<char>| listed_shelves(next).contains(x) implies #[trigger] before.push(
                        s@,
                    ).to_set().contains(x) by {
                        let k = choose|k: int|
                            0 <= k < next.len() && next[k].1 && json_shelf_of(next[k].0) == Some(x);
                        if k < i {
                            assert(listed_shelves(pre).contains(x));
                        }
                    }
                    assert forall|x: Seq<char>| #[trigger] before.push(s@).to_set().contains(x)
                        implies listed_shelves(next).contains(x) by {
                        if x == s@ {
                            assert(next[i as int].1 && json_shelf_of(next[i as int].0) == Some(x));
                        } else {
                            assert(before.to_set().contains(x));
                            assert(listed_shelves(pre).contains(x));
                            let k = choose|k: int|
                                0 <= k < pre.len() && pre[k].1 && json_shelf_of(pre[k].0) == Some(x);
                            assert(next[k] == pre[k]);
                        }
                    }
                }
            },
            None => {
                assert(found.deep_view().to_set() =~= listed_shelves(next)) by {
                    assert forall|x: Seq<char>| listed_shelves(next).contains(x) implies #[trigger] before.to_set().contains(
                        x,
                    ) by {
                        let k = choose|k: int|
                            0 <= k < next.len() && next[k].1 && json_shelf_of(next[k].0) == Some(x);
                        if k < i {
                            assert(listed_shelves(pre).contains(x));
                        }
                    }
                    assert forall|x: Seq<char>| #[trigger] before.to_set().contains(x) implies listed_shelves(
                        next,
                    ).contains(x) by {
                        assert(listed_shelves(pre).contains(x));
                        let k = choose|k: int|
                            0 <= k < pre.len() && pre[k].1 && json_shelf_of(pre[k].0) == Some(x);
                        assert(next[k] == pre[k]);
                    }
                }
            },
        }
        i = i + 1;
    }
    assert(ev.subrange(0, entries@.len() as int) =~= ev);
    sorted_unique(&found)
}

pub open spec fn team_shelf_views(g: Seq<(String, ShelfData)>) -> Seq<
    (Seq<char>, (Seq<char>, Seq<(Seq<char>, Option<Seq<char>>)>)),
> {
    Seq::new(g.len(), |k: int| (g[k].0@, shelf_view(g[k].1)))
}

proof fn lemma_team_push(
    bo: Seq<TeamData>,
    done: Seq<(Seq<char>, Seq<(Seq<char>, Seq<(Seq<char>, Option<Seq<char>>)>)>)>,
    t: TeamData,
)
    requires
        teams_view(bo) == done,
    ensures
        teams_view(bo.push(t)) == done.push(team_view(t)),
{
    assert(teams_view(bo.push(t)) =~= done.push(team_view(t))) by {
        assert forall|i: int| 0 <= i < bo.len() + 1 implies #[trigger] teams_view(bo.push(t))[i]
            == done.push(team_view(t))[i] by {
            if i < bo.len() {
                assert(bo.push(t)[i] == bo[i]);
            }
        }
    }
}

/// Groups (team, shelf) pairs listed team by team into one entry per run of
/// the same team, keeping the order of teams and of shelves.
pub fn group_team_shelves(grouped: Vec<(String, ShelfData)>) -> (r: Vec<TeamData>)
    ensures
        teams_view(r@) == runs_by_key(team_shelf_views(grouped@)),
{
    let ghost g = team_shelf_views(grouped@);
    let count = grouped.len();
    let mut rest = grouped;
    let mut out: Vec<TeamData> = Vec::new();
    let mut current_team: Option<String> = None;
    let mut current_shelves: Vec<ShelfData> = Vec::new();
    let mut k: usize = 0;
    let ghost mut done: Seq<(Seq<char>, Seq<(Seq<char>, Seq<(Seq<char>, Option<Seq<char>>)>)>)> =
        Seq::empty();
    assert(team_shelf_views(rest@) =~= g.subrange(0, count as int));
    assert(teams_view(out@) =~= done);
    while rest.len() > 0
        invariant
            count == g.len(),
            k + rest@.len() == count,
            team_shelf_views(rest@) == g.subrange(k as int, count as int),
            teams_view(out@) == done,
            runs_by_key(g.subrange(0, k as int)) == done + match current_team {
                Some(t) => seq![(t@, shelves_view(current_shelves@))],
                None => Seq::empty(),
            },
            current_team is None ==> k == 0,
            current_team matches Some(t) ==> k > 0 && g[k - 1].0 == t@,
        decreases rest.len(),
    {
        let ghost ro = rest@;
        let (team, shelf) = rest.remove(0);
        assert(rest@ =~= ro.drop_first());
        assert(team_shelf_views(ro)[0] == (team@, shelf_view(shelf)));
        assert(team_shelf_views(rest@) =~= g.subrange(k + 1, count as int)) by {
            assert forall|i: int| 0 <= i < rest@.len() implies #[trigger] team_shelf_views(rest@)[i]
                == g.subrange(k + 1, count as int)[i] by {
                assert(team_shelf_views(ro)[i + 1] == (ro[i + 1].0@, shelf_view(ro[i + 1].1)));
            }
        }
        let ghost pre = g.subrange(0, k as int);
        assert(g.subrange(0, k + 1).drop_last() =~= pre);
        assert(g.subrange(0, k + 1).last() == (team@, shelf_view(shelf)));
        let same = match &current_team {
            Some(t) => str_eq(t.as_str(), team.as_str()),
            None => false,
        };
        if same {
            let ghost before = current_shelves@;
            current_shelves.push(shelf);
            assert(shelves_view(current_shelves@) =~= shelves_view(before).push(shelf_view(shelf)));
        } else {
            if let Some(t) = current_team {
                let finished = current_shelves;
                let ghost bo = out@;
                let entry = TeamData { team: t, shelves: finished };
                out.push(entry);
                proof {
                    assert(out@ =~= bo.push(entry));
                    lemma_team_push(bo, done, entry);
                    done = done.push(team_view(entry));
                }
            }
            current_team = Some(team);
            let mut fresh: Vec<ShelfData> = Vec::new();
            fresh.push(shelf);
            current_shelves = fresh;
            assert(shelves_view(current_shelves@) =~= seq![shelf_view(shelf)]);
        }
        k = k + 1;
    }
    if let Some(t) = current_team {
        let ghost bo = out@;
        let entry = TeamData { team: t, shelves: current_shelves };
        out.push(entry);
        proof {
            assert(out@ =~= bo.push(entry));
            lemma_team_push(bo, done, entry);
            done = done.push(team_view(entry));
        }
    }
    assert(g.subrange(0, k as int) =~= g);
    out
}

} // verus!
