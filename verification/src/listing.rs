//! Listing and search output: sections of commands per shelf, hiding local
//! copies of shared commands, the list limit, and the lines and messages shown.
use crate::config::DefaultSharedReadTarget;
use crate::database::{CommandDatabase, StoredCommand};
use crate::template::{scan_template, slot_names, Scan};
use crate::text::{decimal, decimal_string, push_char, str_eq, to_uppercase, uppercase};
use vstd::prelude::*;

verus! {

/// How many commands a listing shows when nothing else is configured.
pub const DEFAULT_LIST_LIMIT: usize = 20;

/// Where a section's commands come from.
#[derive(Debug, Clone, PartialEq, Eq)]
pub enum OutputSectionSource {
    Local { shelf: String },
    SharedTeam { team: String, shelf: String },
}

/// A command as it is shown.
#[derive(Debug, Clone, PartialEq, Eq)]
pub struct OutputEntry {
    pub name: Option<String>,
    pub command: String,
    pub description: Option<String>,
    pub template: Option<String>,
}

/// The commands of one shelf, local or of a team.
#[derive(Debug, Clone, PartialEq, Eq)]
pub struct OutputSection {
    pub source: OutputSectionSource,
    pub entries: Vec<OutputEntry>,
}

pub open spec fn opt_view(o: Option<String>) -> Option<Seq<char>> {
    match o {
        Some(s) => Some(s@),
        None => None,
    }
}

/// An entry as name, command, description and template.
pub struct EntryView {
    pub name: Option<Seq<char>>,
    pub command: Seq<char>,
    pub description: Option<Seq<char>>,
    pub template: Option<Seq<char>>,
}

impl OutputEntry {
    pub open spec fn entry_view(self) -> EntryView {
        EntryView {
            name: opt_view(self.name),
            command: self.command@,
            description: opt_view(self.description),
            template: opt_view(self.template),
        }
    }

    /// The entry showing a stored command.
    pub fn from_command(command: &StoredCommand) -> (r: Self)
        ensures
            r.entry_view() == (EntryView {
                name: opt_view(command.name),
                command: command.command@,
                description: opt_view(command.description),
                template: None,
            }),
    {
        let name = match &command.name {
            Some(n) => Some(n.clone()),
            None => None,
        };
        let description = match &command.description {
            Some(d) => Some(d.clone()),
            None => None,
        };
        OutputEntry { name, command: command.command.clone(), description, template: None }
    }

    /// The entry showing a stored command, taking it over.
    pub fn from_owned_command(command: StoredCommand) -> (r: Self)
        ensures
            r.entry_view() == (EntryView {
                name: opt_view(command.name),
                command: command.command@,
                description: opt_view(command.description),
                template: None,
            }),
    {
        OutputEntry {
            name: command.name,
            command: command.command,
            description: command.description,
            template: None,
        }
    }
}

pub open spec fn entries_view(v: Seq<OutputEntry>) -> Seq<EntryView> {
    Seq::new(v.len(), |k: int| v[k].entry_view())
}

/// The title of a section's source.
pub open spec fn source_title(source: OutputSectionSource) -> Seq<char> {
    match source {
        OutputSectionSource::Local { shelf } => "Local / "@ + shelf@,
        OutputSectionSource::SharedTeam { team, shelf } => "Shared / "@ + team@ + " / "@ + shelf@,
    }
}

impl OutputSection {
    /// A section of a local shelf.
    pub fn local(shelf: String, entries: Vec<OutputEntry>) -> (r: Self)
        ensures
            r.source == (OutputSectionSource::Local { shelf }),
            r.entries == entries,
    {
        OutputSection { source: OutputSectionSource::Local { shelf }, entries }
    }

    /// A section of a team's shelf.
    pub fn shared_team(team: String, shelf: String, entries: Vec<OutputEntry>) -> (r: Self)
        ensures
            r.source == (OutputSectionSource::SharedTeam { team, shelf }),
            r.entries == entries,
    {
        OutputSection { source: OutputSectionSource::SharedTeam { team, shelf }, entries }
    }

    /// `Local / <shelf>` or `Shared / <team> / <shelf>`.
    pub fn title(&self) -> (r: String)
        ensures
            r@ == source_title(self.source),
    {
        match &self.source {
            OutputSectionSource::Local { shelf } => {
                let mut t = String::from_str("Local / ");
                t.append(shelf.as_str());
                t
            },
            OutputSectionSource::SharedTeam { team, shelf } => {
                let mut t = String::from_str("Shared / ");
                t.append(team.as_str());
                t.append(" / ");
                t.append(shelf.as_str());
                t
            },
        }
    }

    /// Whether the section is a team's.
    pub fn is_shared(&self) -> (r: bool)
        ensures
            r == (self.source is SharedTeam),
    {
        match &self.source {
            OutputSectionSource::SharedTeam { .. } => true,
            OutputSectionSource::Local { .. } => false,
        }
    }
}

/// `=== <TITLE> ===`, the title in uppercase.
pub fn format_section_header(title: &str) -> (r: String)
    ensures
        r@ == "=== "@ + uppercase(title@) + " ==="@,
{
    let mut h = String::from_str("=== ");
    let upper = to_uppercase(title);
    h.append(upper.as_str());
    h.append(" ===");
    h
}

/// The note on local commands hidden as copies of shared ones.
pub open spec fn duplicate_hidden_message(n: nat) -> Option<Seq<char>> {
    if n == 0 {
        None
    } else if n == 1 {
        Some("1 local command was hidden because it duplicates shared storage."@)
    } else {
        Some(decimal(n) + " local commands were hidden because they duplicate shared storage."@)
    }
}

pub fn format_duplicate_hidden_message(hidden_local_duplicates: usize) -> (r: Option<String>)
    ensures
        opt_view(r) == duplicate_hidden_message(hidden_local_duplicates as nat),
{
    if hidden_local_duplicates == 0 {
        None
    } else if hidden_local_duplicates == 1 {
        Some(String::from_str("1 local command was hidden because it duplicates shared storage."))
    } else {
        let mut m = decimal_string(hidden_local_duplicates);
        m.append(" local commands were hidden because they duplicate shared storage.");
        Some(m)
    }
}

/// The note on commands hidden by the active limit.
pub open spec fn limit_hidden_message(hidden: nat, active_limit: Option<usize>, search_limit: bool) -> Option<
    Seq<char>,
> {
    match active_limit {
        None => None,
        Some(limit) => {
            let kind = if search_limit {
                "search"@
            } else {
                "list"@
            };
            if hidden == 0 {
                None
            } else if hidden == 1 {
                Some(
                    "Showing first "@ + decimal(limit as nat)
                        + " commands. 1 additional command was hidden by the active "@ + kind
                        + " limit."@,
                )
            } else {
                Some(
                    "Showing first "@ + decimal(limit as nat) + " commands. "@ + decimal(hidden)
                        + " additional commands were hidden by the active "@ + kind + " limit."@,
                )
            }
        },
    }
}

pub fn format_limit_hidden_message(
    hidden_due_to_limit: usize,
    active_limit: Option<usize>,
    search_limit: bool,
) -> (r: Option<String>)
    ensures
        opt_view(r) == limit_hidden_message(hidden_due_to_limit as nat, active_limit, search_limit),
{
    let limit = match active_limit {
        Some(l) => l,
        None => {
            return None;
        },
    };
    let kind = if search_limit {
        "search"
    } else {
        "list"
    };
    if hidden_due_to_limit == 0 {
        return None;
    }
    let mut m = String::from_str("Showing first ");
    let l = decimal_string(limit);
    m.append(l.as_str());
    if hidden_due_to_limit == 1 {
        m.append(" commands. 1 additional command was hidden by the active ");
    } else {
        m.append(" commands. ");
        let h = decimal_string(hidden_due_to_limit);
        m.append(h.as_str());
        m.append(" additional commands were hidden by the active ");
    }
    m.append(kind);
    m.append(" limit.");
    Some(m)
}

/// A limit of 0 means no limit.
pub fn normalize_limit(limit: usize) -> (r: Option<usize>)
    ensures
        r == (if limit == 0 {
            None
        } else {
            Some(limit)
        }),
{
    if limit == 0 {
        None
    } else {
        Some(limit)
    }
}

/// The limit of a listing: the one given on the command line, else the
/// configured one, else `DEFAULT_LIST_LIMIT`; 0 means none.
pub fn resolve_list_limit(given: Option<usize>, configured: Option<usize>) -> (r: Option<usize>)
    ensures
        r == match given {
            Some(l) => if l == 0 {
                None
            } else {
                Some(l)
            },
            None => match configured {
                Some(l) => if l == 0 {
                    None
                } else {
                    Some(l)
                },
                None => Some(DEFAULT_LIST_LIMIT),
            },
        },
{
    if let Some(l) = given {
        return normalize_limit(l);
    }
    match configured {
        Some(l) => normalize_limit(l),
        None => Some(DEFAULT_LIST_LIMIT),
    }
}

/// The message for a listing that shows nothing.
pub open spec fn empty_listing_message(filtered: bool, shelf: Option<Seq<char>>) -> Seq<char> {
    match shelf {
        Some(s) => if filtered {
            "No matching commands in shelf '"@ + s + "'."@
        } else {
            "No commands stored in shelf '"@ + s + "'."@
        },
        None => if filtered {
            "No matching commands in any shelf."@
        } else {
            "No commands stored in any shelf."@
        },
    }
}

pub fn empty_message(filtered: bool, shelf: Option<&str>) -> (r: String)
    ensures
        r@ == empty_listing_message(
            filtered,
            match shelf {
                Some(s) => Some(s@),
                None => None,
            },
        ),
{
    match shelf {
        Some(s) => {
            let mut m = if filtered {
                String::from_str("No matching commands in shelf '")
            } else {
                String::from_str("No commands stored in shelf '")
            };
            m.append(s);
            m.append("'.");
            m
        },
        None => if filtered {
            String::from_str("No matching commands in any shelf.")
        } else {
            String::from_str("No commands stored in any shelf.")
        },
    }
}

pub open spec fn section_sizes(s: Seq<OutputSection>) -> Seq<nat> {
    Seq::new(s.len(), |k: int| s[k].entries@.len())
}

pub open spec fn total(sizes: Seq<nat>) -> nat
    decreases sizes.len(),
{
    if sizes.len() == 0 {
        0
    } else {
        total(sizes.drop_last()) + sizes.last()
    }
}

pub open spec fn min_nat(a: nat, b: nat) -> nat {
    if a <= b {
        a
    } else {
        b
    }
}

/// How many entries of section `k` a limit leaves: what is left of the limit
/// after the sections before it, at most the section's size.
pub open spec fn kept_count(sizes: Seq<nat>, k: int, limit: nat) -> nat {
    let used = total(sizes.subrange(0, k));
    if used >= limit {
        0
    } else {
        min_nat(sizes[k], (limit - used) as nat)
    }
}

/// Sections cut down to the first `limit` entries in order.
pub open spec fn limited(s: Seq<OutputSection>, limit: nat) -> Seq<(OutputSectionSource, Seq<EntryView>)> {
    Seq::new(
        s.len(),
        |k: int|
            (
                s[k].source,
                entries_view(s[k].entries@).subrange(0, kept_count(section_sizes(s), k, limit) as int),
            ),
    )
}

pub open spec fn sections_view(s: Seq<OutputSection>) -> Seq<(OutputSectionSource, Seq<EntryView>)> {
    Seq::new(s.len(), |k: int| (s[k].source, entries_view(s[k].entries@)))
}

proof fn lemma_total_push(sizes: Seq<nat>, x: nat)
    ensures
        total(sizes.push(x)) == total(sizes) + x,
{
    assert(sizes.push(x).drop_last() =~= sizes);
}

/// Shows at most `limit` entries over all sections, the first ones in order,
/// and returns how many were hidden; `None` hides nothing.
pub fn apply_list_limit(sections: &mut Vec<OutputSection>, limit: Option<usize>) -> (hidden: usize)
    requires
        total(section_sizes(old(sections)@)) <= usize::MAX,
    ensures
        match limit {
            None => hidden == 0 && final(sections)@ == old(sections)@,
            Some(l) => {
                &&& sections_view(final(sections)@) == limited(old(sections)@, l as nat)
                &&& hidden == total(section_sizes(old(sections)@)) - min_nat(
                    total(section_sizes(old(sections)@)),
                    l as nat,
                )
            },
        },
{
    let limit = match limit {
        Some(l) => l,
        None => {
            return 0;
        },
    };
    let ghost orig = sections@;
    let ghost sizes = section_sizes(orig);
    let count = sections.len();
    let mut old_sections: Vec<OutputSection> = Vec::new();
    std::mem::swap(&mut old_sections, sections);
    let mut out: Vec<OutputSection> = Vec::new();
    let mut remaining: usize = limit;
    let mut hidden: usize = 0;
    let mut k: usize = 0;
    assert(orig.subrange(0, 0) =~= Seq::<OutputSection>::empty());
    assert(sizes.subrange(0, 0) =~= Seq::<nat>::empty());
    assert(old_sections@ =~= orig.subrange(0, orig.len() as int));
    while old_sections.len() > 0
        invariant
            sizes == section_sizes(orig),
            total(sizes) <= usize::MAX,
            count == orig.len(),
            k + old_sections@.len() == orig.len(),
            out@.len() == k,
            old_sections@ == orig.subrange(k as int, orig.len() as int),
            remaining == (if total(sizes.subrange(0, k as int)) >= limit {
                0
            } else {
                limit - total(sizes.subrange(0, k as int))
            }),
            hidden == total(sizes.subrange(0, k as int)) - min_nat(
                total(sizes.subrange(0, k as int)),
                limit as nat,
            ),
            forall|m: int|
                0 <= m < k ==> #[trigger] sections_view(out@)[m] == limited(orig, limit as nat)[m],
        decreases old_sections.len(),
    {
        let mut sec = old_sections.remove(0);
        assert(sec == orig[k as int]);
        let n = sec.entries.len();
        let ghost prefix = sizes.subrange(0, k as int);
        proof {
            assert(sizes.subrange(0, k + 1) =~= prefix.push(n as nat));
            lemma_total_push(prefix, n as nat);
            lemma_total_bound(sizes, k + 1);
        }
        let ghost ev = entries_view(sec.entries@);
        if remaining == 0 {
            hidden = hidden + n;
            sec.entries.clear();
        } else if n > remaining {
            hidden = hidden + (n - remaining);
            sec.entries.truncate(remaining);
            remaining = 0;
        } else {
            remaining = remaining - n;
        }
        assert(entries_view(sec.entries@) =~= ev.subrange(0, kept_count(sizes, k as int, limit as nat) as int));
        let ghost before = out@;
        out.push(sec);
        assert(out@ =~= before.push(sec));
        proof {
            assert forall|m: int| 0 <= m < k + 1 implies #[trigger] sections_view(out@)[m] == limited(
                orig,
                limit as nat,
            )[m] by {
                if m < k {
                    assert(sections_view(out@)[m] == sections_view(before)[m]);
                }
            }
        }
        k = k + 1;
    }
    assert(sizes.subrange(0, k as int) =~= sizes);
    assert(sections_view(out@) =~= limited(orig, limit as nat));
    *sections = out;
    hidden
}

proof fn lemma_total_bound(sizes: Seq<nat>, k: int)
    requires
        0 <= k <= sizes.len(),
    ensures
        total(sizes.subrange(0, k)) <= total(sizes),
    decreases sizes.len() - k,
{
    if k < sizes.len() {
        lemma_total_bound(sizes, k + 1);
        assert(sizes.subrange(0, k + 1) =~= sizes.subrange(0, k).push(sizes[k]));
        lemma_total_push(sizes.subrange(0, k), sizes[k]);
    } else {
        assert(sizes.subrange(0, k) =~= sizes);
    }
}

/// The entries of the sections kept by a limit add up to the smaller of the
/// limit and the number of entries.
pub proof fn lemma_limit_keeps_first(sizes: Seq<nat>, limit: nat)
    ensures
        total(Seq::new(sizes.len(), |k: int| kept_count(sizes, k, limit))) == min_nat(total(sizes), limit),
    decreases sizes.len(),
{
    let kept = Seq::new(sizes.len(), |k: int| kept_count(sizes, k, limit));
    if sizes.len() > 0 {
        let init = sizes.drop_last();
        lemma_limit_keeps_first(init, limit);
        let kept_init = Seq::new(init.len(), |k: int| kept_count(init, k, limit));
        assert forall|k: int| 0 <= k < init.len() implies #[trigger] kept_init[k] == kept[k] by {
            assert(init.subrange(0, k) =~= sizes.subrange(0, k));
        }
        assert(kept.drop_last() =~= kept_init);
        assert(sizes.subrange(0, init.len() as int) =~= init);
    }
}

/// The commands of the team sections.
pub open spec fn shared_command_set(sections: Seq<OutputSection>) -> Set<Seq<char>> {
    Set::new(
        |c: Seq<char>|
            exists|k: int, j: int|
                0 <= k < sections.len() && sections[k].source is SharedTeam && 0 <= j
                    < sections[k].entries@.len() && #[trigger] sections[k].entries@[j].command@ == c,
    )
}

/// The commands of the team sections, in order.
pub fn shared_commands(sections: &Vec<OutputSection>) -> (r: Vec<String>)
    ensures
        r.deep_view().to_set() == shared_command_set(sections@),
{
    let mut out: Vec<String> = Vec::new();
    let mut k: usize = 0;
    while k < sections.len()
        invariant
            k <= sections@.len(),
            forall|c: Seq<char>| #[trigger] out.deep_view().contains(c) <==> exists|a: int, j: int|
                0 <= a < k && sections@[a].source is SharedTeam && 0 <= j < sections@[a].entries@.len()
                    && #[trigger] sections@[a].entries@[j].command@ == c,
        decreases sections.len() - k,
    {
        if sections[k].is_shared() {
            let mut j: usize = 0;
            while j < sections[k].entries.len()
                invariant
                    k < sections@.len(),
                    sections@[k as int].source is SharedTeam,
                    j <= sections@[k as int].entries@.len(),
                    forall|c: Seq<char>| #[trigger] out.deep_view().contains(c) <==> (exists|a: int, i: int|
                        0 <= a < k && sections@[a].source is SharedTeam && 0 <= i
                            < sections@[a].entries@.len() && #[trigger] sections@[a].entries@[i].command@
                            == c) || (exists|i: int| 0 <= i < j && #[trigger] sections@[k as int].entries@[i].command@ == c),
                decreases sections@[k as int].entries@.len() - j,
            {
                let ghost before = out.deep_view();
                let c = sections[k].entries[j].command.clone();
                let ghost cv = c@;
                out.push(c);
                proof {
                    assert(out.deep_view() =~= before.push(cv));
                    assert forall|x: Seq<char>| #[trigger] out.deep_view().contains(x) <==> (exists|a: int, i: int|
                        0 <= a < k && sections@[a].source is SharedTeam && 0 <= i
                            < sections@[a].entries@.len() && #[trigger] sections@[a].entries@[i].command@
                            == x) || (exists|i: int| 0 <= i < j + 1 && #[trigger] sections@[k as int].entries@[i].command@ == x) by {
                        if out.deep_view().contains(x) {
                            let p = choose|p: int| 0 <= p < out.deep_view().len() && out.deep_view()[p] == x;
                            if p < before.len() {
                                assert(before.contains(x));
                            } else {
                                assert(sections@[k as int].entries@[j as int].command@ == x);
                            }
                        }
                        if exists|i: int| 0 <= i < j + 1 && #[trigger] sections@[k as int].entries@[i].command@ == x {
                            let i = choose|i: int| 0 <= i < j + 1 && #[trigger] sections@[k as int].entries@[i].command@ == x;
                            if i == j {
                                assert(out.deep_view()[before.len() as int] == x);
                            } else {
                                assert(before.contains(x));
                                let p = choose|p: int| 0 <= p < before.len() && before[p] == x;
                                assert(out.deep_view()[p] == x);
                            }
                        }
                        if exists|a: int, i: int|
                            0 <= a < k && sections@[a].source is SharedTeam && 0 <= i
                                < sections@[a].entries@.len() && #[trigger] sections@[a].entries@[i].command@ == x {
                            assert(before.contains(x));
                            let p = choose|p: int| 0 <= p < before.len() && before[p] == x;
                            assert(out.deep_view()[p] == x);
                        }
                    }
                }
                j = j + 1;
            }
            proof {
                assert forall|c: Seq<char>| #[trigger] out.deep_view().contains(c) <==> exists|a: int, i: int|
                    0 <= a < k + 1 && sections@[a].source is SharedTeam && 0 <= i < sections@[a].entries@.len()
                        && #[trigger] sections@[a].entries@[i].command@ == c by {
                    if exists|i: int| 0 <= i < j && #[trigger] sections@[k as int].entries@[i].command@ == c {
                        let i = choose|i: int| 0 <= i < j && #[trigger] sections@[k as int].entries@[i].command@ == c;
                        assert(sections@[k as int].entries@[i].command@ == c);
                    }
                    if exists|a: int, i: int|
                        0 <= a < k + 1 && sections@[a].source is SharedTeam && 0 <= i < sections@[a].entries@.len()
                            && #[trigger] sections@[a].entries@[i].command@ == c {
                        let (a, i) = choose|a: int, i: int|
                            0 <= a < k + 1 && sections@[a].source is SharedTeam && 0 <= i < sections@[a].entries@.len()
                                && #[trigger] sections@[a].entries@[i].command@ == c;
                        if a == k {
                            assert(sections@[k as int].entries@[i].command@ == c);
                        }
                    }
                }
            }
        }
        k = k + 1;
    }
    assert(out.deep_view().to_set() =~= shared_command_set(sections@));
    out
}

/// The entries whose command is not in `commands`, in order.
pub open spec fn without_commands(es: Seq<EntryView>, commands: Set<Seq<char>>) -> Seq<EntryView>
    decreases es.len(),
{
    if es.len() == 0 {
        es
    } else {
        let r = without_commands(es.drop_last(), commands);
        if commands.contains(es.last().command) {
            r
        } else {
            r.push(es.last())
        }
    }
}

/// Hiding copies keeps exactly the entries whose command is not shared, in order.
pub proof fn lemma_without_commands(es: Seq<EntryView>, commands: Set<Seq<char>>)
    ensures
        without_commands(es, commands).len() <= es.len(),
        forall|k: int|
            0 <= k < without_commands(es, commands).len() ==> !commands.contains(
                #[trigger] without_commands(es, commands)[k].command,
            ) && es.contains(without_commands(es, commands)[k]),
        forall|k: int|
            0 <= k < es.len() && !commands.contains(#[trigger] es[k].command) ==> without_commands(
                es,
                commands,
            ).contains(es[k]),
    decreases es.len(),
{
    if es.len() > 0 {
        let init = es.drop_last();
        lemma_without_commands(init, commands);
        let r = without_commands(init, commands);
        let w = without_commands(es, commands);
        assert forall|k: int| 0 <= k < w.len() implies !commands.contains(#[trigger] w[k].command)
            && es.contains(w[k]) by {
            if k < r.len() {
                assert(w[k] == r[k]);
                assert(!commands.contains(r[k].command));
                assert(init.contains(r[k]));
                let j = choose|j: int| 0 <= j < init.len() && init[j] == r[k];
                assert(es[j] == r[k]);
            } else {
                assert(w[k] == es.last());
                assert(es[es.len() - 1] == es.last());
            }
        }
        assert forall|k: int| 0 <= k < es.len() && !commands.contains(#[trigger] es[k].command) implies w.contains(
            es[k],
        ) by {
            if k < init.len() {
                assert(init[k] == es[k]);
                let j = choose|j: int| 0 <= j < r.len() && r[j] == es[k];
                assert(w[j] == es[k]);
            } else {
                assert(w[w.len() - 1] == es[k]);
            }
        }
    }
}

fn remove_listed(entries: Vec<OutputEntry>, listed: &Vec<String>) -> (r: Vec<OutputEntry>)
    ensures
        entries_view(r@) == without_commands(entries_view(entries@), listed.deep_view().to_set()),
{
    let ghost ev = entries_view(entries@);
    let ghost set = listed.deep_view().to_set();
    let count = entries.len();
    let mut rest = entries;
    let mut out: Vec<OutputEntry> = Vec::new();
    let mut k: usize = 0;
    let ghost n = ev.len();
    assert(ev.subrange(0, 0) =~= Seq::<EntryView>::empty());
    assert(entries_view(rest@) =~= ev.subrange(0, n as int));
    while rest.len() > 0
        invariant
            set == listed.deep_view().to_set(),
            count == n,
            k + rest@.len() == n,
            n == ev.len(),
            entries_view(rest@) == ev.subrange(k as int, n as int),
            entries_view(out@) == without_commands(ev.subrange(0, k as int), set),
        decreases rest.len(),
    {
        let ghost ro = rest@;
        let e = rest.remove(0);
        assert(rest@ =~= ro.drop_first());
        assert(entries_view(ro)[0] == ro[0].entry_view());
        assert(e.entry_view() == ev[k as int]);
        assert(ev.subrange(0, k + 1).drop_last() =~= ev.subrange(0, k as int));
        assert(entries_view(rest@) =~= ev.subrange(k + 1, n as int)) by {
            assert forall|i: int| 0 <= i < rest@.len() implies #[trigger] entries_view(rest@)[i]
                == ev.subrange(k + 1, n as int)[i] by {
                assert(entries_view(ro)[i + 1] == ro[i + 1].entry_view());
            }
        }
        let ghost before = entries_view(out@);
        if !crate::dedup::contains_string(listed, e.command.as_str()) {
            out.push(e);
            assert(entries_view(out@) =~= before.push(e.entry_view()));
        }
        k = k + 1;
    }
    assert(ev.subrange(0, n as int) =~= ev);
    out
}

/// Removes the local entries whose command a team section also shows, and
/// returns how many were removed.
pub fn hide_local_duplicates(local_commands: &mut Vec<OutputEntry>, shared_sections: &Vec<OutputSection>) -> (hidden: usize)
    ensures
        entries_view(final(local_commands)@) == without_commands(
            entries_view(old(local_commands)@),
            shared_command_set(shared_sections@),
        ),
        hidden == old(local_commands)@.len() - final(local_commands)@.len(),
{
    let shared = shared_commands(shared_sections);
    let ghost set = shared_command_set(shared_sections@);
    let ghost ev = entries_view(local_commands@);
    proof {
        lemma_without_commands(ev, set);
    }
    if shared.len() == 0 {
        proof {
            assert(set =~= Set::<Seq<char>>::empty()) by {
                assert forall|c: Seq<char>| !set.contains(c) by {
                    assert(!shared.deep_view().to_set().contains(c));
                }
            }
            lemma_without_nothing(ev, set);
        }
        return 0;
    }
    let original_len = local_commands.len();
    let mut taken: Vec<OutputEntry> = Vec::new();
    std::mem::swap(&mut taken, local_commands);
    let kept = remove_listed(taken, &shared);
    *local_commands = kept;
    original_len - local_commands.len()
}

proof fn lemma_without_nothing(es: Seq<EntryView>, commands: Set<Seq<char>>)
    requires
        commands =~= Set::<Seq<char>>::empty(),
    ensures
        without_commands(es, commands) == es,
    decreases es.len(),
{
    if es.len() > 0 {
        lemma_without_nothing(es.drop_last(), commands);
        assert(es.drop_last().push(es.last()) =~= es);
    }
}

/// Local sections with their copies of team commands removed.
pub open spec fn sections_without_shared(
    locals: Seq<OutputSection>,
    commands: Set<Seq<char>>,
) -> Seq<(OutputSectionSource, Seq<EntryView>)> {
    Seq::new(
        locals.len(),
        |k: int|
            (
                locals[k].source,
                if locals[k].source is Local {
                    without_commands(entries_view(locals[k].entries@), commands)
                } else {
                    entries_view(locals[k].entries@)
                },
            ),
    )
}

/// Removes from the local sections the entries whose command a team section
/// shows, and returns how many were removed.
pub fn hide_local_duplicates_in_sections(
    local_sections: &mut Vec<OutputSection>,
    shared_sections: &Vec<OutputSection>,
) -> (hidden: usize)
    requires
        total(section_sizes(old(local_sections)@)) <= usize::MAX,
    ensures
        sections_view(final(local_sections)@) == sections_without_shared(
            old(local_sections)@,
            shared_command_set(shared_sections@),
        ),
        hidden + total(section_sizes(final(local_sections)@)) == total(
            section_sizes(old(local_sections)@),
        ),
{
    let shared = shared_commands(shared_sections);
    let ghost set = shared_command_set(shared_sections@);
    let ghost orig = local_sections@;
    let ghost sizes = section_sizes(orig);
    let count = local_sections.len();
    let mut rest: Vec<OutputSection> = Vec::new();
    std::mem::swap(&mut rest, local_sections);
    let mut out: Vec<OutputSection> = Vec::new();
    let mut hidden: usize = 0;
    let mut k: usize = 0;
    let none_shared = shared.len() == 0;
    proof {
        if none_shared {
            assert(set =~= Set::<Seq<char>>::empty()) by {
                assert forall|c: Seq<char>| !set.contains(c) by {
                    assert(!shared.deep_view().to_set().contains(c));
                }
            }
        }
        assert(sizes.subrange(0, 0) =~= Seq::<nat>::empty());
        assert(section_sizes(out@) =~= Seq::<nat>::empty());
        assert(rest@ =~= orig.subrange(0, count as int));
    }
    while rest.len() > 0
        invariant
            set == shared_command_set(shared_sections@),
            set == shared.deep_view().to_set(),
            none_shared ==> set =~= Set::<Seq<char>>::empty(),
            sizes == section_sizes(orig),
            total(sizes) <= usize::MAX,
            count == orig.len(),
            k + rest@.len() == count,
            out@.len() == k,
            rest@ == orig.subrange(k as int, count as int),
            hidden + total(section_sizes(out@)) == total(sizes.subrange(0, k as int)),
            forall|m: int|
                0 <= m < k ==> #[trigger] sections_view(out@)[m] == sections_without_shared(orig, set)[m],
        decreases rest.len(),
    {
        let sec = rest.remove(0);
        assert(sec == orig[k as int]);
        let n = sec.entries.len();
        proof {
            assert(sizes.subrange(0, k + 1) =~= sizes.subrange(0, k as int).push(n as nat));
            lemma_total_push(sizes.subrange(0, k as int), n as nat);
            lemma_total_bound(sizes, k + 1);
        }
        let ghost ev = entries_view(sec.entries@);
        let OutputSection { source, entries } = sec;
        let is_local = match &source {
            OutputSectionSource::Local { .. } => true,
            OutputSectionSource::SharedTeam { .. } => false,
        };
        let kept = if is_local && !none_shared {
            remove_listed(entries, &shared)
        } else {
            proof {
                if is_local {
                    lemma_without_nothing(ev, set);
                }
            }
            entries
        };
        proof {
            lemma_without_commands(ev, set);
        }
        let m = kept.len();
        hidden = hidden + (n - m);
        let ghost before = out@;
        let new_sec = OutputSection { source, entries: kept };
        out.push(new_sec);
        proof {
            assert(out@ =~= before.push(new_sec));
            assert(section_sizes(out@) =~= section_sizes(before).push(m as nat));
            lemma_total_push(section_sizes(before), m as nat);
            assert forall|q: int| 0 <= q < k + 1 implies #[trigger] sections_view(out@)[q]
                == sections_without_shared(orig, set)[q] by {
                if q < k {
                    assert(sections_view(out@)[q] == sections_view(before)[q]);
                }
            }
        }
        k = k + 1;
    }
    assert(sizes.subrange(0, k as int) =~= sizes);
    assert(sections_view(out@) =~= sections_without_shared(orig, set));
    *local_sections = out;
    hidden
}

/// Consecutive items with the same key gathered under that key, in order.
pub open spec fn runs_by_key<T>(items: Seq<(Seq<char>, T)>) -> Seq<(Seq<char>, Seq<T>)>
    decreases items.len(),
{
    if items.len() == 0 {
        Seq::empty()
    } else {
        let r = runs_by_key(items.drop_last());
        let (key, item) = items.last();
        if r.len() > 0 && r.last().0 == key {
            r.update(r.len() - 1, (key, r.last().1.push(item)))
        } else {
            r.push((key, seq![item]))
        }
    }
}

/// The shelves of one team, or the local ones, under a title.
#[derive(Debug, Clone, PartialEq, Eq)]
pub struct ShelfSection {
    pub title: String,
    pub shelves: Vec<String>,
}

pub open spec fn shelf_section_view(s: ShelfSection) -> (Seq<char>, Seq<Seq<char>>) {
    (s.title@, s.shelves.deep_view())
}

pub open spec fn pair_views(g: Seq<(String, String)>) -> Seq<(Seq<char>, Seq<char>)> {
    Seq::new(g.len(), |k: int| (g[k].0@, g[k].1@))
}

/// One section per run of shelves of the same team, titled `Shared / <team>`.
pub open spec fn team_shelf_sections(g: Seq<(Seq<char>, Seq<char>)>) -> Seq<(Seq<char>, Seq<Seq<char>>)> {
    let runs = runs_by_key(g);
    Seq::new(runs.len(), |k: int| ("Shared / "@ + runs[k].0, runs[k].1))
}

fn shared_title(team: &str) -> (r: String)
    ensures
        r@ == "Shared / "@ + team@,
{
    let mut t = String::from_str("Shared / ");
    t.append(team);
    t
}

pub open spec fn titled_runs(done: Seq<(Seq<char>, Seq<Seq<char>>)>) -> Seq<(Seq<char>, Seq<Seq<char>>)> {
    Seq::new(done.len(), |k: int| ("Shared / "@ + done[k].0, done[k].1))
}

pub open spec fn shelf_sections_view(v: Seq<ShelfSection>) -> Seq<(Seq<char>, Seq<Seq<char>>)> {
    Seq::new(v.len(), |k: int| shelf_section_view(v[k]))
}

proof fn lemma_titled_push(
    bo: Seq<ShelfSection>,
    d: Seq<(Seq<char>, Seq<Seq<char>>)>,
    s: ShelfSection,
    t: Seq<char>,
)
    requires
        shelf_sections_view(bo) == titled_runs(d),
        s.title@ == "Shared / "@ + t,
    ensures
        shelf_sections_view(bo.push(s)) == titled_runs(d.push((t, s.shelves.deep_view()))),
{
    let a = shelf_sections_view(bo.push(s));
    let b = titled_runs(d.push((t, s.shelves.deep_view())));
    assert(shelf_sections_view(bo).len() == bo.len());
    assert(titled_runs(d).len() == d.len());
    assert(bo.len() == d.len());
    assert forall|i: int| 0 <= i < a.len() implies a[i] == b[i] by {
        if i < bo.len() {
            assert(bo.push(s)[i] == bo[i]);
            assert(a[i] == shelf_section_view(bo[i]));
            assert(shelf_sections_view(bo)[i] == titled_runs(d)[i]);
            assert(d.push((t, s.shelves.deep_view()))[i] == d[i]);
        } else {
            assert(bo.push(s)[i] == s);
            assert(d.push((t, s.shelves.deep_view()))[i] == (t, s.shelves.deep_view()));
        }
    }
    assert(a =~= b);
}

/// Groups `(team, shelf)` pairs listed team by team into one section per team.
pub fn sections_from_grouped_team_shelves(grouped: Vec<(String, String)>) -> (r: Vec<ShelfSection>)
    ensures
        shelf_sections_view(r@) == team_shelf_sections(pair_views(grouped@)),
{
    let ghost g = pair_views(grouped@);
    let count = grouped.len();
    let mut rest = grouped;
    let mut out: Vec<ShelfSection> = Vec::new();
    let mut current_team: Option<String> = None;
    let mut current_shelves: Vec<String> = Vec::new();
    let mut k: usize = 0;
    let ghost mut done: Seq<(Seq<char>, Seq<Seq<char>>)> = Seq::empty();
    assert(g.subrange(0, 0) =~= Seq::<(Seq<char>, Seq<char>)>::empty());
    assert(pair_views(rest@) =~= g.subrange(0, count as int));
    assert(shelf_sections_view(out@) =~= titled_runs(done));
    while rest.len() > 0
        invariant
            count == g.len(),
            k + rest@.len() == count,
            pair_views(rest@) == g.subrange(k as int, count as int),
            shelf_sections_view(out@) == titled_runs(done),
            runs_by_key(g.subrange(0, k as int)) == done + match current_team {
                Some(t) => seq![(t@, current_shelves.deep_view())],
                None => Seq::empty(),
            },
            current_team is None ==> k == 0,
            current_team matches Some(t) ==> k > 0 && g[k - 1].0 == t@,
        decreases rest.len(),
    {
        let ghost ro = rest@;
        let (team, shelf) = rest.remove(0);
        assert(rest@ =~= ro.drop_first());
        assert(pair_views(ro)[0] == (team@, shelf@));
        assert(pair_views(rest@) =~= g.subrange(k + 1, count as int)) by {
            assert forall|i: int| 0 <= i < rest@.len() implies #[trigger] pair_views(rest@)[i]
                == g.subrange(k + 1, count as int)[i] by {
                assert(pair_views(ro)[i + 1] == (ro[i + 1].0@, ro[i + 1].1@));
            }
        }
        let ghost pre = g.subrange(0, k as int);
        assert(g.subrange(0, k + 1).drop_last() =~= pre);
        assert(g.subrange(0, k + 1).last() == (team@, shelf@));
        let same = match &current_team {
            Some(t) => str_eq(t.as_str(), team.as_str()),
            None => false,
        };
        if same {
            let ghost before = current_shelves.deep_view();
            current_shelves.push(shelf);
            assert(current_shelves.deep_view() =~= before.push(shelf@));
        } else {
            if let Some(t) = current_team {
                let finished = current_shelves;
                let title = shared_title(t.as_str());
                let ghost bo = out@;
                let section = ShelfSection { title, shelves: finished };
                out.push(section);
                proof {
                    assert(out@ =~= bo.push(section));
                    lemma_titled_push(bo, done, section, t@);
                    done = done.push((t@, section.shelves.deep_view()));
                }
            }
            current_team = Some(team);
            let mut fresh: Vec<String> = Vec::new();
            fresh.push(shelf);
            current_shelves = fresh;
            assert(current_shelves.deep_view() =~= seq![shelf@]);
        }
        k = k + 1;
    }
    if let Some(t) = current_team {
        let title = shared_title(t.as_str());
        let ghost bo = out@;
        let section = ShelfSection { title, shelves: current_shelves };
        out.push(section);
        proof {
            assert(out@ =~= bo.push(section));
            lemma_titled_push(bo, done, section, t@);
            done = done.push((t@, section.shelves.deep_view()));
        }
    }
    assert(g.subrange(0, k as int) =~= g);
    assert(titled_runs(done) =~= team_shelf_sections(g));
    out
}

pub open spec fn stored_entry_view(c: StoredCommand) -> EntryView {
    EntryView { name: opt_view(c.name), command: c.command@, description: opt_view(c.description), template: None }
}

pub open spec fn team_entry_views(g: Seq<(String, StoredCommand)>) -> Seq<(Seq<char>, EntryView)> {
    Seq::new(g.len(), |k: int| (g[k].0@, stored_entry_view(g[k].1)))
}

/// One team section per run of commands of the same team.
pub open spec fn team_command_sections(g: Seq<(Seq<char>, EntryView)>, shelf: Seq<char>) -> Seq<
    (Seq<char>, Seq<char>, Seq<EntryView>),
> {
    let runs = runs_by_key(g);
    Seq::new(runs.len(), |k: int| (runs[k].0, shelf, runs[k].1))
}

pub open spec fn team_sections_view(v: Seq<OutputSection>) -> Seq<(Seq<char>, Seq<char>, Seq<EntryView>)> {
    Seq::new(
        v.len(),
        |k: int|
            match v[k].source {
                OutputSectionSource::SharedTeam { team, shelf } => (team@, shelf@, entries_view(v[k].entries@)),
                OutputSectionSource::Local { shelf } => (Seq::empty(), shelf@, entries_view(v[k].entries@)),
            },
    )
}

proof fn lemma_team_sections_push(
    bo: Seq<OutputSection>,
    d: Seq<(Seq<char>, Seq<EntryView>)>,
    s: OutputSection,
    team: Seq<char>,
    shelf: Seq<char>,
)
    requires
        team_sections_view(bo) == Seq::new(d.len(), |k: int| (d[k].0, shelf, d[k].1)),
        s.source matches OutputSectionSource::SharedTeam { team: t, shelf: sh } && t@ == team && sh@ == shelf,
    ensures
        team_sections_view(bo.push(s)) == Seq::new(
            d.len() + 1,
            |k: int| (d.push((team, entries_view(s.entries@)))[k].0, shelf, d.push((team, entries_view(s.entries@)))[k].1),
        ),
{
    let d2 = d.push((team, entries_view(s.entries@)));
    let a = team_sections_view(bo.push(s));
    let b = Seq::new(d.len() + 1, |k: int| (d2[k].0, shelf, d2[k].1));
    assert(team_sections_view(bo).len() == bo.len());
    assert(bo.len() == d.len());
    assert forall|i: int| 0 <= i < a.len() implies a[i] == b[i] by {
        if i < bo.len() {
            assert(bo.push(s)[i] == bo[i]);
            assert(team_sections_view(bo)[i] == a[i]);
            assert(d2[i] == d[i]);
        } else {
            assert(bo.push(s)[i] == s);
            assert(d2[i] == (team, entries_view(s.entries@)));
        }
    }
    assert(a =~= b);
}

/// Groups `(team, command)` pairs listed team by team into one section per
/// team on the given shelf.
pub fn sections_from_team_commands(results: Vec<(String, StoredCommand)>, shelf: &str) -> (r: Vec<OutputSection>)
    ensures
        team_sections_view(r@) == team_command_sections(team_entry_views(results@), shelf@),
        forall|k: int| 0 <= k < r@.len() ==> #[trigger] r@[k].source is SharedTeam,
{
    let ghost g = team_entry_views(results@);
    let count = results.len();
    let mut rest = results;
    let mut out: Vec<OutputSection> = Vec::new();
    let mut current_team: Option<String> = None;
    let mut current: Vec<OutputEntry> = Vec::new();
    let mut k: usize = 0;
    let ghost mut done: Seq<(Seq<char>, Seq<EntryView>)> = Seq::empty();
    assert(g.subrange(0, 0) =~= Seq::<(Seq<char>, EntryView)>::empty());
    assert(team_entry_views(rest@) =~= g.subrange(0, count as int));
    assert(team_sections_view(out@) =~= Seq::new(done.len(), |m: int| (done[m].0, shelf@, done[m].1)));
    while rest.len() > 0
        invariant
            count == g.len(),
            k + rest@.len() == count,
            team_entry_views(rest@) == g.subrange(k as int, count as int),
            team_sections_view(out@) == Seq::new(done.len(), |m: int| (done[m].0, shelf@, done[m].1)),
            forall|m: int| 0 <= m < out@.len() ==> #[trigger] out@[m].source is SharedTeam,
            runs_by_key(g.subrange(0, k as int)) == done + match current_team {
                Some(t) => seq![(t@, entries_view(current@))],
                None => Seq::empty(),
            },
            current_team is None ==> k == 0,
            current_team matches Some(t) ==> k > 0 && g[k - 1].0 == t@,
        decreases rest.len(),
    {
        let ghost ro = rest@;
        let (team, command) = rest.remove(0);
        assert(rest@ =~= ro.drop_first());
        assert(team_entry_views(ro)[0] == (team@, stored_entry_view(command)));
        assert(team_entry_views(rest@) =~= g.subrange(k + 1, count as int)) by {
            assert forall|i: int| 0 <= i < rest@.len() implies #[trigger] team_entry_views(rest@)[i]
                == g.subrange(k + 1, count as int)[i] by {
                assert(team_entry_views(ro)[i + 1] == (ro[i + 1].0@, stored_entry_view(ro[i + 1].1)));
            }
        }
        assert(g.subrange(0, k + 1).drop_last() =~= g.subrange(0, k as int));
        assert(g.subrange(0, k + 1).last() == (team@, stored_entry_view(command)));
        let same = match &current_team {
            Some(t) => str_eq(t.as_str(), team.as_str()),
            None => false,
        };
        let entry = OutputEntry::from_owned_command(command);
        if same {
            let ghost before = entries_view(current@);
            current.push(entry);
            assert(entries_view(current@) =~= before.push(entry.entry_view()));
        } else {
            if let Some(t) = current_team {
                let finished = current;
                let ghost bo = out@;
                let section = OutputSection::shared_team(t, String::from_str(shelf), finished);
                out.push(section);
                proof {
                    assert(out@ =~= bo.push(section));
                    lemma_team_sections_push(bo, done, section, t@, shelf@);
                    done = done.push((t@, entries_view(section.entries@)));
                    assert(team_sections_view(out@) =~= Seq::new(done.len(), |m: int| (done[m].0, shelf@, done[m].1)));
                }
            }
            current_team = Some(team);
            let mut fresh: Vec<OutputEntry> = Vec::new();
            fresh.push(entry);
            current = fresh;
            assert(entries_view(current@) =~= seq![entry.entry_view()]);
        }
        k = k + 1;
    }
    if let Some(t) = current_team {
        let ghost bo = out@;
        let section = OutputSection::shared_team(t, String::from_str(shelf), current);
        out.push(section);
        proof {
            assert(out@ =~= bo.push(section));
            lemma_team_sections_push(bo, done, section, t@, shelf@);
            done = done.push((t@, entries_view(section.entries@)));
            assert(team_sections_view(out@) =~= Seq::new(done.len(), |m: int| (done[m].0, shelf@, done[m].1)));
        }
    }
    assert(g.subrange(0, k as int) =~= g);
    assert(Seq::new(done.len(), |m: int| (done[m].0, shelf@, done[m].1)) =~= team_command_sections(g, shelf@));
    out
}

pub open spec fn stored_entries_view(cmds: Seq<StoredCommand>) -> Seq<EntryView> {
    Seq::new(cmds.len(), |k: int| stored_entry_view(cmds[k]))
}

fn entries_of(cmds: &Vec<&StoredCommand>) -> (r: Vec<OutputEntry>)
    ensures
        entries_view(r@) == stored_entries_view(cmds@.unref()),
{
    let mut out: Vec<OutputEntry> = Vec::new();
    let mut k: usize = 0;
    while k < cmds.len()
        invariant
            k <= cmds@.len(),
            entries_view(out@) == stored_entries_view(cmds@.unref()).subrange(0, k as int),
        decreases cmds.len() - k,
    {
        let ghost before = entries_view(out@);
        let e = OutputEntry::from_command(cmds[k]);
        out.push(e);
        assert(entries_view(out@) =~= before.push(e.entry_view()));
        assert(stored_entries_view(cmds@.unref()).subrange(0, k + 1) =~= stored_entries_view(cmds@.unref()).subrange(0, k as int).push(stored_entry_view(*cmds@[k as int])));
        k = k + 1;
    }
    assert(stored_entries_view(cmds@.unref()).subrange(0, k as int) =~= stored_entries_view(cmds@.unref()));
    out
}

/// The entries of a shelf to show: those matching the keywords, or all.
pub fn filter_commands(database: &CommandDatabase, shelf: &str, keywords: Option<&[String]>) -> (r: Vec<OutputEntry>)
    ensures
        entries_view(r@) == match keywords {
            Some(ks) => stored_entries_view(
                database.commands@.filter(
                    crate::database::query_fn(crate::database::string_views(ks@), Some(shelf@)),
                ),
            ),
            None => stored_entries_view(database.commands@),
        },
{
    match keywords {
        Some(ks) => {
            let found = database.search_in_shelf(ks, shelf);
            entries_of(&found)
        },
        None => {
            let mut refs: Vec<&StoredCommand> = Vec::new();
            let mut k: usize = 0;
            while k < database.commands.len()
                invariant
                    k <= database.commands@.len(),
                    refs@.len() == k,
                    refs@.unref() == database.commands@.subrange(0, k as int),
                decreases database.commands.len() - k,
            {
                let ghost before = refs@;
                refs.push(&database.commands[k]);
                assert(refs@ == before.push(&database.commands@[k as int]));
                assert forall|i: int| 0 <= i < k + 1 implies #[trigger] refs@.unref()[i]
                    == database.commands@.subrange(0, k + 1)[i] by {
                    if i < k {
                        assert(refs@[i] == before[i]);
                        assert(before.unref()[i] == *before[i]);
                        assert(refs@.unref()[i] == *refs@[i]);
                    } else {
                        assert(refs@.unref()[i] == *refs@[i]);
                    }
                }
                assert(refs@.unref() =~= database.commands@.subrange(0, k + 1));
                k = k + 1;
            }
            assert(database.commands@.subrange(0, k as int) =~= database.commands@);
            entries_of(&refs)
        },
    }
}

/// Which shared storage a default read covers.
#[derive(Debug, Clone, PartialEq, Eq)]
pub enum SharedReadTarget {
    Team(String),
    AllTeams,
}

impl SharedReadTarget {
    /// The read target of a configured default.
    pub fn from(value: DefaultSharedReadTarget) -> (r: Self)
        ensures
            match value {
                DefaultSharedReadTarget::Team(t) => r == SharedReadTarget::Team(t),
                DefaultSharedReadTarget::AllTeams => r == SharedReadTarget::AllTeams,
            },
    {
        match value {
            DefaultSharedReadTarget::Team(team) => SharedReadTarget::Team(team),
            DefaultSharedReadTarget::AllTeams => SharedReadTarget::AllTeams,
        }
    }
}

/// What a read without an explicit team covers.
#[derive(Debug, Clone, PartialEq, Eq)]
pub struct DefaultReadPlan {
    pub include_local: bool,
    pub shared_target: Option<SharedReadTarget>,
}

pub open spec fn target_of(default_target: Option<DefaultSharedReadTarget>) -> SharedReadTarget {
    match default_target {
        Some(DefaultSharedReadTarget::Team(t)) => SharedReadTarget::Team(t),
        Some(DefaultSharedReadTarget::AllTeams) => SharedReadTarget::AllTeams,
        None => SharedReadTarget::AllTeams,
    }
}

/// The plan of a read: `--local-only` reads only local shelves; `--shared-only`
/// reads only the configured default shared target (all teams if none) and
/// needs shared storage; otherwise local shelves and, when shared storage is
/// configured, the default shared target too.
pub fn resolve_default_read_plan(
    local_only: bool,
    shared_only: bool,
    has_shared_storage: bool,
    default_target: Option<DefaultSharedReadTarget>,
) -> (r: Result<DefaultReadPlan, String>)
    ensures
        if local_only {
            r == Ok::<DefaultReadPlan, String>(DefaultReadPlan { include_local: true, shared_target: None })
        } else if shared_only {
            if has_shared_storage {
                r == Ok::<DefaultReadPlan, String>(
                    DefaultReadPlan { include_local: false, shared_target: Some(target_of(default_target)) },
                )
            } else {
                r matches Err(e) && e@ == crate::config::shared_repository_required()
            }
        } else {
            r == Ok::<DefaultReadPlan, String>(
                DefaultReadPlan {
                    include_local: true,
                    shared_target: if has_shared_storage {
                        Some(target_of(default_target))
                    } else {
                        None
                    },
                },
            )
        },
{
    if local_only {
        return Ok(DefaultReadPlan { include_local: true, shared_target: None });
    }
    let target = match default_target {
        Some(t) => SharedReadTarget::from(t),
        None => SharedReadTarget::AllTeams,
    };
    if shared_only {
        if !has_shared_storage {
            return Err(String::from_str(crate::config::shared_repository_required_message()));
        }
        return Ok(DefaultReadPlan { include_local: false, shared_target: Some(target) });
    }
    Ok(
        DefaultReadPlan {
            include_local: true,
            shared_target: if has_shared_storage {
                Some(target)
            } else {
                None
            },
        },
    )
}

/// Local entries of a shelf next to the team sections read with them: the
/// local copies of team commands are hidden, and the local section comes
/// first when anything is left in it. Returns the sections and how many local
/// entries were hidden.
pub fn combine_default_sections(
    local_db: &CommandDatabase,
    shelf: &str,
    keywords: Option<&[String]>,
    include_local: bool,
    shared_sections: Vec<OutputSection>,
) -> (r: (Vec<OutputSection>, usize))
    ensures
        ({
            let local = if include_local {
                match keywords {
                    Some(ks) => stored_entries_view(
                        local_db.commands@.filter(
                            crate::database::query_fn(crate::database::string_views(ks@), Some(shelf@)),
                        ),
                    ),
                    None => stored_entries_view(local_db.commands@),
                }
            } else {
                Seq::empty()
            };
            let kept = without_commands(local, shared_command_set(shared_sections@));
            &&& r.1 == local.len() - kept.len()
            &&& kept.len() == 0 ==> sections_view(r.0@) == sections_view(shared_sections@)
            &&& kept.len() > 0 ==> {
                &&& r.0@.len() == shared_sections@.len() + 1
                &&& r.0@[0].source matches OutputSectionSource::Local { shelf: s } && s@ == shelf@
                &&& entries_view(r.0@[0].entries@) == kept
                &&& sections_view(r.0@).drop_first() == sections_view(shared_sections@)
            }
        }),
{
    let mut local: Vec<OutputEntry> = if include_local {
        filter_commands(local_db, shelf, keywords)
    } else {
        Vec::new()
    };
    assert(!include_local ==> entries_view(local@) =~= Seq::<EntryView>::empty());
    let hidden = hide_local_duplicates(&mut local, &shared_sections);
    let mut sections: Vec<OutputSection> = Vec::new();
    let ghost shared_view = sections_view(shared_sections@);
    if local.len() > 0 {
        sections.push(OutputSection::local(String::from_str(shelf), local));
    }
    let ghost front = sections_view(sections@);
    let mut rest = shared_sections;
    let count = rest.len();
    let mut k: usize = 0;
    assert(sections_view(rest@) =~= shared_view.subrange(0, count as int));
    assert(sections_view(sections@) =~= front + shared_view.subrange(0, 0));
    while rest.len() > 0
        invariant
            count == shared_view.len(),
            k + rest@.len() == count,
            sections_view(rest@) == shared_view.subrange(k as int, count as int),
            sections_view(sections@) == front + shared_view.subrange(0, k as int),
        decreases rest.len(),
    {
        let ghost ro = rest@;
        let sec = rest.remove(0);
        assert(rest@ =~= ro.drop_first());
        assert(sections_view(ro)[0] == (sec.source, entries_view(sec.entries@)));
        assert(sections_view(rest@) =~= shared_view.subrange(k + 1, count as int)) by {
            assert forall|i: int| 0 <= i < rest@.len() implies #[trigger] sections_view(rest@)[i]
                == shared_view.subrange(k + 1, count as int)[i] by {
                assert(sections_view(ro)[i + 1] == (ro[i + 1].source, entries_view(ro[i + 1].entries@)));
            }
        }
        let ghost before = sections@;
        sections.push(sec);
        assert(sections_view(sections@) =~= sections_view(before).push((sec.source, entries_view(sec.entries@))));
        assert(shared_view.subrange(0, k + 1) =~= shared_view.subrange(0, k as int).push(shared_view[k as int]));
        k = k + 1;
    }
    assert(shared_view.subrange(0, k as int) =~= shared_view);
    proof {
        if front.len() > 0 {
            assert(sections_view(sections@)[0] == (sections@[0].source, entries_view(sections@[0].entries@)));
            assert(sections_view(sections@).drop_first() =~= shared_view);
        } else {
            assert(sections_view(sections@) =~= shared_view);
        }
    }
    (sections, hidden)
}

/// Counts shown with a listing.
#[derive(Debug, Clone, Copy, PartialEq, Eq)]
pub struct OutputSummary {
    pub hidden_local_duplicates: usize,
    pub hidden_due_to_limit: usize,
    pub active_limit: Option<usize>,
    pub search_limit: bool,
}

impl OutputSummary {
    pub fn default() -> (r: Self)
        ensures
            r.hidden_local_duplicates == 0,
            r.hidden_due_to_limit == 0,
            r.active_limit is None,
            !r.search_limit,
    {
        OutputSummary { hidden_local_duplicates: 0, hidden_due_to_limit: 0, active_limit: None, search_limit: false }
    }
}

/// `[n] description`, or `[n]` without a description.
pub open spec fn entry_label(n: nat, description: Option<Seq<char>>) -> Seq<char> {
    "["@ + decimal(n) + "]"@ + match description {
        Some(d) => " "@ + d,
        None => Seq::empty(),
    }
}

/// The lines of a section's entries: label and command, a blank line between entries.
pub open spec fn entry_lines(es: Seq<EntryView>) -> Seq<Seq<char>>
    decreases es.len(),
{
    if es.len() == 0 {
        Seq::empty()
    } else {
        let r = entry_lines(es.drop_last());
        let sep = if es.len() > 1 {
            seq![Seq::<char>::empty()]
        } else {
            Seq::empty()
        };
        r + sep + seq![entry_label(es.len() as nat, es.last().description), es.last().command]
    }
}

pub open spec fn header_line(title: Seq<char>) -> Seq<char> {
    "=== "@ + uppercase(title) + " ==="@
}

/// The lines of the sections that have entries, a blank line between sections.
pub open spec fn section_block_lines(secs: Seq<(OutputSectionSource, Seq<EntryView>)>) -> Seq<Seq<char>>
    decreases secs.len(),
{
    if secs.len() == 0 {
        Seq::empty()
    } else {
        let r = section_block_lines(secs.drop_last());
        let (source, es) = secs.last();
        if es.len() == 0 {
            r
        } else {
            let sep = if r.len() > 0 {
                seq![Seq::<char>::empty()]
            } else {
                Seq::empty()
            };
            r + sep + seq![header_line(source_title(source)), Seq::<char>::empty()] + entry_lines(es)
        }
    }
}

pub open spec fn opt_line(o: Option<Seq<char>>) -> Seq<Seq<char>> {
    match o {
        Some(l) => seq![l],
        None => Seq::empty(),
    }
}

/// What a listing prints: the sections with entries, then the notes on hidden
/// commands after a blank line; or the empty message when no section has entries.
pub open spec fn listing_lines(
    secs: Seq<(OutputSectionSource, Seq<EntryView>)>,
    empty: Seq<char>,
    summary: OutputSummary,
) -> Seq<Seq<char>> {
    let body = section_block_lines(secs);
    if body.len() == 0 {
        seq![empty]
    } else {
        let dup = duplicate_hidden_message(summary.hidden_local_duplicates as nat);
        let lim = limit_hidden_message(summary.hidden_due_to_limit as nat, summary.active_limit, summary.search_limit);
        let notes = opt_line(dup) + opt_line(lim);
        body + if notes.len() > 0 {
            seq![Seq::<char>::empty()] + notes
        } else {
            Seq::empty()
        }
    }
}

fn push_line(lines: &mut Vec<String>, line: String)
    ensures
        final(lines).deep_view() == old(lines).deep_view().push(line@),
{
    let ghost before = lines.deep_view();
    lines.push(line);
    assert(lines.deep_view() =~= before.push(line@));
}

fn label_line(n: usize, description: &Option<String>) -> (r: String)
    ensures
        r@ == entry_label(n as nat, opt_view(*description)),
{
    let mut l = String::from_str("[");
    let d = decimal_string(n);
    l.append(d.as_str());
    l.append("]");
    if let Some(text) = description {
        l.append(" ");
        l.append(text.as_str());
    }
    l
}

fn append_entry_lines(lines: &mut Vec<String>, entries: &Vec<OutputEntry>)
    ensures
        final(lines).deep_view() == old(lines).deep_view() + entry_lines(entries_view(entries@)),
{
    let ghost start = lines.deep_view();
    let ghost ev = entries_view(entries@);
    let mut i: usize = 0;
    assert(ev.subrange(0, 0) =~= Seq::<EntryView>::empty());
    assert(lines.deep_view() =~= start + entry_lines(ev.subrange(0, 0)));
    while i < entries.len()
        invariant
            i <= entries@.len(),
            ev == entries_view(entries@),
            lines.deep_view() == start + entry_lines(ev.subrange(0, i as int)),
        decreases entries.len() - i,
    {
        let ghost before = lines.deep_view();
        assert(ev.subrange(0, i + 1).drop_last() =~= ev.subrange(0, i as int));
        assert(ev.subrange(0, i + 1).last() == entries@[i as int].entry_view());
        if i > 0 {
            push_line(lines, String::new());
        }
        let label = label_line(i + 1, &entries[i].description);
        push_line(lines, label);
        push_line(lines, entries[i].command.clone());
        let ghost sep = if i + 1 > 1 {
            seq![Seq::<char>::empty()]
        } else {
            Seq::<Seq<char>>::empty()
        };
        assert(lines.deep_view() =~= before + sep + seq![
            entry_label((i + 1) as nat, opt_view(entries@[i as int].description)),
            entries@[i as int].command@,
        ]);
        i = i + 1;
    }
    assert(ev.subrange(0, i as int) =~= ev);
}

/// The lines a listing prints.
pub fn section_lines(sections: &Vec<OutputSection>, empty_message: &str, summary: &OutputSummary) -> (r: Vec<String>)
    ensures
        r.deep_view() == listing_lines(sections_view(sections@), empty_message@, *summary),
{
    let ghost sv = sections_view(sections@);
    let mut lines: Vec<String> = Vec::new();
    let mut k: usize = 0;
    assert(sv.subrange(0, 0) =~= Seq::<(OutputSectionSource, Seq<EntryView>)>::empty());
    assert(lines.deep_view() =~= section_block_lines(sv.subrange(0, 0)));
    while k < sections.len()
        invariant
            k <= sections@.len(),
            sv == sections_view(sections@),
            lines.deep_view() == section_block_lines(sv.subrange(0, k as int)),
        decreases sections.len() - k,
    {
        let ghost before = lines.deep_view();
        assert(sv.subrange(0, k + 1).drop_last() =~= sv.subrange(0, k as int));
        assert(sv.subrange(0, k + 1).last() == (sections@[k as int].source, entries_view(sections@[k as int].entries@)));
        if sections[k].entries.len() > 0 {
            if lines.len() > 0 {
                push_line(&mut lines, String::new());
            }
            let title = sections[k].title();
            let header = format_section_header(title.as_str());
            push_line(&mut lines, header);
            push_line(&mut lines, String::new());
            append_entry_lines(&mut lines, &sections[k].entries);
            let ghost sep = if before.len() > 0 {
                seq![Seq::<char>::empty()]
            } else {
                Seq::<Seq<char>>::empty()
            };
            assert(lines.deep_view() =~= before + sep + seq![
                header_line(source_title(sections@[k as int].source)),
                Seq::<char>::empty(),
            ] + entry_lines(entries_view(sections@[k as int].entries@)));
        }
        k = k + 1;
    }
    assert(sv.subrange(0, k as int) =~= sv);
    if lines.len() == 0 {
        let mut only: Vec<String> = Vec::new();
        push_line(&mut only, String::from_str(empty_message));
        assert(only.deep_view() =~= seq![empty_message@]);
        return only;
    }
    let ghost body = lines.deep_view();
    let dup = format_duplicate_hidden_message(summary.hidden_local_duplicates);
    let lim = format_limit_hidden_message(summary.hidden_due_to_limit, summary.active_limit, summary.search_limit);
    if dup.is_some() || lim.is_some() {
        push_line(&mut lines, String::new());
    }
    let ghost mid = lines.deep_view();
    match dup {
        Some(m) => push_line(&mut lines, m),
        None => {},
    }
    let ghost mid2 = lines.deep_view();
    match lim {
        Some(m) => push_line(&mut lines, m),
        None => {},
    }
    proof {
        let notes = opt_line(opt_view(dup)) + opt_line(opt_view(lim));
        assert(mid2 =~= mid + opt_line(opt_view(dup)));
        assert(lines.deep_view() =~= mid + notes);
        if notes.len() > 0 {
            assert(lines.deep_view() =~= body + (seq![Seq::<char>::empty()] + notes));
        } else {
            assert(lines.deep_view() =~= body + Seq::<Seq<char>>::empty());
        }
    }
    lines
}

/// Local sections next to the team sections of a search: the local copies of
/// team commands are hidden, local sections come first. Returns the sections
/// and how many local entries were hidden.
pub fn combine_search_sections(
    local_sections: Vec<OutputSection>,
    shared_sections: Vec<OutputSection>,
) -> (r: (Vec<OutputSection>, usize))
    requires
        total(section_sizes(local_sections@)) <= usize::MAX,
    ensures
        sections_view(r.0@) == sections_without_shared(local_sections@, shared_command_set(shared_sections@))
            + sections_view(shared_sections@),
        r.1 + total(section_sizes(r.0@.subrange(0, local_sections@.len() as int))) == total(
            section_sizes(local_sections@),
        ),
{
    let mut sections = local_sections;
    let hidden = hide_local_duplicates_in_sections(&mut sections, &shared_sections);
    let ghost front = sections@;
    let ghost shared_view = sections_view(shared_sections@);
    let mut rest = shared_sections;
    let count = rest.len();
    let mut k: usize = 0;
    assert(sections_view(rest@) =~= shared_view.subrange(0, count as int));
    assert(sections@ =~= front + shared_sections@.subrange(0, 0));
    while rest.len() > 0
        invariant
            count == shared_view.len(),
            k + rest@.len() == count,
            sections_view(rest@) == shared_view.subrange(k as int, count as int),
            front.len() <= sections@.len(),
            sections@.subrange(0, front.len() as int) == front,
            sections_view(sections@) == sections_view(front) + shared_view.subrange(0, k as int),
        decreases rest.len(),
    {
        let ghost ro = rest@;
        let sec = rest.remove(0);
        assert(rest@ =~= ro.drop_first());
        assert(sections_view(ro)[0] == (sec.source, entries_view(sec.entries@)));
        assert(sections_view(rest@) =~= shared_view.subrange(k + 1, count as int)) by {
            assert forall|i: int| 0 <= i < rest@.len() implies #[trigger] sections_view(rest@)[i]
                == shared_view.subrange(k + 1, count as int)[i] by {
                assert(sections_view(ro)[i + 1] == (ro[i + 1].source, entries_view(ro[i + 1].entries@)));
            }
        }
        let ghost before = sections@;
        sections.push(sec);
        assert(sections@.subrange(0, front.len() as int) =~= before.subrange(0, front.len() as int));
        assert(sections_view(sections@) =~= sections_view(before).push((sec.source, entries_view(sec.entries@))));
        assert(shared_view.subrange(0, k + 1) =~= shared_view.subrange(0, k as int).push(shared_view[k as int]));
        k = k + 1;
    }
    assert(shared_view.subrange(0, k as int) =~= shared_view);
    assert(sections_view(front).len() == local_sections@.len());
    (sections, hidden)
}

/// The lines of shelf sections: a header and numbered shelves per section with
/// shelves, a blank line between sections.
pub open spec fn shelf_block_lines(secs: Seq<(Seq<char>, Seq<Seq<char>>)>) -> Seq<Seq<char>>
    decreases secs.len(),
{
    if secs.len() == 0 {
        Seq::empty()
    } else {
        let r = shelf_block_lines(secs.drop_last());
        let (title, shelves) = secs.last();
        if shelves.len() == 0 {
            r
        } else {
            let sep = if r.len() > 0 {
                seq![Seq::<char>::empty()]
            } else {
                Seq::empty()
            };
            r + sep + seq![header_line(title), Seq::<char>::empty()] + Seq::new(
                shelves.len(),
                |i: int| "["@ + decimal((i + 1) as nat) + "] "@ + shelves[i],
            )
        }
    }
}

pub open spec fn shelf_listing_lines(secs: Seq<(Seq<char>, Seq<Seq<char>>)>, empty: Seq<char>) -> Seq<Seq<char>> {
    if shelf_block_lines(secs).len() == 0 {
        seq![empty]
    } else {
        shelf_block_lines(secs)
    }
}

/// The lines a shelf listing prints.
pub fn shelf_section_lines(sections: &Vec<ShelfSection>, empty_message: &str) -> (r: Vec<String>)
    ensures
        r.deep_view() == shelf_listing_lines(shelf_sections_view(sections@), empty_message@),
{
    let ghost sv = shelf_sections_view(sections@);
    let mut lines: Vec<String> = Vec::new();
    let mut k: usize = 0;
    assert(sv.subrange(0, 0) =~= Seq::<(Seq<char>, Seq<Seq<char>>)>::empty());
    assert(lines.deep_view() =~= shelf_block_lines(sv.subrange(0, 0)));
    while k < sections.len()
        invariant
            k <= sections@.len(),
            sv == shelf_sections_view(sections@),
            lines.deep_view() == shelf_block_lines(sv.subrange(0, k as int)),
        decreases sections.len() - k,
    {
        let ghost before = lines.deep_view();
        assert(sv.subrange(0, k + 1).drop_last() =~= sv.subrange(0, k as int));
        assert(sv.subrange(0, k + 1).last() == shelf_section_view(sections@[k as int]));
        let shelves = &sections[k].shelves;
        if shelves.len() > 0 {
            if lines.len() > 0 {
                push_line(&mut lines, String::new());
            }
            let header = format_section_header(sections[k].title.as_str());
            push_line(&mut lines, header);
            push_line(&mut lines, String::new());
            let ghost mid = lines.deep_view();
            let ghost sh = shelves.deep_view();
            let mut i: usize = 0;
            while i < shelves.len()
                invariant
                    i <= shelves@.len(),
                    sh == shelves.deep_view(),
                    lines.deep_view() == mid + Seq::new(i as nat, |j: int| "["@ + decimal((j + 1) as nat) + "] "@ + sh[j]),
                decreases shelves.len() - i,
            {
                let mut l = String::from_str("[");
                let d = decimal_string(i + 1);
                l.append(d.as_str());
                l.append("] ");
                l.append(shelves[i].as_str());
                let ghost b2 = lines.deep_view();
                push_line(&mut lines, l);
                assert(lines.deep_view() =~= mid + Seq::new((i + 1) as nat, |j: int| "["@ + decimal((j + 1) as nat) + "] "@ + sh[j]));
                i = i + 1;
            }
            let ghost sep = if before.len() > 0 {
                seq![Seq::<char>::empty()]
            } else {
                Seq::<Seq<char>>::empty()
            };
            assert(lines.deep_view() =~= before + sep + seq![header_line(sections@[k as int].title@), Seq::<char>::empty()]
                + Seq::new(sh.len(), |j: int| "["@ + decimal((j + 1) as nat) + "] "@ + sh[j]));
        }
        k = k + 1;
    }
    assert(sv.subrange(0, k as int) =~= sv);
    if lines.len() == 0 {
        let mut only: Vec<String> = Vec::new();
        push_line(&mut only, String::from_str(empty_message));
        assert(only.deep_view() =~= seq![empty_message@]);
        return only;
    }
    lines
}

/// One shelf of a shelf listing as JSON reports it.
#[derive(Debug, Clone, PartialEq, Eq)]
pub struct ShelfResult {
    pub source: String,
    pub team: Option<String>,
    pub shelf: String,
}

pub open spec fn shelf_result_view(r: ShelfResult) -> (Seq<char>, Option<Seq<char>>, Seq<char>) {
    (r.source@, opt_view(r.team), r.shelf@)
}

/// The shelves of shelf sections with their source: sections titled
/// `Shared / <team>` are the team's, the others local.
pub open spec fn shelf_results_of(secs: Seq<(Seq<char>, Seq<Seq<char>>)>) -> Seq<(Seq<char>, Option<Seq<char>>, Seq<char>)>
    decreases secs.len(),
{
    if secs.len() == 0 {
        Seq::empty()
    } else {
        let (title, shelves) = secs.last();
        let team = crate::text::strip_prefix(title, "Shared / "@);
        let source = if team is Some {
            "shared"@
        } else {
            "local"@
        };
        shelf_results_of(secs.drop_last()) + Seq::new(shelves.len(), |i: int| (source, team, shelves[i]))
    }
}

/// The shelves of a shelf listing as JSON reports them.
pub fn shelf_results(sections: &Vec<ShelfSection>) -> (r: Vec<ShelfResult>)
    ensures
        Seq::new(r@.len(), |i: int| shelf_result_view(r@[i])) == shelf_results_of(shelf_sections_view(sections@)),
{
    let ghost sv = shelf_sections_view(sections@);
    let mut out: Vec<ShelfResult> = Vec::new();
    let mut k: usize = 0;
    assert(sv.subrange(0, 0) =~= Seq::<(Seq<char>, Seq<Seq<char>>)>::empty());
    while k < sections.len()
        invariant
            k <= sections@.len(),
            sv == shelf_sections_view(sections@),
            Seq::new(out@.len(), |i: int| shelf_result_view(out@[i])) == shelf_results_of(sv.subrange(0, k as int)),
        decreases sections.len() - k,
    {
        assert(sv.subrange(0, k + 1).drop_last() =~= sv.subrange(0, k as int));
        assert(sv.subrange(0, k + 1).last() == shelf_section_view(sections@[k as int]));
        let team = crate::text::strip_prefix_str(sections[k].title.as_str(), "Shared / ");
        let ghost start = Seq::new(out@.len(), |i: int| shelf_result_view(out@[i]));
        let ghost src: Seq<char> = if team is Some { "shared"@ } else { "local"@ };
        let shelves = &sections[k].shelves;
        let ghost sh = shelves.deep_view();
        let mut i: usize = 0;
        while i < shelves.len()
            invariant
                i <= shelves@.len(),
                sh == shelves.deep_view(),
                src == (if team is Some { "shared"@ } else { "local"@ }),
                Seq::new(out@.len(), |j: int| shelf_result_view(out@[j])) == start + Seq::new(i as nat, |j: int| (src, opt_view(team), sh[j])),
            decreases shelves.len() - i,
        {
            let ghost before = out@;
            let source = if team.is_some() {
                String::from_str("shared")
            } else {
                String::from_str("local")
            };
            let t = match &team {
                Some(x) => Some(x.clone()),
                None => None,
            };
            let item = ShelfResult { source, team: t, shelf: shelves[i].clone() };
            out.push(item);
            assert(Seq::new(out@.len(), |j: int| shelf_result_view(out@[j])) =~= Seq::new(before.len(), |j: int| shelf_result_view(before[j])).push(shelf_result_view(item)));
            assert(Seq::new(out@.len(), |j: int| shelf_result_view(out@[j])) =~= start + Seq::new((i + 1) as nat, |j: int| (src, opt_view(team), sh[j])));
            i = i + 1;
        }
        k = k + 1;
    }
    assert(sv.subrange(0, k as int) =~= sv);
    out
}

/// Where a JSON result comes from.
#[derive(Debug, Clone, PartialEq, Eq)]
pub enum ResultSource {
    Local,
    Shared { team: String },
}

/// One command as JSON reports it.
#[derive(Debug, Clone, PartialEq, Eq)]
pub struct CommandResult {
    pub command_ref: Option<String>,
    pub name: Option<String>,
    pub description: Option<String>,
    pub command: String,
    pub parameters: Vec<String>,
    pub source: ResultSource,
    pub shelf: String,
    pub template: Option<String>,
}

/// A JSON result as plain values; `team` is the team of a shared result.
pub struct ResultView {
    pub command_ref: Option<Seq<char>>,
    pub name: Option<Seq<char>>,
    pub description: Option<Seq<char>>,
    pub command: Seq<char>,
    pub parameters: Seq<Seq<char>>,
    pub team: Option<Seq<char>>,
    pub shelf: Seq<char>,
    pub template: Option<Seq<char>>,
}

pub open spec fn result_view(r: CommandResult) -> ResultView {
    ResultView {
        command_ref: opt_view(r.command_ref),
        name: opt_view(r.name),
        description: opt_view(r.description),
        command: r.command@,
        parameters: r.parameters.deep_view(),
        team: match r.source {
            ResultSource::Shared { team } => Some(team@),
            ResultSource::Local => None,
        },
        shelf: r.shelf@,
        template: opt_view(r.template),
    }
}

pub open spec fn results_view(v: Seq<CommandResult>) -> Seq<ResultView> {
    Seq::new(v.len(), |k: int| result_view(v[k]))
}

/// The reference of a named entry: `local/<shelf>/<name>` or
/// `shared/<team>/<shelf>/<name>`.
pub open spec fn entry_ref(source: OutputSectionSource, name: Seq<char>) -> Seq<char> {
    match source {
        OutputSectionSource::Local { shelf } => "local/"@ + shelf@ + "/"@ + name,
        OutputSectionSource::SharedTeam { team, shelf } => "shared/"@ + team@ + "/"@ + shelf@ + "/"@ + name,
    }
}

/// The text whose parameters a named entry reports: its template, else its command.
pub open spec fn template_text(e: EntryView) -> Seq<char> {
    match e.template {
        Some(t) => t,
        None => e.command,
    }
}

/// A named entry's template can be scanned.
pub open spec fn entry_scannable(e: EntryView) -> bool {
    e.name is Some ==> !(scan_template(template_text(e)) is Stuck)
}

/// The JSON result of an entry: the parameters of named entries come from
/// their template, and a malformed template is an error.
pub open spec fn entry_result(source: OutputSectionSource, e: EntryView) -> Result<ResultView, Seq<char>> {
    let params: Result<Seq<Seq<char>>, Seq<char>> = match e.name {
        None => Ok(Seq::empty()),
        Some(_) => match scan_template(template_text(e)) {
            Scan::Done(found) => Ok(
                crate::sorted::sorted_of(slot_names(found).to_set()),
            ),
            Scan::Fail(m) => Err(m),
            Scan::Stuck => Err(Seq::empty()),
        },
    };
    match params {
        Err(m) => Err(m),
        Ok(p) => Ok(
            ResultView {
                command_ref: match e.name {
                    Some(n) => Some(entry_ref(source, n)),
                    None => None,
                },
                name: e.name,
                description: e.description,
                command: e.command,
                parameters: p,
                team: match source {
                    OutputSectionSource::SharedTeam { team, .. } => Some(team@),
                    OutputSectionSource::Local { .. } => None,
                },
                shelf: match source {
                    OutputSectionSource::SharedTeam { shelf, .. } => shelf@,
                    OutputSectionSource::Local { shelf } => shelf@,
                },
                template: e.template,
            },
        ),
    }
}

/// Each entry of the sections with its section's source, in order.
pub open spec fn flat_entries(secs: Seq<(OutputSectionSource, Seq<EntryView>)>) -> Seq<(OutputSectionSource, EntryView)>
    decreases secs.len(),
{
    if secs.len() == 0 {
        Seq::empty()
    } else {
        let (source, es) = secs.last();
        flat_entries(secs.drop_last()) + Seq::new(es.len(), |i: int| (source, es[i]))
    }
}

/// The results of the items, or the error of the first that fails.
pub open spec fn results_of(items: Seq<(OutputSectionSource, EntryView)>) -> Result<Seq<ResultView>, Seq<char>>
    decreases items.len(),
{
    if items.len() == 0 {
        Ok(Seq::empty())
    } else {
        match results_of(items.drop_last()) {
            Err(e) => Err(e),
            Ok(r) => match entry_result(items.last().0, items.last().1) {
                Err(e) => Err(e),
                Ok(x) => Ok(r.push(x)),
            },
        }
    }
}

proof fn lemma_results_err_extends(items: Seq<(OutputSectionSource, EntryView)>, n: int, e: Seq<char>)
    requires
        0 <= n <= items.len(),
        results_of(items.subrange(0, n)) == Err::<Seq<ResultView>, Seq<char>>(e),
    ensures
        results_of(items) == Err::<Seq<ResultView>, Seq<char>>(e),
    decreases items.len() - n,
{
    if n < items.len() {
        assert(items.subrange(0, n + 1).drop_last() =~= items.subrange(0, n));
        lemma_results_err_extends(items, n + 1, e);
    } else {
        assert(items.subrange(0, n) =~= items);
    }
}

proof fn lemma_flat_prefix(secs: Seq<(OutputSectionSource, Seq<EntryView>)>, k: int)
    requires
        0 <= k <= secs.len(),
    ensures
        flat_entries(secs.subrange(0, k)).len() <= flat_entries(secs).len(),
        flat_entries(secs).subrange(0, flat_entries(secs.subrange(0, k)).len() as int) == flat_entries(
            secs.subrange(0, k),
        ),
    decreases secs.len() - k,
{
    if k < secs.len() {
        lemma_flat_prefix(secs, k + 1);
        let a = secs.subrange(0, k + 1);
        assert(a.drop_last() =~= secs.subrange(0, k));
        let fa = flat_entries(a);
        let fk = flat_entries(secs.subrange(0, k));
        assert(fa.subrange(0, fk.len() as int) =~= fk);
        assert(flat_entries(secs).subrange(0, fk.len() as int) =~= fa.subrange(0, fk.len() as int));
    } else {
        assert(secs.subrange(0, k) =~= secs);
        assert(flat_entries(secs).subrange(0, flat_entries(secs).len() as int) =~= flat_entries(secs));
    }
}

fn entry_ref_text(source: &OutputSectionSource, name: &str) -> (r: String)
    ensures
        r@ == entry_ref(*source, name@),
{
    match source {
        OutputSectionSource::Local { shelf } => {
            let mut t = String::from_str("local/");
            t.append(shelf.as_str());
            t.append("/");
            t.append(name);
            t
        },
        OutputSectionSource::SharedTeam { team, shelf } => {
            let mut t = String::from_str("shared/");
            t.append(team.as_str());
            t.append("/");
            t.append(shelf.as_str());
            t.append("/");
            t.append(name);
            t
        },
    }
}

fn copy_opt(o: &Option<String>) -> (r: Option<String>)
    ensures
        opt_view(r) == opt_view(*o),
{
    match o {
        Some(s) => Some(s.clone()),
        None => None,
    }
}

/// The JSON result of one entry of a section.
pub fn entry_to_result(source: &OutputSectionSource, entry: &OutputEntry) -> (r: Result<CommandResult, String>)
    requires
        entry_scannable(entry.entry_view()),
    ensures
        match entry_result(*source, entry.entry_view()) {
            Ok(x) => r matches Ok(y) && result_view(y) == x,
            Err(m) => r matches Err(e) && e@ == m,
        },
{
    let parameters = match &entry.name {
        None => Vec::new(),
        Some(_) => {
            let text = match &entry.template {
                Some(t) => t.as_str(),
                None => entry.command.as_str(),
            };
            match crate::template::parameters(text) {
                Ok(p) => p,
                Err(e) => {
                    return Err(e);
                },
            }
        },
    };
    assert(entry.name is None ==> parameters.deep_view() =~= Seq::<Seq<char>>::empty());
    let command_ref = match &entry.name {
        Some(n) => Some(entry_ref_text(source, n.as_str())),
        None => None,
    };
    let (result_source, shelf) = match source {
        OutputSectionSource::Local { shelf } => (ResultSource::Local, shelf.clone()),
        OutputSectionSource::SharedTeam { team, shelf } => (ResultSource::Shared { team: team.clone() }, shelf.clone()),
    };
    Ok(
        CommandResult {
            command_ref,
            name: copy_opt(&entry.name),
            description: copy_opt(&entry.description),
            command: entry.command.clone(),
            parameters,
            source: result_source,
            shelf,
            template: copy_opt(&entry.template),
        },
    )
}

/// The JSON results of the sections' entries in order, or the error of the
/// first named entry whose template is malformed.
pub fn sections_to_json_results(sections: &Vec<OutputSection>) -> (r: Result<Vec<CommandResult>, String>)
    requires
        forall|k: int| 0 <= k < flat_entries(sections_view(sections@)).len() ==> entry_scannable(
            #[trigger] flat_entries(sections_view(sections@))[k].1,
        ),
    ensures
        match results_of(flat_entries(sections_view(sections@))) {
            Ok(x) => r matches Ok(v) && results_view(v@) == x,
            Err(m) => r matches Err(e) && e@ == m,
        },
{
    let ghost sv = sections_view(sections@);
    let ghost all = flat_entries(sv);
    let mut out: Vec<CommandResult> = Vec::new();
    let mut k: usize = 0;
    assert(sv.subrange(0, 0) =~= Seq::<(OutputSectionSource, Seq<EntryView>)>::empty());
    assert(results_view(out@) =~= Seq::<ResultView>::empty());
    while k < sections.len()
        invariant
            k <= sections@.len(),
            sv == sections_view(sections@),
            all == flat_entries(sv),
            forall|m: int| 0 <= m < all.len() ==> entry_scannable(#[trigger] all[m].1),
            results_of(flat_entries(sv.subrange(0, k as int))) == Ok::<Seq<ResultView>, Seq<char>>(results_view(out@)),
        decreases sections.len() - k,
    {
        let ghost pre = flat_entries(sv.subrange(0, k as int));
        let ghost sec_view = sv[k as int];
        assert(sv.subrange(0, k + 1).drop_last() =~= sv.subrange(0, k as int));
        assert(sv.subrange(0, k + 1).last() == sec_view);
        assert(sec_view == (sections@[k as int].source, entries_view(sections@[k as int].entries@)));
        let ghost es = sec_view.1;
        let ghost full = pre + Seq::new(es.len(), |i: int| (sec_view.0, es[i]));
        assert(full == flat_entries(sv.subrange(0, k + 1)));
        proof {
            lemma_flat_prefix(sv, k + 1);
        }
        let source = &sections[k].source;
        let entries = &sections[k].entries;
        let mut i: usize = 0;
        assert(full.subrange(0, pre.len() as int) =~= pre);
        while i < entries.len()
            invariant
                i <= entries@.len(),
                es == entries_view(entries@),
                sec_view.0 == *source,
                full == pre + Seq::new(es.len(), |j: int| (sec_view.0, es[j])),
                full.len() <= all.len(),
                sv == sections_view(sections@),
                all == flat_entries(sv),
                all.subrange(0, full.len() as int) == full,
                forall|m: int| 0 <= m < all.len() ==> entry_scannable(#[trigger] all[m].1),
                results_of(full.subrange(0, pre.len() + i)) == Ok::<Seq<ResultView>, Seq<char>>(results_view(out@)),
            decreases entries.len() - i,
        {
            let ghost n = pre.len() + i;
            assert(full.subrange(0, n + 1).drop_last() =~= full.subrange(0, n));
            assert(full[n] == (sec_view.0, es[i as int]));
            assert(full.subrange(0, n + 1).last() == full[n]);
            assert(es[i as int] == entries@[i as int].entry_view());
            assert(all[n] == full[n]);
            assert(entry_scannable(all[n].1));
            match entry_to_result(source, &entries[i]) {
                Ok(x) => {
                    let ghost before = out@;
                    out.push(x);
                    assert(results_view(out@) =~= results_view(before).push(result_view(x)));
                },
                Err(e) => {
                    proof {
                        assert(results_of(full.subrange(0, n + 1)) == Err::<Seq<ResultView>, Seq<char>>(e@));
                        assert(all.subrange(0, n + 1) =~= full.subrange(0, n + 1));
                        lemma_results_err_extends(all, n + 1, e@);
                    }
                    return Err(e);
                },
            }
            i = i + 1;
        }
        assert(full.subrange(0, pre.len() + i) =~= full);
        k = k + 1;
    }
    assert(sv.subrange(0, k as int) =~= sv);
    Ok(out)
}

} // verus!
