//! The command database of one shelf: stored entries, adding, saving, merging
//! and keyword search.
use crate::keywords::{extract_keywords, is_keyword_list, keyword_candidates};
use crate::sorted::{sorted_unique, strictly_sorted};
use crate::text::{
    utf8_len, utf8_length, chars_vec, contains_chars, has_sub, is_ascii_digit_char, is_ascii_digit, is_ascii_lower,
    is_ascii_lowercase, lowercase, str_eq, to_lowercase, trim, trim_str,
};
use vstd::prelude::*;

verus! {

/// One stored command.
#[derive(Debug, Clone, PartialEq)]
pub struct StoredCommand {
    pub command: String,
    pub description: Option<String>,
    pub keywords: Vec<String>,
    pub name: Option<String>,
}

/// The keywords stored with a command: those of the command text and of the
/// description, sorted ascending without repeats.
pub open spec fn entry_keywords_ok(
    keywords: Seq<Seq<char>>,
    command: Seq<char>,
    description: Option<Seq<char>>,
) -> bool {
    &&& strictly_sorted(keywords)
    &&& keywords.to_set() == keyword_candidates(command).to_set() + match description {
        Some(d) => keyword_candidates(d).to_set(),
        None => Set::empty(),
    }
}

/// `e` is the entry `StoredCommand::new(command, description)` builds.
pub open spec fn is_new_entry(e: StoredCommand, command: Seq<char>, description: Option<Seq<char>>) -> bool {
    &&& e.command@ == command
    &&& e.description.deep_view() == description
    &&& e.name is None
    &&& entry_keywords_ok(e.keywords.deep_view(), command, description)
}

impl StoredCommand {
    /// A new entry, indexed by the keywords of its command and description.
    pub fn new(command: String, description: Option<String>) -> (r: Self)
        ensures
            is_new_entry(r, command@, description.deep_view()),
    {
        let mut keywords = extract_keywords(command.as_str());
        match &description {
            Some(d) => {
                let extra = extract_keywords(d.as_str());
                let ghost a = keywords.deep_view();
                let ghost b = extra.deep_view();
                let mut i: usize = 0;
                while i < extra.len()
                    invariant
                        i <= extra@.len(),
                        b == extra.deep_view(),
                        keywords.deep_view() == a + b.subrange(0, i as int),
                    decreases extra.len() - i,
                {
                    let ghost before = keywords.deep_view();
                    keywords.push(extra[i].clone());
                    assert(keywords.deep_view() =~= before.push(b[i as int]));
                    assert(a + b.subrange(0, i + 1) =~= (a + b.subrange(0, i as int)).push(b[i as int]));
                    i = i + 1;
                }
                assert(b.subrange(0, b.len() as int) =~= b);
                let sorted = sorted_unique(&keywords);
                proof {
                    vstd::seq_lib::seq_to_set_distributes_over_add(a, b);
                }
                StoredCommand { command, description, keywords: sorted, name: None }
            },
            None => {
                assert(keywords.deep_view().to_set() =~= keyword_candidates(command@).to_set() + Set::empty());
                StoredCommand { command, description, keywords, name: None }
            },
        }
    }
}


/// Characters allowed in command names.
pub open spec fn command_name_char(c: char) -> bool {
    is_ascii_lower(c) || is_ascii_digit(c) || c == '-' || c == '_' || c == '.'
}

/// A command name: non-empty lowercase letters, digits, dots, underscores and
/// hyphens, and neither `.` nor `..`.
pub open spec fn is_valid_command_name(name: Seq<char>) -> bool {
    &&& name.len() > 0
    &&& name != "."@
    &&& name != ".."@
    &&& forall|i: int| 0 <= i < name.len() ==> command_name_char(#[trigger] name[i])
}

pub open spec fn command_name_error() -> Seq<char> {
    "Command names may only contain lowercase letters, numbers, dots, underscores, and hyphens."@
}

/// Checks a command name.
pub fn validate_command_name(name: &str) -> (r: Result<(), String>)
    ensures
        r is Ok <==> is_valid_command_name(name@),
        r matches Err(e) ==> e@ == command_name_error(),
{
    let v = chars_vec(name);
    let mut ok = v.len() > 0 && !str_eq(name, ".") && !str_eq(name, "..");
    let mut i: usize = 0;
    while i < v.len()
        invariant
            i <= v@.len(),
            v@ == name@,
            ok == (name@.len() > 0 && name@ != "."@ && name@ != ".."@ && forall|k: int| 0 <= k < i ==> command_name_char(#[trigger] name@[k])),
        decreases v.len() - i,
    {
        let c = v[i];
        let good = is_ascii_lowercase(c) || is_ascii_digit_char(c) || c == '-' || c == '_' || c == '.';
        if !good {
            ok = false;
        }
        i = i + 1;
    }
    if ok {
        Ok(())
    } else {
        Err(String::from_str("Command names may only contain lowercase letters, numbers, dots, underscores, and hyphens."))
    }
}

/// The command text and description of an entry.
pub open spec fn pair_of(e: StoredCommand) -> (Seq<char>, Option<Seq<char>>) {
    (e.command@, e.description.deep_view())
}

pub open spec fn pair_fn() -> spec_fn(StoredCommand) -> (Seq<char>, Option<Seq<char>>) {
    |e: StoredCommand| pair_of(e)
}

pub open spec fn pairs_of(cmds: Seq<StoredCommand>) -> Seq<(Seq<char>, Option<Seq<char>>)> {
    cmds.map_values(pair_fn())
}

/// Index of the first entry with command text `c`, or -1.
pub open spec fn first_with_command(a: Seq<(Seq<char>, Option<Seq<char>>)>, c: Seq<char>) -> int
    decreases a.len(),
{
    if a.len() == 0 {
        -1
    } else if a[0].0 == c {
        0
    } else {
        let r = first_with_command(a.drop_first(), c);
        if r < 0 {
            -1
        } else {
            r + 1
        }
    }
}

pub proof fn lemma_first_with_command(a: Seq<(Seq<char>, Option<Seq<char>>)>, c: Seq<char>, i: int)
    requires
        0 <= i <= a.len(),
        forall|k: int| 0 <= k < i ==> a[k].0 != c,
        i == a.len() || a[i].0 == c,
    ensures
        first_with_command(a, c) == if i == a.len() { -1 } else { i },
    decreases i,
{
    if i > 0 {
        let t = a.drop_first();
        assert forall|k: int| 0 <= k < i - 1 implies t[k].0 != c by {
            assert(t[k] == a[k + 1]);
        }
        lemma_first_with_command(t, c, i - 1);
    } else if a.len() == 0 {
    }
}

pub proof fn lemma_first_with_command_range(a: Seq<(Seq<char>, Option<Seq<char>>)>, c: Seq<char>)
    ensures
        -1 <= first_with_command(a, c) < a.len(),
        first_with_command(a, c) >= 0 ==> a[first_with_command(a, c)].0 == c,
        first_with_command(a, c) >= 0 ==> forall|k: int| 0 <= k < first_with_command(a, c) ==> a[k].0 != c,
        first_with_command(a, c) < 0 <==> forall|k: int| 0 <= k < a.len() ==> a[k].0 != c,
    decreases a.len(),
{
    if a.len() > 0 {
        let t = a.drop_first();
        lemma_first_with_command_range(t, c);
        assert forall|k: int| 0 < k < a.len() implies a[k] == t[k - 1] by {}
    }
}

/// All entries have different command texts.
pub open spec fn unique_commands(a: Seq<(Seq<char>, Option<Seq<char>>)>) -> bool {
    forall|i: int, j: int| 0 <= i < j < a.len() ==> a[i].0 != a[j].0
}

/// The database of one shelf.
#[derive(Debug, PartialEq)]
pub struct CommandDatabase {
    pub commands: Vec<StoredCommand>,
}

/// What `CommandDatabase::save_command` did.
#[derive(Debug, Clone, Copy, PartialEq, Eq, Structural)]
pub enum SaveCommandOutcome {
    Added,
    Updated,
    Duplicate,
}

/// What adding a command did, as reported to the user.
#[derive(Debug, Clone, Copy, PartialEq, Eq, Structural)]
pub enum AddCommandOutcome {
    Added,
    NamedExisting,
    Unchanged,
}

/// The status word that reports an add outcome.
pub open spec fn add_status_text(outcome: AddCommandOutcome) -> Seq<char> {
    match outcome {
        AddCommandOutcome::Added => "added"@,
        AddCommandOutcome::NamedExisting => "named_existing"@,
        AddCommandOutcome::Unchanged => "unchanged"@,
    }
}

/// The status word of an add outcome.
pub fn add_status(outcome: AddCommandOutcome) -> (r: &'static str)
    ensures
        r@ == add_status_text(outcome),
{
    match outcome {
        AddCommandOutcome::Added => "added",
        AddCommandOutcome::NamedExisting => "named_existing",
        AddCommandOutcome::Unchanged => "unchanged",
    }
}

/// What merging two databases did.
#[derive(Debug, Clone, Copy, PartialEq, Eq, Structural)]
pub struct MergeDatabaseOutcome {
    pub duplicate_commands_removed: usize,
    pub descriptions_upgraded: usize,
}

impl MergeDatabaseOutcome {
    pub fn default() -> (r: Self)
        ensures
            r.duplicate_commands_removed == 0,
            r.descriptions_upgraded == 0,
    {
        MergeDatabaseOutcome { duplicate_commands_removed: 0, descriptions_upgraded: 0 }
    }
}

/// Finds the first entry whose command text equals `command`.
fn position_of(cmds: &Vec<StoredCommand>, command: &str) -> (r: Option<usize>)
    ensures
        r matches Some(i) ==> i == first_with_command(pairs_of(cmds@), command@),
        r is None ==> first_with_command(pairs_of(cmds@), command@) == -1,
{
    let ghost ps = pairs_of(cmds@);
    let mut i: usize = 0;
    while i < cmds.len()
        invariant
            i <= cmds@.len(),
            ps == pairs_of(cmds@),
            forall|k: int| 0 <= k < i ==> ps[k].0 != command@,
        decreases cmds.len() - i,
    {
        assert(ps[i as int] == pair_of(cmds@[i as int]));
        if str_eq(cmds[i].command.as_str(), command) {
            proof {
                lemma_first_with_command(ps, command@, i as int);
            }
            return Some(i);
        }
        i = i + 1;
    }
    proof {
        lemma_first_with_command(ps, command@, i as int);
    }
    None
}

impl CommandDatabase {
    /// An empty database.
    pub fn new() -> (r: Self)
        ensures
            r.commands@.len() == 0,
    {
        CommandDatabase { commands: Vec::new() }
    }

    /// Adds a command unless one with the same text is stored; says whether it added.
    pub fn add_command(&mut self, command: String, description: Option<String>) -> (r: bool)
        ensures
            r == (first_with_command(pairs_of(old(self).commands@), command@) < 0),
            r ==> final(self).commands@.len() == old(self).commands@.len() + 1,
            r ==> final(self).commands@.subrange(0, old(self).commands@.len() as int) == old(self).commands@,
            r ==> is_new_entry(final(self).commands@.last(), command@, description.deep_view()),
            !r ==> final(self).commands@ == old(self).commands@,
            unique_commands(pairs_of(old(self).commands@)) ==> unique_commands(pairs_of(final(self).commands@)),
    {
        match position_of(&self.commands, command.as_str()) {
            Some(_) => false,
            None => {
                let ghost before = self.commands@;
                let entry = StoredCommand::new(command, description);
                self.commands.push(entry);
                proof {
                    lemma_first_with_command_range(pairs_of(before), command@);
                    assert(self.commands@.subrange(0, before.len() as int) =~= before);
                    assert(pairs_of(self.commands@) =~= pairs_of(before).push(pair_of(entry)));
                }
                true
            },
        }
    }

    /// Saves a command. With `original_command` naming a stored entry, that entry is
    /// replaced unless another entry already holds the new text; otherwise the command
    /// is added as by `add_command`.
    pub fn save_command(
        &mut self,
        original_command: Option<&str>,
        command: String,
        description: Option<String>,
    ) -> (r: SaveCommandOutcome)
        ensures
            ({
                let old_pairs = pairs_of(old(self).commands@);
                let idx = match original_command {
                    Some(o) => first_with_command(old_pairs, o@),
                    None => -1,
                };
                let collides = exists|k: int| 0 <= k < old_pairs.len() && k != idx && #[trigger] old_pairs[k].0 == command@;
                if idx >= 0 {
                    if collides {
                        r == SaveCommandOutcome::Duplicate && final(self).commands@ == old(self).commands@
                    } else {
                        &&& r == SaveCommandOutcome::Updated
                        &&& final(self).commands@.len() == old(self).commands@.len()
                        &&& is_new_entry(final(self).commands@[idx], command@, description.deep_view())
                        &&& forall|k: int| 0 <= k < old_pairs.len() && k != idx ==> #[trigger] final(self).commands@[k] == old(self).commands@[k]
                    }
                } else if first_with_command(old_pairs, command@) >= 0 {
                    r == SaveCommandOutcome::Duplicate && final(self).commands@ == old(self).commands@
                } else {
                    &&& r == SaveCommandOutcome::Added
                    &&& final(self).commands@.len() == old(self).commands@.len() + 1
                    &&& final(self).commands@.subrange(0, old(self).commands@.len() as int) == old(self).commands@
                    &&& is_new_entry(final(self).commands@.last(), command@, description.deep_view())
                }
            }),
            unique_commands(pairs_of(old(self).commands@)) ==> unique_commands(pairs_of(final(self).commands@)),
    {
        let ghost old_cmds = self.commands@;
        let ghost old_pairs = pairs_of(old_cmds);
        if let Some(original) = original_command {
            if let Some(index) = position_of(&self.commands, original) {
                proof {
                    lemma_first_with_command_range(old_pairs, original@);
                }
                let mut collides = false;
                let mut k: usize = 0;
                while k < self.commands.len()
                    invariant
                        k <= old_cmds.len(),
                        self.commands@ == old_cmds,
                        index < old_cmds.len(),
                        old_pairs == pairs_of(old_cmds),
                        collides == exists|m: int| 0 <= m < k && m != index && #[trigger] old_pairs[m].0 == command@,
                    decreases self.commands.len() - k,
                {
                    assert(old_pairs[k as int] == pair_of(old_cmds[k as int]));
                    let hit = k != index && str_eq(self.commands[k].command.as_str(), command.as_str());
                    if hit {
                        collides = true;
                    }
                    proof {
                        let p = |m: int| 0 <= m < k + 1 && m != index && old_pairs[m].0 == command@;
                        if hit {
                            assert(p(k as int));
                        }
                        if exists|m: int| 0 <= m < k + 1 && m != index && #[trigger] old_pairs[m].0 == command@ {
                            let m = choose|m: int| 0 <= m < k + 1 && m != index && #[trigger] old_pairs[m].0 == command@;
                            if m == k {
                                assert(hit);
                            }
                        }
                    }
                    k = k + 1;
                }
                if collides {
                    return SaveCommandOutcome::Duplicate;
                }
                let entry = StoredCommand::new(command, description);
                self.commands.set(index, entry);
                proof {
                    let np = pairs_of(self.commands@);
                    assert(np =~= old_pairs.update(index as int, pair_of(entry)));
                    if unique_commands(old_pairs) {
                        assert forall|i: int, j: int| 0 <= i < j < np.len() implies np[i].0 != np[j].0 by {
                            if i == index {
                                assert(np[j] == old_pairs[j]);
                            } else if j == index {
                                assert(np[i] == old_pairs[i]);
                            } else {
                                assert(np[i] == old_pairs[i]);
                                assert(np[j] == old_pairs[j]);
                            }
                        }
                    }
                }
                return SaveCommandOutcome::Updated;
            }
        }
        if self.add_command(command, description) {
            SaveCommandOutcome::Added
        } else {
            SaveCommandOutcome::Duplicate
        }
    }

    /// The entry with the given name, if any.
    pub fn find_by_name(&self, name: &str) -> (r: Option<&StoredCommand>)
        ensures
            r matches Some(e) ==> exists|k: int| 0 <= k < self.commands@.len() && self.commands@[k] == *e && (e.name matches Some(n) && n@ == name@),
            r is None ==> forall|k: int| 0 <= k < self.commands@.len() ==> !(#[trigger] self.commands@[k].name matches Some(n) && n@ == name@),
    {
        let mut i: usize = 0;
        while i < self.commands.len()
            invariant
                i <= self.commands@.len(),
                forall|k: int| 0 <= k < i ==> !(#[trigger] self.commands@[k].name matches Some(n) && n@ == name@),
            decreases self.commands.len() - i,
        {
            match &self.commands[i].name {
                Some(n) => {
                    if str_eq(n.as_str(), name) {
                        return Some(&self.commands[i]);
                    }
                },
                None => {},
            }
            i = i + 1;
        }
        None
    }
}


/// A description trimmed, with an empty one dropped.
pub open spec fn normalized_description(d: Option<Seq<char>>) -> Option<Seq<char>> {
    match d {
        None => None,
        Some(t) => if trim(t).len() == 0 {
            None
        } else {
            Some(trim(t))
        },
    }
}

/// The description kept when two entries for one command meet: the normalized
/// one that exists, the longer (in UTF-8 bytes) of two different ones, the first
/// on a tie.
pub open spec fn merged_description(primary: Option<Seq<char>>, secondary: Option<Seq<char>>) -> Option<Seq<char>> {
    match (normalized_description(primary), normalized_description(secondary)) {
        (None, None) => None,
        (Some(d), None) => Some(d),
        (None, Some(d)) => Some(d),
        (Some(a), Some(b)) => if a == b {
            Some(a)
        } else if utf8_len(b) > utf8_len(a) {
            Some(b)
        } else {
            Some(a)
        },
    }
}

pub fn normalize_description(d: Option<&str>) -> (r: Option<String>)
    ensures
        r.deep_view() == normalized_description(match d { Some(t) => Some(t@), None => None }),
{
    match d {
        None => None,
        Some(t) => {
            let trimmed = trim_str(t);
            if trimmed.unicode_len() == 0 {
                None
            } else {
                Some(trimmed)
            }
        },
    }
}

/// Chooses the description to keep when two entries for one command meet.
pub fn merge_descriptions(primary: Option<&str>, secondary: Option<&str>) -> (r: Option<String>)
    ensures
        r.deep_view() == merged_description(
            match primary { Some(t) => Some(t@), None => None },
            match secondary { Some(t) => Some(t@), None => None },
        ),
{
    let p = normalize_description(primary);
    let s = normalize_description(secondary);
    match (p, s) {
        (None, None) => None,
        (Some(d), None) => Some(d),
        (None, Some(d)) => Some(d),
        (Some(a), Some(b)) => {
            if str_eq(a.as_str(), b.as_str()) {
                Some(a)
            } else {
                let av = chars_vec(a.as_str());
                let bv = chars_vec(b.as_str());
                if utf8_length(&bv) > utf8_length(&av) {
                    Some(b)
                } else {
                    Some(a)
                }
            }
        },
    }
}

/// One step of merging: `cand` joins `acc`, returning the new entries and how many
/// duplicates were dropped and descriptions upgraded.
pub open spec fn merge_step(acc: Seq<(Seq<char>, Option<Seq<char>>)>, cand: (Seq<char>, Option<Seq<char>>)) -> (
    Seq<(Seq<char>, Option<Seq<char>>)>,
    nat,
    nat,
) {
    let i = first_with_command(acc, cand.0);
    if i < 0 {
        (acc.push(cand), 0, 0)
    } else {
        let md = merged_description(acc[i].1, cand.1);
        if acc[i].1 != md {
            (acc.update(i, (acc[i].0, md)), 1, 1)
        } else {
            (acc, 1, 0)
        }
    }
}

/// Merging every item of `items`, in order, into `acc`.
pub open spec fn merge_all(acc: Seq<(Seq<char>, Option<Seq<char>>)>, items: Seq<(Seq<char>, Option<Seq<char>>)>) -> (
    Seq<(Seq<char>, Option<Seq<char>>)>,
    nat,
    nat,
)
    decreases items.len(),
{
    if items.len() == 0 {
        (acc, 0, 0)
    } else {
        let (a, d, u) = merge_all(acc, items.drop_last());
        let (a2, d2, u2) = merge_step(a, items.last());
        (a2, d + d2, u + u2)
    }
}

/// Every entry is the one `StoredCommand::new` builds from its command and description.
pub open spec fn all_new_entries(cmds: Seq<StoredCommand>) -> bool {
    forall|k: int| 0 <= k < cmds.len() ==> is_new_entry(#[trigger] cmds[k], cmds[k].command@, cmds[k].description.deep_view())
}

/// Merges one candidate entry into `merged`.
pub fn merge_command_into(
    merged: &mut CommandDatabase,
    candidate: &StoredCommand,
    outcome: &mut MergeDatabaseOutcome,
)
    requires
        old(outcome).duplicate_commands_removed < usize::MAX,
        old(outcome).descriptions_upgraded < usize::MAX,
        all_new_entries(old(merged).commands@),
    ensures
        ({
            let (a, d, u) = merge_step(pairs_of(old(merged).commands@), pair_of(*candidate));
            &&& pairs_of(final(merged).commands@) == a
            &&& final(outcome).duplicate_commands_removed == old(outcome).duplicate_commands_removed + d
            &&& final(outcome).descriptions_upgraded == old(outcome).descriptions_upgraded + u
        }),
        all_new_entries(final(merged).commands@),
{
    let ghost before = merged.commands@;
    let ghost ps = pairs_of(before);
    match position_of(&merged.commands, candidate.command.as_str()) {
        Some(index) => {
            proof {
                lemma_first_with_command_range(ps, candidate.command@);
            }
            outcome.duplicate_commands_removed = outcome.duplicate_commands_removed + 1;
            let existing_description: Option<&str> = match &merged.commands[index].description {
                Some(d) => Some(d.as_str()),
                None => None,
            };
            let candidate_description: Option<&str> = match &candidate.description {
                Some(d) => Some(d.as_str()),
                None => None,
            };
            assert(ps[index as int] == pair_of(before[index as int]));
            let md = merge_descriptions(existing_description, candidate_description);
            let same = match (&merged.commands[index].description, &md) {
                (None, None) => true,
                (Some(a), Some(b)) => str_eq(a.as_str(), b.as_str()),
                _ => false,
            };
            if !same {
                outcome.descriptions_upgraded = outcome.descriptions_upgraded + 1;
                let cmd = merged.commands[index].command.clone();
                let entry = StoredCommand::new(cmd, md);
                merged.commands.set(index, entry);
                assert(pairs_of(merged.commands@) =~= ps.update(index as int, (ps[index as int].0, pair_of(entry).1)));
            }
        },
        None => {
            let entry = StoredCommand::new(candidate.command.clone(), candidate.description.clone());
            merged.commands.push(entry);
            assert(pairs_of(merged.commands@) =~= ps.push(pair_of(*candidate)));
        },
    }
}

impl CommandDatabase {
    /// Merges `self` and then `other` into a new database with one entry per command
    /// text, keeping the better description of duplicates.
    pub fn merged_with(&self, other: &Self) -> (r: (Self, MergeDatabaseOutcome))
        requires
            self.commands@.len() + other.commands@.len() < usize::MAX,
        ensures
            ({
                let (a, d, u) = merge_all(Seq::empty(), pairs_of(self.commands@) + pairs_of(other.commands@));
                &&& pairs_of(r.0.commands@) == a
                &&& all_new_entries(r.0.commands@)
                &&& r.1.duplicate_commands_removed == d
                &&& r.1.descriptions_upgraded == u
            }),
    {
        let mut merged = CommandDatabase::new();
        let mut outcome = MergeDatabaseOutcome::default();
        let ghost items = pairs_of(self.commands@) + pairs_of(other.commands@);
        let n1 = self.commands.len();
        let mut i: usize = 0;
        assert(items.subrange(0, 0) =~= Seq::<(Seq<char>, Option<Seq<char>>)>::empty());
        while i < n1
            invariant
                n1 == self.commands@.len(),
                i <= n1,
                n1 + other.commands@.len() < usize::MAX,
                items == pairs_of(self.commands@) + pairs_of(other.commands@),
                all_new_entries(merged.commands@),
                ({
                    let (a, d, u) = merge_all(Seq::empty(), items.subrange(0, i as int));
                    &&& pairs_of(merged.commands@) == a
                    &&& outcome.duplicate_commands_removed == d
                    &&& outcome.descriptions_upgraded == u
                }),
                outcome.duplicate_commands_removed <= i,
                outcome.descriptions_upgraded <= i,
            decreases n1 - i,
        {
            assert(items.subrange(0, i + 1).drop_last() =~= items.subrange(0, i as int));
            assert(items[i as int] == pair_of(self.commands@[i as int]));
            merge_command_into(&mut merged, &self.commands[i], &mut outcome);
            i = i + 1;
        }
        let n2 = other.commands.len();
        let mut j: usize = 0;
        while j < n2
            invariant
                n1 == self.commands@.len(),
                n2 == other.commands@.len(),
                j <= n2,
                n1 + n2 < usize::MAX,
                items == pairs_of(self.commands@) + pairs_of(other.commands@),
                all_new_entries(merged.commands@),
                ({
                    let (a, d, u) = merge_all(Seq::empty(), items.subrange(0, n1 + j));
                    &&& pairs_of(merged.commands@) == a
                    &&& outcome.duplicate_commands_removed == d
                    &&& outcome.descriptions_upgraded == u
                }),
                outcome.duplicate_commands_removed <= n1 + j,
                outcome.descriptions_upgraded <= n1 + j,
            decreases n2 - j,
        {
            assert(items.subrange(0, n1 + j + 1).drop_last() =~= items.subrange(0, n1 + j));
            assert(items[n1 + j] == pair_of(other.commands@[j as int]));
            merge_command_into(&mut merged, &other.commands[j], &mut outcome);
            j = j + 1;
        }
        assert(items.subrange(0, n1 + n2) =~= items);
        (merged, outcome)
    }
}


/// The command texts of a list of entries.
pub open spec fn commands_of(a: Seq<(Seq<char>, Option<Seq<char>>)>) -> Set<Seq<char>> {
    Set::new(|c: Seq<char>| exists|k: int| 0 <= k < a.len() && #[trigger] a[k].0 == c)
}

proof fn lemma_merge_step(acc: Seq<(Seq<char>, Option<Seq<char>>)>, cand: (Seq<char>, Option<Seq<char>>))
    requires
        unique_commands(acc),
    ensures
        ({
            let (a, d, u) = merge_step(acc, cand);
            &&& unique_commands(a)
            &&& commands_of(a) == commands_of(acc).insert(cand.0)
            &&& a.len() + d == acc.len() + 1
            &&& u <= d
        }),
{
    lemma_first_with_command_range(acc, cand.0);
    let i = first_with_command(acc, cand.0);
    let (a, d, u) = merge_step(acc, cand);
    if i < 0 {
        assert forall|c: Seq<char>| #[trigger] commands_of(a).contains(c) == commands_of(acc).insert(cand.0).contains(c) by {
            if commands_of(a).contains(c) {
                let k = choose|k: int| 0 <= k < a.len() && #[trigger] a[k].0 == c;
                if k < acc.len() {
                    assert(acc[k].0 == c);
                }
            }
            if commands_of(acc).contains(c) {
                let k = choose|k: int| 0 <= k < acc.len() && #[trigger] acc[k].0 == c;
                assert(a[k].0 == c);
            }
            if c == cand.0 {
                assert(a[acc.len() as int].0 == c);
            }
        }
        assert(commands_of(a) =~= commands_of(acc).insert(cand.0));
    } else {
        assert forall|c: Seq<char>| #[trigger] commands_of(a).contains(c) == commands_of(acc).insert(cand.0).contains(c) by {
            if commands_of(a).contains(c) {
                let k = choose|k: int| 0 <= k < a.len() && #[trigger] a[k].0 == c;
                assert(acc[k].0 == c);
            }
            if commands_of(acc).contains(c) {
                let k = choose|k: int| 0 <= k < acc.len() && #[trigger] acc[k].0 == c;
                assert(a[k].0 == c);
            }
            if c == cand.0 {
                assert(a[i].0 == c);
            }
        }
        assert(commands_of(a) =~= commands_of(acc).insert(cand.0));
        assert forall|x: int, y: int| 0 <= x < y < a.len() implies a[x].0 != a[y].0 by {
            assert(a[x].0 == acc[x].0);
            assert(a[y].0 == acc[y].0);
        }
    }
}

proof fn lemma_merge_all(acc: Seq<(Seq<char>, Option<Seq<char>>)>, items: Seq<(Seq<char>, Option<Seq<char>>)>)
    requires
        unique_commands(acc),
    ensures
        ({
            let (a, d, u) = merge_all(acc, items);
            &&& unique_commands(a)
            &&& commands_of(a) == commands_of(acc) + commands_of(items)
            &&& a.len() + d == acc.len() + items.len()
            &&& u <= d
        }),
    decreases items.len(),
{
    if items.len() == 0 {
        assert(commands_of(items) =~= Set::empty());
        assert(commands_of(acc) + commands_of(items) =~= commands_of(acc));
    } else {
        let init = items.drop_last();
        lemma_merge_all(acc, init);
        let (a, d, u) = merge_all(acc, init);
        lemma_merge_step(a, items.last());
        assert(commands_of(items) =~= commands_of(init).insert(items.last().0)) by {
            assert forall|c: Seq<char>| #[trigger] commands_of(items).contains(c) == commands_of(init).insert(items.last().0).contains(c) by {
                if commands_of(items).contains(c) {
                    let k = choose|k: int| 0 <= k < items.len() && #[trigger] items[k].0 == c;
                    if k < init.len() {
                        assert(init[k].0 == c);
                    }
                }
                if commands_of(init).contains(c) {
                    let k = choose|k: int| 0 <= k < init.len() && #[trigger] init[k].0 == c;
                    assert(items[k].0 == c);
                }
            }
        }
        let (a2, d2, u2) = merge_step(a, items.last());
        assert(commands_of(a2) =~= commands_of(acc) + commands_of(items));
    }
}

/// Merging keeps exactly one entry per command text: the merged database has no
/// two entries with the same command, holds every command of either input and
/// nothing else, the number of dropped duplicates is the number of input entries
/// minus the number of merged entries, and no more descriptions are upgraded
/// than duplicates dropped.
pub proof fn merged_with_keeps_one_entry_per_command(first: Seq<StoredCommand>, second: Seq<StoredCommand>)
    ensures
        ({
            let items = pairs_of(first) + pairs_of(second);
            let (a, d, u) = merge_all(Seq::empty(), items);
            &&& unique_commands(a)
            &&& commands_of(a) == commands_of(pairs_of(first)) + commands_of(pairs_of(second))
            &&& a.len() + d == first.len() + second.len()
            &&& u <= d
        }),
{
    let items = pairs_of(first) + pairs_of(second);
    lemma_merge_all(Seq::empty(), items);
    assert(commands_of(Seq::<(Seq<char>, Option<Seq<char>>)>::empty()) =~= Set::empty());
    assert forall|c: Seq<char>| #[trigger] commands_of(items).contains(c) == (commands_of(pairs_of(first)) + commands_of(pairs_of(second))).contains(c) by {
        let p1 = pairs_of(first);
        let p2 = pairs_of(second);
        if commands_of(items).contains(c) {
            let k = choose|k: int| 0 <= k < items.len() && #[trigger] items[k].0 == c;
            if k < p1.len() {
                assert(p1[k].0 == c);
            } else {
                assert(p2[k - p1.len()].0 == c);
            }
        }
        if commands_of(p1).contains(c) {
            let k = choose|k: int| 0 <= k < p1.len() && #[trigger] p1[k].0 == c;
            assert(items[k].0 == c);
        }
        if commands_of(p2).contains(c) {
            let k = choose|k: int| 0 <= k < p2.len() && #[trigger] p2[k].0 == c;
            assert(items[k + p1.len()].0 == c);
        }
    }
    assert(commands_of(items) =~= commands_of(pairs_of(first)) + commands_of(pairs_of(second)));
    assert(Set::<Seq<char>>::empty() + commands_of(items) =~= commands_of(items));
}

/// Whether query keyword `k` (already lowercased) hits entry `e` on a shelf.
pub open spec fn keyword_hit(e: StoredCommand, k: Seq<char>, shelf: Option<Seq<char>>) -> bool {
    ||| exists|j: int| 0 <= j < e.keywords@.len() && has_sub(#[trigger] e.keywords@[j]@, k)
    ||| has_sub(lowercase(e.command@), k)
    ||| (e.description matches Some(d) && has_sub(lowercase(d@), k))
    ||| (shelf matches Some(s) && has_sub(lowercase(s), k))
    ||| (shelf matches Some(s) && exists|x: Seq<char>| #[trigger] keyword_candidates(s).contains(x) && has_sub(x, k))
}

/// Every query keyword, lowercased, hits the entry.
pub open spec fn matches_query(e: StoredCommand, ks: Seq<Seq<char>>, shelf: Option<Seq<char>>) -> bool {
    forall|i: int| 0 <= i < ks.len() ==> keyword_hit(e, lowercase(#[trigger] ks[i]), shelf)
}

pub open spec fn query_fn(ks: Seq<Seq<char>>, shelf: Option<Seq<char>>) -> spec_fn(StoredCommand) -> bool {
    |e: StoredCommand| matches_query(e, ks, shelf)
}

pub open spec fn string_views(s: Seq<String>) -> Seq<Seq<char>> {
    Seq::new(s.len(), |i: int| s[i]@)
}

/// Whether some string of `list` contains `k`.
pub fn any_contains(list: &Vec<String>, k: &Vec<char>) -> (r: bool)
    ensures
        r == exists|j: int| 0 <= j < list@.len() && has_sub(#[trigger] list@[j]@, k@),
{
    let mut i: usize = 0;
    while i < list.len()
        invariant
            i <= list@.len(),
            forall|j: int| 0 <= j < i ==> !has_sub(#[trigger] list@[j]@, k@),
        decreases list.len() - i,
    {
        let v = chars_vec(list[i].as_str());
        if contains_chars(&v, k) {
            return true;
        }
        i = i + 1;
    }
    false
}

fn lower_chars(s: &str) -> (r: Vec<char>)
    ensures
        r@ == lowercase(s@),
{
    let l = to_lowercase(s);
    chars_vec(l.as_str())
}

impl CommandDatabase {
    /// The entries matching every keyword in the context of `shelf`.
    pub fn search_in_shelf(&self, keywords: &[String], shelf: &str) -> (r: Vec<&StoredCommand>)
        ensures
            r@.unref() == self.commands@.filter(query_fn(string_views(keywords@), Some(shelf@))),
    {
        self.search_with_shelf_context(keywords, Some(shelf))
    }

    /// The entries for which every keyword, lowercased, occurs in a stored keyword,
    /// the lowercased command, the lowercased description, the lowercased shelf name
    /// or a keyword of the shelf name.
    pub fn search_with_shelf_context(&self, keywords: &[String], shelf: Option<&str>) -> (r: Vec<&StoredCommand>)
        ensures
            r@.unref() == self.commands@.filter(query_fn(string_views(keywords@), match shelf { Some(s) => Some(s@), None => None })),
    {
        let ghost ks = string_views(keywords@);
        let ghost sh = match shelf { Some(s) => Some(s@), None => None::<Seq<char>> };
        let mut lowered: Vec<Vec<char>> = Vec::new();
        let mut i: usize = 0;
        while i < keywords.len()
            invariant
                i <= keywords@.len(),
                ks == string_views(keywords@),
                lowered@.len() == i,
                forall|k: int| 0 <= k < i ==> #[trigger] lowered@[k]@ == lowercase(ks[k]),
            decreases keywords.len() - i,
        {
            lowered.push(lower_chars(keywords[i].as_str()));
            i = i + 1;
        }
        let shelf_lower: Option<Vec<char>> = match shelf {
            Some(s) => Some(lower_chars(s)),
            None => None,
        };
        let shelf_keywords: Vec<String> = match shelf {
            Some(s) => extract_keywords(s),
            None => Vec::new(),
        };
        let ghost pred = query_fn(ks, sh);
        let mut out: Vec<&StoredCommand> = Vec::new();
        let mut c: usize = 0;
        proof {
            reveal(Seq::filter);
            assert(self.commands@.subrange(0, 0).filter(query_fn(ks, sh)) =~= Seq::<StoredCommand>::empty());
        }
        while c < self.commands.len()
            invariant
                c <= self.commands@.len(),
                ks == string_views(keywords@),
                sh == match shelf { Some(s) => Some(s@), None => None::<Seq<char>> },
                lowered@.len() == ks.len(),
                forall|k: int| 0 <= k < ks.len() ==> #[trigger] lowered@[k]@ == lowercase(ks[k]),
                shelf is None ==> shelf_lower is None && shelf_keywords@.len() == 0,
                shelf matches Some(s) ==> (shelf_lower matches Some(l) && l@ == lowercase(s@)),
                shelf matches Some(s) ==> is_keyword_list(shelf_keywords.deep_view(), s@),
                out@.unref() == self.commands@.subrange(0, c as int).filter(query_fn(ks, sh)),
            decreases self.commands.len() - c,
        {
            let e = &self.commands[c];
            let command_lower = lower_chars(e.command.as_str());
            let description_lower: Option<Vec<char>> = match &e.description {
                Some(d) => Some(lower_chars(d.as_str())),
                None => None,
            };
            let mut all = true;
            let mut q: usize = 0;
            while q < lowered.len()
                invariant
                    q <= lowered@.len(),
                    lowered@.len() == ks.len(),
                    forall|k: int| 0 <= k < ks.len() ==> #[trigger] lowered@[k]@ == lowercase(ks[k]),
                    command_lower@ == lowercase(e.command@),
                    e.description is None ==> description_lower is None,
                    e.description matches Some(d) ==> (description_lower matches Some(l) && l@ == lowercase(d@)),
                    shelf is None ==> shelf_lower is None && shelf_keywords@.len() == 0,
                    shelf matches Some(s) ==> (shelf_lower matches Some(l) && l@ == lowercase(s@)),
                    shelf matches Some(s) ==> is_keyword_list(shelf_keywords.deep_view(), s@),
                    sh == match shelf { Some(s) => Some(s@), None => None::<Seq<char>> },
                    all == forall|k: int| 0 <= k < q ==> keyword_hit(*e, lowercase(#[trigger] ks[k]), sh),
                decreases lowered.len() - q,
            {
                let k = &lowered[q];
                let in_desc = match &description_lower {
                    Some(d) => contains_chars(d, k),
                    None => false,
                };
                let in_shelf = match &shelf_lower {
                    Some(l) => contains_chars(l, k),
                    None => false,
                };
                let hit = any_contains(&e.keywords, k) || contains_chars(&command_lower, k) || in_desc
                    || in_shelf || any_contains(&shelf_keywords, k);
                proof {
                    let kk = lowercase(ks[q as int]);
                    assert(k@ == kk);
                    if let Some(s) = shelf {
                        let dv = shelf_keywords.deep_view();
                        let shelf_hit = exists|j: int| 0 <= j < shelf_keywords@.len() && has_sub(#[trigger] shelf_keywords@[j]@, k@);
                        let cand_hit = exists|x: Seq<char>| #[trigger] keyword_candidates(s@).contains(x) && has_sub(x, kk);
                        if shelf_hit {
                            let j = choose|j: int| 0 <= j < shelf_keywords@.len() && has_sub(#[trigger] shelf_keywords@[j]@, k@);
                            assert(dv[j] == shelf_keywords@[j]@);
                            assert(dv.to_set().contains(dv[j]));
                            assert(keyword_candidates(s@).to_set().contains(dv[j]));
                            assert(keyword_candidates(s@).contains(dv[j]));
                        }
                        if cand_hit {
                            let x = choose|x: Seq<char>| #[trigger] keyword_candidates(s@).contains(x) && has_sub(x, kk);
                            assert(keyword_candidates(s@).to_set().contains(x));
                            assert(dv.to_set().contains(x));
                            let j = choose|j: int| 0 <= j < dv.len() && dv[j] == x;
                            assert(shelf_keywords@[j]@ == x);
                        }
                        assert(shelf_hit == cand_hit);
                    }
                    assert(hit == keyword_hit(*e, kk, sh));
                }
                if !hit {
                    all = false;
                }
                q = q + 1;
            }
            proof {
                assert(self.commands@.subrange(0, c + 1) =~= self.commands@.subrange(0, c as int).push(self.commands@[c as int]));
                self.commands@.subrange(0, c as int).lemma_filter_push(self.commands@[c as int], query_fn(ks, sh));
                assert(query_fn(ks, sh)(*e) == all);
            }
            let ghost before = out@;
            if all {
                out.push(e);
                assert(out@.unref() =~= before.unref().push(*e));
            }
            c = c + 1;
        }
        assert(self.commands@.subrange(0, self.commands@.len() as int) =~= self.commands@);
        out
    }
}


/// Everything a stored command holds, as plain values.
pub open spec fn entry_full_view(e: StoredCommand) -> (
    Seq<char>,
    Option<Seq<char>>,
    Seq<Seq<char>>,
    Option<Seq<char>>,
) {
    (
        e.command@,
        match e.description {
            Some(d) => Some(d@),
            None => None,
        },
        e.keywords.deep_view(),
        match e.name {
            Some(n) => Some(n@),
            None => None,
        },
    )
}

/// A database's entries as plain values, in order.
pub open spec fn database_view(d: CommandDatabase) -> Seq<
    (Seq<char>, Option<Seq<char>>, Seq<Seq<char>>, Option<Seq<char>>),
> {
    Seq::new(d.commands@.len(), |k: int| entry_full_view(d.commands@[k]))
}

fn same_optional_text(a: &Option<String>, b: &Option<String>) -> (r: bool)
    ensures
        r == (match a {
            Some(x) => Some(x@),
            None => None,
        } == match b {
            Some(x) => Some(x@),
            None => None,
        }),
{
    match (a, b) {
        (Some(x), Some(y)) => str_eq(x.as_str(), y.as_str()),
        (None, None) => true,
        _ => false,
    }
}

fn same_texts(a: &Vec<String>, b: &Vec<String>) -> (r: bool)
    ensures
        r == (a.deep_view() == b.deep_view()),
{
    if a.len() != b.len() {
        assert(a.deep_view().len() != b.deep_view().len());
        return false;
    }
    let mut i: usize = 0;
    while i < a.len()
        invariant
            a@.len() == b@.len(),
            i <= a@.len(),
            forall|k: int| 0 <= k < i ==> #[trigger] a@[k]@ == b@[k]@,
        decreases a.len() - i,
    {
        if !str_eq(a[i].as_str(), b[i].as_str()) {
            assert(a.deep_view()[i as int] != b.deep_view()[i as int]);
            return false;
        }
        i = i + 1;
    }
    assert(a.deep_view() =~= b.deep_view()) by {
        assert forall|k: int| 0 <= k < a@.len() implies #[trigger] a.deep_view()[k] == b.deep_view()[k] by {
            assert(a@[k]@ == b@[k]@);
        }
    }
    true
}

/// Whether two databases hold the same entries in the same order.
pub fn same_database(a: &CommandDatabase, b: &CommandDatabase) -> (r: bool)
    ensures
        r == (database_view(*a) == database_view(*b)),
{
    if a.commands.len() != b.commands.len() {
        assert(database_view(*a).len() != database_view(*b).len());
        return false;
    }
    let mut i: usize = 0;
    while i < a.commands.len()
        invariant
            a.commands@.len() == b.commands@.len(),
            i <= a.commands@.len(),
            forall|k: int| 0 <= k < i ==> #[trigger] entry_full_view(a.commands@[k]) == entry_full_view(
                b.commands@[k],
            ),
        decreases a.commands.len() - i,
    {
        let x = &a.commands[i];
        let y = &b.commands[i];
        let same = str_eq(x.command.as_str(), y.command.as_str()) && same_optional_text(&x.description, &y.description)
            && same_texts(&x.keywords, &y.keywords) && same_optional_text(&x.name, &y.name);
        if !same {
            assert(database_view(*a)[i as int] != database_view(*b)[i as int]);
            return false;
        }
        i = i + 1;
    }
    assert(database_view(*a) =~= database_view(*b));
    true
}


proof fn lemma_filter_and(
    cmds: Seq<StoredCommand>,
    ks: Seq<Seq<char>>,
    more: Seq<Seq<char>>,
    shelf: Option<Seq<char>>,
)
    ensures
        cmds.filter(query_fn(ks + more, shelf)) == cmds.filter(query_fn(ks, shelf)).filter(
            query_fn(more, shelf),
        ),
    decreases cmds.len(),
{
    reveal(Seq::filter);
    if cmds.len() > 0 {
        lemma_filter_and(cmds.drop_last(), ks, more, shelf);
        let e = cmds.last();
        let all = ks + more;
        assert(matches_query(e, all, shelf) == (matches_query(e, ks, shelf) && matches_query(e, more, shelf))) by {
            if matches_query(e, all, shelf) {
                assert forall|i: int| 0 <= i < ks.len() implies keyword_hit(e, lowercase(#[trigger] ks[i]), shelf) by {
                    assert(all[i] == ks[i]);
                }
                assert forall|i: int| 0 <= i < more.len() implies keyword_hit(e, lowercase(#[trigger] more[i]), shelf) by {
                    assert(all[ks.len() + i] == more[i]);
                }
            }
            if matches_query(e, ks, shelf) && matches_query(e, more, shelf) {
                assert forall|i: int| 0 <= i < all.len() implies keyword_hit(e, lowercase(#[trigger] all[i]), shelf) by {
                    if i < ks.len() {
                        assert(all[i] == ks[i]);
                    } else {
                        assert(all[i] == more[i - ks.len()]);
                    }
                }
            }
        }
        let d = cmds.drop_last();
        let fa = d.filter(query_fn(ks, shelf));
        let fb = query_fn(more, shelf);
        if matches_query(e, ks, shelf) {
            assert(cmds.filter(query_fn(ks, shelf)) == fa.push(e));
            assert(fa.push(e).drop_last() =~= fa);
            assert(fa.push(e).last() == e);
            assert(fa.push(e).filter(fb) == if matches_query(e, more, shelf) {
                fa.filter(fb).push(e)
            } else {
                fa.filter(fb)
            });
        } else {
            assert(cmds.filter(query_fn(ks, shelf)) == fa);
        }
    }
}

/// Search keywords combine with AND: searching with more keywords gives the
/// results of the fewer keywords that also match the added ones, in order, so
/// adding keywords only narrows a search.
pub proof fn more_keywords_narrow_a_search(
    cmds: Seq<StoredCommand>,
    ks: Seq<Seq<char>>,
    more: Seq<Seq<char>>,
    shelf: Option<Seq<char>>,
)
    ensures
        cmds.filter(query_fn(ks + more, shelf)) == cmds.filter(query_fn(ks, shelf)).filter(
            query_fn(more, shelf),
        ),
        cmds.filter(query_fn(Seq::empty(), shelf)) == cmds,
{
    lemma_filter_and(cmds, ks, more, shelf);
    lemma_filter_all(cmds, shelf);
}

proof fn lemma_filter_all(cmds: Seq<StoredCommand>, shelf: Option<Seq<char>>)
    ensures
        cmds.filter(query_fn(Seq::empty(), shelf)) == cmds,
    decreases cmds.len(),
{
    reveal(Seq::filter);
    if cmds.len() > 0 {
        lemma_filter_all(cmds.drop_last(), shelf);
        assert(matches_query(cmds.last(), Seq::empty(), shelf));
        assert(cmds.drop_last().push(cmds.last()) =~= cmds);
    }
}


/// Duplicates are prevented: once a command is stored (by an add or before
/// it), the database holds an entry with its text, so adding the same text
/// again adds nothing; and a database whose entries have distinct texts keeps
/// them distinct when a new text is appended.
pub proof fn adding_twice_keeps_one_entry(
    cmds: Seq<StoredCommand>,
    e: StoredCommand,
    command: Seq<char>,
    description: Option<Seq<char>>,
)
    requires
        is_new_entry(e, command, description),
    ensures
        first_with_command(pairs_of(cmds.push(e)), command) >= 0,
        first_with_command(pairs_of(cmds), command) >= 0 ==> first_with_command(
            pairs_of(cmds.push(e)),
            command,
        ) == first_with_command(pairs_of(cmds), command),
        unique_commands(pairs_of(cmds)) && first_with_command(pairs_of(cmds), command) < 0
            ==> unique_commands(pairs_of(cmds.push(e))),
{
    let a = pairs_of(cmds);
    let b = pairs_of(cmds.push(e));
    assert(b =~= a.push(pair_of(e)));
    lemma_first_with_command_range(a, command);
    lemma_first_with_command_range(b, command);
    assert(b[a.len() as int].0 == command);
    let fa = first_with_command(a, command);
    if fa >= 0 {
        assert forall|k: int| 0 <= k < fa implies b[k].0 != command by {
            assert(b[k] == a[k]);
        }
        assert(b[fa].0 == command);
        lemma_first_with_command(b, command, fa);
    } else {
        assert forall|k: int| 0 <= k < a.len() implies b[k].0 != command by {
            assert(b[k] == a[k]);
        }
        lemma_first_with_command(b, command, a.len() as int);
        if unique_commands(a) {
            assert forall|i: int, j: int| 0 <= i < j < b.len() implies #[trigger] b[i].0 != #[trigger] b[j].0 by {
                if j < a.len() {
                    assert(b[i] == a[i] && b[j] == a[j]);
                } else {
                    assert(b[i] == a[i]);
                }
            }
        }
    }
}

/// Search is case-insensitive on the command text and the description: an
/// entry is among the results of a search (`search_with_shelf_context` and
/// `search_in_shelf` return `commands.filter(query_fn(keywords, shelf))`),
/// whatever the shelf, when each keyword, lowercased, occurs in its command
/// lowercased or in its description lowercased.
pub proof fn commands_containing_every_keyword_are_found(
    commands: Seq<StoredCommand>,
    keywords: Seq<Seq<char>>,
    shelf: Option<Seq<char>>,
    j: int,
)
    requires
        0 <= j < commands.len(),
        forall|i: int| 0 <= i < keywords.len() ==> {
            ||| has_sub(lowercase(commands[j].command@), lowercase(#[trigger] keywords[i]))
            ||| (commands[j].description matches Some(d) && has_sub(lowercase(d@), lowercase(keywords[i])))
        },
    ensures
        commands.filter(query_fn(keywords, shelf)).contains(commands[j]),
{
    assert forall|i: int| 0 <= i < keywords.len() implies keyword_hit(commands[j], lowercase(#[trigger] keywords[i]), shelf) by {
    }
    assert(query_fn(keywords, shelf)(commands[j]));
    commands.lemma_filter_contains(query_fn(keywords, shelf), j);
}

/// Every keyword must hit: without a shelf context, a search never returns an
/// entry when some keyword, lowercased, occurs neither in its command
/// lowercased, nor in its description lowercased, nor in any of its stored
/// keywords.
pub proof fn entries_missing_a_keyword_are_not_found(
    commands: Seq<StoredCommand>,
    keywords: Seq<Seq<char>>,
    e: StoredCommand,
    i: int,
)
    requires
        0 <= i < keywords.len(),
        !has_sub(lowercase(e.command@), lowercase(keywords[i])),
        !(e.description matches Some(d) && has_sub(lowercase(d@), lowercase(keywords[i]))),
        forall|j: int| 0 <= j < e.keywords@.len() ==> !has_sub(#[trigger] e.keywords@[j]@, lowercase(keywords[i])),
    ensures
        !commands.filter(query_fn(keywords, None)).contains(e),
{
    let found = commands.filter(query_fn(keywords, None));
    if found.contains(e) {
        let k = choose|k: int| 0 <= k < found.len() && #[trigger] found[k] == e;
        commands.lemma_filter_pred(query_fn(keywords, None), k);
        assert(keyword_hit(e, lowercase(keywords[i]), None));
    }
}

} // verus!
