//! The single-file database of curl commands kept by the first, curl-only command-line tool.
use crate::dedup::{contains_string, keep_first};
use crate::keywords::{extract_keywords, is_keyword_list};
use crate::text::{chars_vec, contains_chars, has_sub, lowercase, str_eq, to_lowercase};
use vstd::prelude::*;

verus! {

/// A stored curl command and its keywords.
#[derive(Debug, Clone, PartialEq)]
pub struct CurlCommand {
    pub command: String,
    pub keywords: Vec<String>,
}

/// `e` is the entry `CurlCommand::new(command)` builds.
pub open spec fn is_new_curl_command(e: CurlCommand, command: Seq<char>) -> bool {
    e.command@ == command && is_keyword_list(e.keywords.deep_view(), command)
}

impl CurlCommand {
    /// A new entry indexed by the keywords of its command.
    pub fn new(command: String) -> (r: Self)
        ensures
            is_new_curl_command(r, command@),
    {
        let keywords = extract_keywords(command.as_str());
        CurlCommand { command, keywords }
    }
}

/// The stored commands of a curl database.
#[derive(Debug, PartialEq)]
pub struct CurlDatabase {
    pub commands: Vec<CurlCommand>,
}

pub open spec fn curl_texts(cmds: Seq<CurlCommand>) -> Seq<Seq<char>> {
    Seq::new(cmds.len(), |i: int| cmds[i].command@)
}

/// Whether query keyword `k` (already lowercased) hits a stored command.
pub open spec fn curl_keyword_hit(e: CurlCommand, k: Seq<char>) -> bool {
    ||| exists|j: int| 0 <= j < e.keywords@.len() && has_sub(#[trigger] e.keywords@[j]@, k)
    ||| has_sub(lowercase(e.command@), k)
}

pub open spec fn curl_query_fn(ks: Seq<Seq<char>>) -> spec_fn(CurlCommand) -> bool {
    |e: CurlCommand| forall|i: int| 0 <= i < ks.len() ==> curl_keyword_hit(e, lowercase(#[trigger] ks[i]))
}

/// The commands of `inputs` that are neither in `existing` nor repeats of an
/// earlier input, in order.
pub open spec fn fresh_commands(existing: Seq<Seq<char>>, inputs: Seq<Seq<char>>) -> Seq<Seq<char>> {
    keep_first(existing + inputs).subrange(keep_first(existing).len() as int, keep_first(existing + inputs).len() as int)
}

pub proof fn lemma_keep_first_prefix(a: Seq<Seq<char>>, b: Seq<Seq<char>>)
    ensures
        keep_first(a).is_prefix_of(keep_first(a + b)),
    decreases b.len(),
{
    if b.len() > 0 {
        lemma_keep_first_prefix(a, b.drop_last());
        assert((a + b).drop_last() =~= a + b.drop_last());
    } else {
        assert(a + b =~= a);
    }
}

fn find_command(cmds: &Vec<CurlCommand>, command: &str) -> (r: bool)
    ensures
        r == curl_texts(cmds@).contains(command@),
{
    let mut i: usize = 0;
    while i < cmds.len()
        invariant
            i <= cmds@.len(),
            forall|k: int| 0 <= k < i ==> cmds@[k].command@ != command@,
        decreases cmds.len() - i,
    {
        if str_eq(cmds[i].command.as_str(), command) {
            assert(curl_texts(cmds@)[i as int] == command@);
            return true;
        }
        i = i + 1;
    }
    false
}

impl CurlDatabase {
    /// An empty database.
    pub fn new() -> (r: Self)
        ensures
            r.commands@.len() == 0,
    {
        CurlDatabase { commands: Vec::new() }
    }

    /// Adds a command unless it is stored already; says whether it added.
    pub fn add_command(&mut self, command: String) -> (r: bool)
        ensures
            r == !curl_texts(old(self).commands@).contains(command@),
            r ==> final(self).commands@.len() == old(self).commands@.len() + 1
                && final(self).commands@.subrange(0, old(self).commands@.len() as int) == old(self).commands@
                && is_new_curl_command(final(self).commands@.last(), command@),
            !r ==> final(self).commands@ == old(self).commands@,
    {
        if find_command(&self.commands, command.as_str()) {
            false
        } else {
            let ghost before = self.commands@;
            self.commands.push(CurlCommand::new(command));
            assert(self.commands@.subrange(0, before.len() as int) =~= before);
            true
        }
    }

    /// Adds every command not stored yet, each once; returns how many were added.
    pub fn add_commands(&mut self, commands: Vec<String>) -> (r: usize)
        ensures
            ({
                let fresh = fresh_commands(curl_texts(old(self).commands@), commands.deep_view());
                &&& r == fresh.len()
                &&& curl_texts(final(self).commands@) == curl_texts(old(self).commands@) + fresh
                &&& final(self).commands@.subrange(0, old(self).commands@.len() as int) == old(self).commands@
                &&& forall|k: int| old(self).commands@.len() <= k < final(self).commands@.len() ==>
                    is_new_curl_command(#[trigger] final(self).commands@[k], final(self).commands@[k].command@)
            }),
    {
        let ghost old_cmds = self.commands@;
        let ghost base = curl_texts(old_cmds);
        let ghost inputs = commands.deep_view();
        let mut seen: Vec<String> = Vec::new();
        let mut i: usize = 0;
        assert(base.subrange(0, 0) =~= Seq::<Seq<char>>::empty());
        while i < self.commands.len()
            invariant
                i <= self.commands@.len(),
                self.commands@ == old_cmds,
                base == curl_texts(old_cmds),
                seen.deep_view() == keep_first(base.subrange(0, i as int)),
            decreases self.commands.len() - i,
        {
            assert(base.subrange(0, i + 1).drop_last() =~= base.subrange(0, i as int));
            assert(base.subrange(0, i + 1).last() == self.commands@[i as int].command@);
            if !contains_string(&seen, self.commands[i].command.as_str()) {
                let ghost before = seen.deep_view();
                seen.push(self.commands[i].command.clone());
                assert(seen.deep_view() =~= before.push(base[i as int]));
            }
            i = i + 1;
        }
        assert(base.subrange(0, old_cmds.len() as int) =~= base);
        let ghost kb: int = keep_first(base).len() as int;
        let mut added: usize = 0;
        let mut j: usize = 0;
        assert(base + inputs.subrange(0, 0) =~= base);
        assert(seen.deep_view().subrange(kb, kb) =~= Seq::<Seq<char>>::empty());
        assert(curl_texts(self.commands@) =~= base + seen.deep_view().subrange(kb, kb));
        while j < commands.len()
            invariant
                j <= inputs.len(),
                inputs == commands.deep_view(),
                base == curl_texts(old_cmds),
                kb == keep_first(base).len(),
                seen.deep_view() == keep_first(base + inputs.subrange(0, j as int)),
                kb <= seen.deep_view().len(),
                curl_texts(self.commands@) == base + seen.deep_view().subrange(kb, seen.deep_view().len() as int),
                self.commands@.subrange(0, old_cmds.len() as int) == old_cmds,
                self.commands@.len() >= old_cmds.len(),
                added == self.commands@.len() - old_cmds.len(),
                added == seen.deep_view().len() - kb,
                added <= j,
                forall|k: int| old_cmds.len() <= k < self.commands@.len() ==>
                    is_new_curl_command(#[trigger] self.commands@[k], self.commands@[k].command@),
            decreases commands.len() - j,
        {
            let ghost prefix = base + inputs.subrange(0, j as int);
            assert((base + inputs.subrange(0, j + 1)).drop_last() =~= prefix);
            assert((base + inputs.subrange(0, j + 1)).last() == inputs[j as int]);
            assert(inputs[j as int] == commands@[j as int]@);
            if !contains_string(&seen, commands[j].as_str()) {
                let ghost before = seen.deep_view();
                let ghost before_cmds = self.commands@;
                seen.push(commands[j].clone());
                assert(seen.deep_view() =~= before.push(inputs[j as int]));
                self.commands.push(CurlCommand::new(commands[j].clone()));
                assert(curl_texts(self.commands@) =~= curl_texts(before_cmds).push(inputs[j as int]));
                assert(seen.deep_view().subrange(kb, seen.deep_view().len() as int) =~= before.subrange(
                    kb,
                    before.len() as int,
                ).push(inputs[j as int]));
                assert(self.commands@.subrange(0, old_cmds.len() as int) =~= before_cmds.subrange(0, old_cmds.len() as int));
                added = added + 1;
            }
            j = j + 1;
        }
        assert(base + inputs.subrange(0, inputs.len() as int) =~= base + inputs);
        added
    }

    /// The commands for which every keyword, lowercased, occurs in a stored keyword
    /// or in the lowercased command.
    pub fn search(&self, keywords: &[String]) -> (r: Vec<&CurlCommand>)
        ensures
            r@.unref() == self.commands@.filter(curl_query_fn(crate::database::string_views(keywords@))),
    {
        let ghost ks = crate::database::string_views(keywords@);
        let mut lowered: Vec<Vec<char>> = Vec::new();
        let mut i: usize = 0;
        while i < keywords.len()
            invariant
                i <= keywords@.len(),
                ks == crate::database::string_views(keywords@),
                lowered@.len() == i,
                forall|k: int| 0 <= k < i ==> #[trigger] lowered@[k]@ == lowercase(ks[k]),
            decreases keywords.len() - i,
        {
            let l = to_lowercase(keywords[i].as_str());
            lowered.push(chars_vec(l.as_str()));
            i = i + 1;
        }
        let mut out: Vec<&CurlCommand> = Vec::new();
        let mut c: usize = 0;
        proof {
            reveal(Seq::filter);
            assert(self.commands@.subrange(0, 0).filter(curl_query_fn(ks)) =~= Seq::<CurlCommand>::empty());
        }
        while c < self.commands.len()
            invariant
                c <= self.commands@.len(),
                ks == crate::database::string_views(keywords@),
                lowered@.len() == ks.len(),
                forall|k: int| 0 <= k < ks.len() ==> #[trigger] lowered@[k]@ == lowercase(ks[k]),
                out@.unref() == self.commands@.subrange(0, c as int).filter(curl_query_fn(ks)),
            decreases self.commands.len() - c,
        {
            let e = &self.commands[c];
            let lc = to_lowercase(e.command.as_str());
            let command_lower = chars_vec(lc.as_str());
            let mut all = true;
            let mut q: usize = 0;
            while q < lowered.len()
                invariant
                    q <= lowered@.len(),
                    lowered@.len() == ks.len(),
                    forall|k: int| 0 <= k < ks.len() ==> #[trigger] lowered@[k]@ == lowercase(ks[k]),
                    command_lower@ == lowercase(e.command@),
                    all == forall|k: int| 0 <= k < q ==> curl_keyword_hit(*e, lowercase(#[trigger] ks[k])),
                decreases lowered.len() - q,
            {
                let hit = crate::database::any_contains(&e.keywords, &lowered[q]) || contains_chars(&command_lower, &lowered[q]);
                if !hit {
                    all = false;
                }
                q = q + 1;
            }
            proof {
                assert(self.commands@.subrange(0, c + 1) =~= self.commands@.subrange(0, c as int).push(self.commands@[c as int]));
                self.commands@.subrange(0, c as int).lemma_filter_push(self.commands@[c as int], curl_query_fn(ks));
                assert(curl_query_fn(ks)(*e) == all);
            }
            let ghost before = out@;
            if all {
                out.push(e);
                assert(out@.unref() =~= before.unref().push(*e));
            }
            c = c + 1;
        }
        assert(self.commands@.subrange(0, self.commands@.len() as int) =~= self.commands@);
        out
    }
}

} // verus!
