//! Collecting curl commands from shell history (bash and zsh formats).
use crate::dedup::{contains_string, keep_first};
use crate::pattern::{capture_group_texts, regex_captures};
use crate::text::{
    char_index, chars_vec, find_char, lines, lines_chars, occurs_at, slice_chars,
    starts_with_chars, string_of, trim, trim_chars,
};
use vstd::prelude::*;
use vstd::utf8::{decode_utf8, valid_utf8};

verus! {

pub open spec fn history_pattern() -> Seq<char> {
    "^(\\s*curl\\s+.*)$"@
}

/// A history line with a zsh `: <time>:<n>;` prefix removed.
pub open spec fn clean_history_line(line: Seq<char>) -> Seq<char> {
    if occurs_at(line, ": "@, 0) && char_index(line, ';') >= 0 {
        line.subrange(char_index(line, ';') + 1, line.len() as int)
    } else {
        line
    }
}

/// The curl command a history line holds, trimmed, if it holds one.
pub open spec fn history_candidate(line: Seq<char>) -> Option<Seq<char>> {
    let caps = regex_captures(history_pattern(), clean_history_line(line), 1);
    if caps.len() > 0 && caps[0] is Some {
        Some(trim(caps[0]->0))
    } else {
        None
    }
}

/// The curl commands of the given lines, in order, repeats included.
pub open spec fn history_candidates(ls: Seq<Seq<char>>) -> Seq<Seq<char>>
    decreases ls.len(),
{
    if ls.len() == 0 {
        Seq::empty()
    } else {
        let r = history_candidates(ls.drop_last());
        match history_candidate(ls.last()) {
            Some(c) => r.push(c),
            None => r,
        }
    }
}

fn clean_line(line: &Vec<char>) -> (r: Vec<char>)
    ensures
        r@ == clean_history_line(line@),
{
    let prefix = chars_vec(": ");
    if starts_with_chars(line, &prefix) {
        match find_char(line, ';') {
            Some(i) => {
                proof {
                    crate::text::lemma_char_index_range(line@, ';');
                }
                assert(i < line.len());
                slice_chars(line, i + 1, line.len())
            },
            None => crate::text::copy_chars(line),
        }
    } else {
        crate::text::copy_chars(line)
    }
}

/// The curl commands found in shell history text, trimmed, each once, in order of
/// first appearance. zsh timestamp prefixes are removed before matching.
pub fn parse_curl_commands_from_history(history_content: &str) -> (r: Vec<String>)
    ensures
        r.deep_view() == keep_first(history_candidates(lines(history_content@))),
        r.deep_view().no_duplicates(),
{
    let v = chars_vec(history_content);
    let ls = lines_chars(&v);
    let ghost lv = lines(history_content@);
    let mut out: Vec<String> = Vec::new();
    let mut i: usize = 0;
    assert(lv.subrange(0, 0) =~= Seq::<Seq<char>>::empty());
    while i < ls.len()
        invariant
            i <= ls@.len(),
            ls@.len() == lv.len(),
            lv == lines(history_content@),
            forall|k: int| 0 <= k < ls@.len() ==> #[trigger] ls@[k]@ == lv[k],
            out.deep_view() == keep_first(history_candidates(lv.subrange(0, i as int))),
        decreases ls.len() - i,
    {
        assert(lv.subrange(0, i + 1).drop_last() =~= lv.subrange(0, i as int));
        assert(lv.subrange(0, i + 1).last() == ls@[i as int]@);
        let cleaned = clean_line(&ls[i]);
        let cleaned_str = string_of(&cleaned);
        let caps = capture_group_texts("^(\\s*curl\\s+.*)$", cleaned_str.as_str(), 1);
        assert(caps.deep_view() == regex_captures(history_pattern(), clean_history_line(ls@[i as int]@), 1));
        if caps.len() > 0 {
            assert(caps.deep_view()[0] == caps@[0].deep_view());
            match &caps[0] {
                Some(g) => {
                    let gv = chars_vec(g.as_str());
                    let t = string_of(&trim_chars(&gv));
                    let ghost prev = history_candidates(lv.subrange(0, i as int));
                    assert(history_candidates(lv.subrange(0, i + 1)) == prev.push(t@));
                    assert(prev.push(t@).drop_last() =~= prev);
                    if !contains_string(&out, t.as_str()) {
                        let ghost before = out.deep_view();
                        out.push(t);
                        assert(out.deep_view() =~= before.push(t@));
                    }
                },
                None => {
                    assert(history_candidates(lv.subrange(0, i + 1)) == history_candidates(lv.subrange(0, i as int)));
                },
            }
        } else {
            assert(history_candidates(lv.subrange(0, i + 1)) == history_candidates(lv.subrange(0, i as int)));
        }
        i = i + 1;
    }
    assert(lv.subrange(0, lv.len() as int) =~= lv);
    proof {
        crate::dedup::lemma_keep_first_unique(history_candidates(lv));
    }
    out
}

/// What `String::from_utf8_lossy` makes of `bytes`: their UTF-8 decoding with each
/// invalid sequence replaced by U+FFFD.
pub uninterp spec fn utf8_lossy(bytes: Seq<u8>) -> Seq<char>;

/// Calls `String::from_utf8_lossy`. The contract names the result and states what
/// its documentation promises for valid input: the plain decoding.
#[verifier::external_body]
pub(crate) fn decode_utf8_lossy(bytes: &[u8]) -> (r: String)
    ensures
        r@ == utf8_lossy(bytes@),
        valid_utf8(bytes@) ==> r@ == decode_utf8(bytes@),
{
    String::from_utf8_lossy(bytes).into_owned()
}

/// The curl commands found in shell history bytes, decoded leniently.
pub fn parse_curl_commands_from_history_bytes(history_content: &[u8]) -> (r: Vec<String>)
    ensures
        r.deep_view() == keep_first(history_candidates(lines(utf8_lossy(history_content@)))),
        valid_utf8(history_content@) ==> r.deep_view() == keep_first(
            history_candidates(lines(decode_utf8(history_content@))),
        ),
        r.deep_view().no_duplicates(),
{
    let text = decode_utf8_lossy(history_content);
    parse_curl_commands_from_history(text.as_str())
}

/// The curl command found in a text taken as one history line: the first
/// capture of the history pattern, trimmed.
pub open spec fn curl_command_in(text: Seq<char>) -> Option<Seq<char>> {
    let caps = regex_captures(history_pattern(), text, 1);
    if caps.len() > 0 && caps[0] is Some {
        Some(trim(caps[0]->0))
    } else {
        None
    }
}

/// Only a zsh timestamp prefix is removed from a history line: a line that
/// does not begin with `: ` is matched whole, so a `;` inside a bash command
/// keeps the rest of it; a line that begins with `: ` and holds a `;` is
/// matched from just after its first `;`.
pub proof fn only_zsh_prefixes_are_removed(line: Seq<char>)
    ensures
        !(line.len() >= 2 && line[0] == ':' && line[1] == ' ') ==> history_candidate(line) == curl_command_in(line),
        (line.len() >= 2 && line[0] == ':' && line[1] == ' ') ==> forall|j: int|
            0 <= j < line.len() && line[j] == ';' && (forall|m: int| 0 <= m < j ==> line[m] != ';')
                ==> history_candidate(line) == curl_command_in(#[trigger] line.subrange(j + 1, line.len() as int)),
{
    if line.len() >= 2 && line[0] == ':' && line[1] == ' ' {
        assert(line.subrange(0, 2) =~= ": "@) by {
            reveal_strlit(": ");
        }
        assert forall|j: int|
            0 <= j < line.len() && line[j] == ';' && (forall|m: int| 0 <= m < j ==> line[m] != ';')
                implies history_candidate(line) == curl_command_in(#[trigger] line.subrange(j + 1, line.len() as int)) by {
            crate::text::lemma_char_index_found(line, ';', j);
        }
    } else {
        if occurs_at(line, ": "@, 0) {
            reveal_strlit(": ");
            assert(line.subrange(0, 2)[0] == line[0]);
            assert(line.subrange(0, 2)[1] == line[1]);
        }
    }
}

} // verus!
