//! Keyword extraction: the search index stored with every command.
use crate::pattern::{capture_group_texts, match_texts, regex_captures, regex_matches};
use crate::sorted::{sorted_unique, strictly_sorted};
use crate::text::{
    chars_vec, lowercase, split_char, split_chars, split_once, split_once_chars, str_eq,
    string_of, to_lowercase, trim, trim_chars, utf8_len, utf8_len_exceeds, words, words_chars, Sep,
};
use vstd::prelude::*;

verus! {

pub open spec fn url_pattern() -> Seq<char> {
    "https?://([^/\\s]+)"@
}

pub open spec fn path_pattern() -> Seq<char> {
    "https?://[^/\\s]+/([^\\s?]+)"@
}

pub open spec fn header_pattern() -> Seq<char> {
    "-H\\s+[\"']([^\"']+)[\"']"@
}

pub open spec fn method_pattern() -> Seq<char> {
    "-X\\s+(\\w+)"@
}

pub open spec fn word_pattern() -> Seq<char> {
    "\\b[a-zA-Z]{3,}\\b"@
}

/// Pieces longer than two bytes.
pub open spec fn long_piece() -> spec_fn(Seq<char>) -> bool {
    |p: Seq<char>| utf8_len(p) > 2
}

/// Domain parts that are kept: longer than two bytes and not `www`.
pub open spec fn kept_domain_part() -> spec_fn(Seq<char>) -> bool {
    |p: Seq<char>| utf8_len(p) > 2 && p != "www"@
}

/// Words that are too common to index.
pub open spec fn is_filtered_word(w: Seq<char>) -> bool {
    w == "curl"@ || w == "http"@ || w == "https"@ || w == "www"@
}

/// Keywords from a URL's host: the lowercased host, then its long parts other than `www`.
pub open spec fn domain_keywords(domain: Seq<char>) -> Seq<Seq<char>> {
    let host = lowercase(domain);
    seq![host] + split_char(host, '.').filter(kept_domain_part())
}

/// Keywords from a URL path: its long segments, lowercased.
pub open spec fn path_keywords(path: Seq<char>) -> Seq<Seq<char>> {
    split_char(path, '/').filter(long_piece()).map_values(lowercase_fn())
}

/// Keywords from a `-H` header: the lowercased name, then the long words of the value.
pub open spec fn header_keywords(header: Seq<char>) -> Seq<Seq<char>> {
    match split_once(header, ':') {
        None => Seq::empty(),
        Some((name, value)) => {
            let n = lowercase(trim(name));
            (if n.len() > 0 {
                seq![n]
            } else {
                Seq::empty()
            }) + words(value).filter(long_piece()).map_values(lowercase_fn())
        },
    }
}

pub open spec fn method_keywords(method: Seq<char>) -> Seq<Seq<char>> {
    seq![lowercase(method)]
}

pub open spec fn word_keywords(word: Seq<char>) -> Seq<Seq<char>> {
    if is_filtered_word(lowercase(word)) {
        Seq::empty()
    } else {
        seq![lowercase(word)]
    }
}

/// Concatenates `f` over the captures that took part.
pub open spec fn over_captures(
    caps: Seq<Option<Seq<char>>>,
    f: spec_fn(Seq<char>) -> Seq<Seq<char>>,
) -> Seq<Seq<char>>
    decreases caps.len(),
{
    if caps.len() == 0 {
        Seq::empty()
    } else {
        over_captures(caps.drop_last(), f) + match caps.last() {
            Some(x) => f(x),
            None => Seq::empty(),
        }
    }
}

/// Concatenates `f` over all items.
pub open spec fn concat_map(items: Seq<Seq<char>>, f: spec_fn(Seq<char>) -> Seq<Seq<char>>) -> Seq<
    Seq<char>,
>
    decreases items.len(),
{
    if items.len() == 0 {
        Seq::empty()
    } else {
        concat_map(items.drop_last(), f) + f(items.last())
    }
}

pub open spec fn lowercase_fn() -> spec_fn(Seq<char>) -> Seq<char> {
    |p: Seq<char>| lowercase(p)
}

pub open spec fn domain_fn() -> spec_fn(Seq<char>) -> Seq<Seq<char>> {
    |d: Seq<char>| domain_keywords(d)
}

pub open spec fn path_fn() -> spec_fn(Seq<char>) -> Seq<Seq<char>> {
    |p: Seq<char>| path_keywords(p)
}

pub open spec fn header_fn() -> spec_fn(Seq<char>) -> Seq<Seq<char>> {
    |h: Seq<char>| header_keywords(h)
}

pub open spec fn method_fn() -> spec_fn(Seq<char>) -> Seq<Seq<char>> {
    |m: Seq<char>| method_keywords(m)
}

pub open spec fn word_fn() -> spec_fn(Seq<char>) -> Seq<Seq<char>> {
    |w: Seq<char>| word_keywords(w)
}

/// The keyword candidates drawn from the hosts, paths, headers and methods that
/// the patterns captured and from the words they matched, in that order.
pub open spec fn candidates_from(
    hosts: Seq<Option<Seq<char>>>,
    paths: Seq<Option<Seq<char>>>,
    headers: Seq<Option<Seq<char>>>,
    methods: Seq<Option<Seq<char>>>,
    found_words: Seq<Seq<char>>,
) -> Seq<Seq<char>> {
    over_captures(hosts, domain_fn()) + over_captures(paths, path_fn()) + over_captures(headers, header_fn())
        + over_captures(methods, method_fn()) + concat_map(found_words, word_fn())
}

/// Every keyword candidate of a command, before sorting and deduplication.
pub open spec fn keyword_candidates(command: Seq<char>) -> Seq<Seq<char>> {
    candidates_from(
        regex_captures(url_pattern(), command, 1),
        regex_captures(path_pattern(), command, 1),
        regex_captures(header_pattern(), command, 1),
        regex_captures(method_pattern(), command, 1),
        regex_matches(word_pattern(), command),
    )
}

/// The keywords of a command: exactly its candidates, sorted ascending without repeats.
pub open spec fn is_keyword_list(r: Seq<Seq<char>>, command: Seq<char>) -> bool {
    strictly_sorted(r) && r.to_set() == keyword_candidates(command).to_set()
}

fn lower_string(v: &Vec<char>) -> (r: String)
    ensures
        r@ == lowercase(v@),
{
    let s = string_of(v);
    to_lowercase(s.as_str())
}

/// Appends the long pieces of `pieces`, lowercased.
fn push_long_lowercased(out: &mut Vec<String>, pieces: &Vec<Vec<char>>, Ghost(ps): Ghost<Seq<Seq<char>>>)
    requires
        pieces@.len() == ps.len(),
        forall|k: int| 0 <= k < ps.len() ==> #[trigger] pieces@[k]@ == ps[k],
    ensures
        final(out).deep_view() == old(out).deep_view() + ps.filter(long_piece()).map_values(lowercase_fn()),
{
    let ghost base = out.deep_view();
    let mut i: usize = 0;
    proof {
        reveal(Seq::filter);
        assert(ps.subrange(0, 0).filter(long_piece()) =~= Seq::<Seq<char>>::empty());
        assert(out.deep_view() =~= base + ps.subrange(0, 0).filter(long_piece()).map_values(lowercase_fn()));
    }
    while i < pieces.len()
        invariant
            i <= ps.len(),
            pieces@.len() == ps.len(),
            forall|k: int| 0 <= k < ps.len() ==> #[trigger] pieces@[k]@ == ps[k],
            out.deep_view() == base + ps.subrange(0, i as int).filter(long_piece()).map_values(lowercase_fn()),
        decreases pieces.len() - i,
    {
        let ghost prev = ps.subrange(0, i as int).filter(long_piece());
        proof {
            assert(ps.subrange(0, i + 1) =~= ps.subrange(0, i as int).push(ps[i as int]));
            ps.subrange(0, i as int).lemma_filter_push(ps[i as int], long_piece());
            assert(pieces@[i as int]@ == ps[i as int]);
            assert(long_piece()(ps[i as int]) == (utf8_len(ps[i as int]) > 2));
        }
        if utf8_len_exceeds(&pieces[i], 2) {
            let l = lower_string(&pieces[i]);
            let ghost before = out.deep_view();
            out.push(l);
            assert(out.deep_view() =~= before.push(lowercase(ps[i as int])));
            assert(base + prev.push(ps[i as int]).map_values(lowercase_fn()) =~= before.push(lowercase(ps[i as int])));
            assert(ps.subrange(0, i + 1).filter(long_piece()) == prev.push(ps[i as int]));
            assert(prev.push(ps[i as int]).map_values(lowercase_fn()) =~= prev.map_values(lowercase_fn()).push(lowercase(ps[i as int])));
        } else {
            assert(ps.subrange(0, i + 1).filter(long_piece()) == prev);
        }
        i = i + 1;
    }
    assert(ps.subrange(0, ps.len() as int) =~= ps);
}

fn push_domain_keywords(out: &mut Vec<String>, domain: &str)
    ensures
        final(out).deep_view() == old(out).deep_view() + domain_keywords(domain@),
{
    let host = to_lowercase(domain);
    let hv = chars_vec(host.as_str());
    let parts = split_chars(&hv, Sep::Char('.'));
    let ghost ps = split_char(host@, '.');
    let ghost base = out.deep_view();
    out.push(host);
    let www = chars_vec("www");
    let mut i: usize = 0;
    proof {
        reveal(Seq::filter);
        assert(ps.subrange(0, 0).filter(kept_domain_part()) =~= Seq::<Seq<char>>::empty());
        assert(out.deep_view() =~= base + seq![lowercase(domain@)] + ps.subrange(0, 0).filter(kept_domain_part()));
    }
    while i < parts.len()
        invariant
            i <= ps.len(),
            parts@.len() == ps.len(),
            www@ == "www"@,
            forall|k: int| 0 <= k < ps.len() ==> #[trigger] parts@[k]@ == ps[k],
            out.deep_view() == base + seq![lowercase(domain@)] + ps.subrange(0, i as int).filter(kept_domain_part()),
        decreases parts.len() - i,
    {
        let ghost prev = ps.subrange(0, i as int).filter(kept_domain_part());
        proof {
            assert(ps.subrange(0, i + 1) =~= ps.subrange(0, i as int).push(ps[i as int]));
            ps.subrange(0, i as int).lemma_filter_push(ps[i as int], kept_domain_part());
            assert(parts@[i as int]@ == ps[i as int]);
        }
        let keep = utf8_len_exceeds(&parts[i], 2) && !crate::text::chars_eq(&parts[i], &www);
        assert(kept_domain_part()(ps[i as int]) == (utf8_len(ps[i as int]) > 2 && ps[i as int] != "www"@));
        if keep {
            let ghost before = out.deep_view();
            out.push(string_of(&parts[i]));
            assert(out.deep_view() =~= before.push(ps[i as int]));
            assert(ps.subrange(0, i + 1).filter(kept_domain_part()) == prev.push(ps[i as int]));
        } else {
            assert(ps.subrange(0, i + 1).filter(kept_domain_part()) == prev);
        }
        i = i + 1;
    }
    assert(ps.subrange(0, ps.len() as int) =~= ps);
    assert(domain_keywords(domain@) =~= seq![lowercase(domain@)] + ps.filter(kept_domain_part()));
}

fn push_path_keywords(out: &mut Vec<String>, path: &str)
    ensures
        final(out).deep_view() == old(out).deep_view() + path_keywords(path@),
{
    let pv = chars_vec(path);
    let segments = split_chars(&pv, Sep::Char('/'));
    push_long_lowercased(out, &segments, Ghost(split_char(path@, '/')));
}

fn push_header_keywords(out: &mut Vec<String>, header: &str)
    ensures
        final(out).deep_view() == old(out).deep_view() + header_keywords(header@),
{
    let hv = chars_vec(header);
    match split_once_chars(&hv, ':') {
        None => {
            assert(out.deep_view() =~= old(out).deep_view() + Seq::<Seq<char>>::empty());
        },
        Some((name, value)) => {
            let ghost base = out.deep_view();
            let n = lower_string(&trim_chars(&name));
            let ghost head = if n@.len() > 0 { seq![n@] } else { Seq::<Seq<char>>::empty() };
            if n.unicode_len() > 0 {
                out.push(n);
            }
            assert(out.deep_view() =~= base + head);
            let ws = words_chars(&value);
            push_long_lowercased(out, &ws, Ghost(words(value@)));
            assert(out.deep_view() =~= base + (head + words(value@).filter(long_piece()).map_values(lowercase_fn())));
        },
    }
}

fn is_filtered(w: &str) -> (r: bool)
    ensures
        r == is_filtered_word(w@),
{
    str_eq(w, "curl") || str_eq(w, "http") || str_eq(w, "https") || str_eq(w, "www")
}

/// Extracts the search keywords of a command: URL hosts and their parts, URL
/// path segments, `-H` header names and value words, `-X` methods and other
/// words of three or more letters, lowercased, without `curl`, `http`, `https`
/// and `www`, sorted ascending without repeats.
pub fn extract_keywords(command: &str) -> (r: Vec<String>)
    ensures
        is_keyword_list(r.deep_view(), command@),
{
    let urls = capture_group_texts("https?://([^/\\s]+)", command, 1);
    let paths = capture_group_texts("https?://[^/\\s]+/([^\\s?]+)", command, 1);
    let headers = capture_group_texts("-H\\s+[\"']([^\"']+)[\"']", command, 1);
    let methods = capture_group_texts("-X\\s+(\\w+)", command, 1);
    let found = match_texts("\\b[a-zA-Z]{3,}\\b", command);
    keywords_from_matches(&urls, &paths, &headers, &methods, &found)
}

/// The keywords drawn from what the patterns found in a command: the captured
/// hosts, paths, headers and methods and the matched words, sorted ascending
/// without repeats.
pub fn keywords_from_matches(
    urls: &Vec<Option<String>>,
    paths: &Vec<Option<String>>,
    headers: &Vec<Option<String>>,
    methods: &Vec<Option<String>>,
    found: &Vec<String>,
) -> (r: Vec<String>)
    ensures
        strictly_sorted(r.deep_view()),
        r.deep_view().to_set() == candidates_from(
            urls.deep_view(),
            paths.deep_view(),
            headers.deep_view(),
            methods.deep_view(),
            found.deep_view(),
        ).to_set(),
{
    let mut all: Vec<String> = Vec::new();

    let ghost caps = urls.deep_view();
    let mut i: usize = 0;
    while i < urls.len()
        invariant
            i <= urls@.len(),
            urls.deep_view() == caps,
            all.deep_view() == over_captures(caps.subrange(0, i as int), domain_fn()),
        decreases urls.len() - i,
    {
        proof {
            assert(caps.subrange(0, i + 1).drop_last() =~= caps.subrange(0, i as int));
        }
        match &urls[i] {
            Some(d) => {
                push_domain_keywords(&mut all, d.as_str());
            },
            None => {
                assert(all.deep_view() =~= all.deep_view() + Seq::<Seq<char>>::empty());
            },
        }
        i = i + 1;
    }
    assert(caps.subrange(0, caps.len() as int) =~= caps);
    let ghost part1 = all.deep_view();

    let ghost caps2 = paths.deep_view();
    let mut i: usize = 0;
    assert(all.deep_view() =~= part1 + over_captures(caps2.subrange(0, 0), path_fn()));
    while i < paths.len()
        invariant
            i <= paths@.len(),
            paths.deep_view() == caps2,
            all.deep_view() == part1 + over_captures(caps2.subrange(0, i as int), path_fn()),
        decreases paths.len() - i,
    {
        proof {
            assert(caps2.subrange(0, i + 1).drop_last() =~= caps2.subrange(0, i as int));
        }
        match &paths[i] {
            Some(p) => {
                push_path_keywords(&mut all, p.as_str());
            },
            None => {},
        }
        i = i + 1;
    }
    assert(caps2.subrange(0, caps2.len() as int) =~= caps2);
    let ghost part2 = all.deep_view();

    let ghost caps3 = headers.deep_view();
    let mut i: usize = 0;
    assert(all.deep_view() =~= part2 + over_captures(caps3.subrange(0, 0), header_fn()));
    while i < headers.len()
        invariant
            i <= headers@.len(),
            headers.deep_view() == caps3,
            all.deep_view() == part2 + over_captures(caps3.subrange(0, i as int), header_fn()),
        decreases headers.len() - i,
    {
        proof {
            assert(caps3.subrange(0, i + 1).drop_last() =~= caps3.subrange(0, i as int));
        }
        match &headers[i] {
            Some(h) => {
                push_header_keywords(&mut all, h.as_str());
            },
            None => {},
        }
        i = i + 1;
    }
    assert(caps3.subrange(0, caps3.len() as int) =~= caps3);
    let ghost part3 = all.deep_view();

    let ghost caps4 = methods.deep_view();
    let mut i: usize = 0;
    assert(all.deep_view() =~= part3 + over_captures(caps4.subrange(0, 0), method_fn()));
    while i < methods.len()
        invariant
            i <= methods@.len(),
            methods.deep_view() == caps4,
            all.deep_view() == part3 + over_captures(caps4.subrange(0, i as int), method_fn()),
        decreases methods.len() - i,
    {
        proof {
            assert(caps4.subrange(0, i + 1).drop_last() =~= caps4.subrange(0, i as int));
        }
        match &methods[i] {
            Some(m) => {
                let l = to_lowercase(m.as_str());
                let ghost before = all.deep_view();
                all.push(l);
                assert(all.deep_view() =~= before + method_keywords(m@));
            },
            None => {},
        }
        i = i + 1;
    }
    assert(caps4.subrange(0, caps4.len() as int) =~= caps4);
    let ghost part4 = all.deep_view();

    let ghost ms = found.deep_view();
    let mut i: usize = 0;
    assert(all.deep_view() =~= part4 + concat_map(ms.subrange(0, 0), word_fn()));
    while i < found.len()
        invariant
            i <= found@.len(),
            found.deep_view() == ms,
            all.deep_view() == part4 + concat_map(ms.subrange(0, i as int), word_fn()),
        decreases found.len() - i,
    {
        proof {
            assert(ms.subrange(0, i + 1).drop_last() =~= ms.subrange(0, i as int));
        }
        let l = to_lowercase(found[i].as_str());
        let ghost before = all.deep_view();
        if !is_filtered(l.as_str()) {
            all.push(l);
            assert(all.deep_view() =~= before + word_keywords(ms[i as int]));
        } else {
            assert(all.deep_view() =~= before + word_keywords(ms[i as int]));
        }
        i = i + 1;
    }
    assert(ms.subrange(0, ms.len() as int) =~= ms);
    assert(all.deep_view() =~= candidates_from(caps, caps2, caps3, caps4, ms));
    sorted_unique(&all)
}

proof fn lemma_over_captures_contains(
    caps: Seq<Option<Seq<char>>>,
    f: spec_fn(Seq<char>) -> Seq<Seq<char>>,
    j: int,
    p: Seq<char>,
    x: Seq<char>,
)
    requires
        0 <= j < caps.len(),
        caps[j] == Some(p),
        f(p).contains(x),
    ensures
        over_captures(caps, f).contains(x),
    decreases caps.len(),
{
    let prev = caps.drop_last();
    let tail = match caps.last() {
        Some(y) => f(y),
        None => Seq::<Seq<char>>::empty(),
    };
    assert(over_captures(caps, f) == over_captures(prev, f) + tail);
    if j == caps.len() - 1 {
        let fp = f(p);
        let k = choose|k: int| 0 <= k < fp.len() && #[trigger] fp[k] == x;
        assert((over_captures(prev, f) + tail)[over_captures(prev, f).len() + k] == x);
    } else {
        assert(prev[j] == caps[j]);
        lemma_over_captures_contains(prev, f, j, p, x);
        let op = over_captures(prev, f);
        let k = choose|k: int| 0 <= k < op.len() && #[trigger] op[k] == x;
        assert((over_captures(prev, f) + tail)[k] == x);
    }
}

/// URL paths are indexed: for every path the path pattern captures in a
/// command, each `/`-separated segment longer than two bytes, lowercased, is
/// among the command's keywords (what `extract_keywords` returns).
pub proof fn long_path_segments_are_keywords(command: Seq<char>, r: Seq<Seq<char>>, j: int, path: Seq<char>, t: int)
    requires
        is_keyword_list(r, command),
        0 <= j < regex_captures(path_pattern(), command, 1).len(),
        regex_captures(path_pattern(), command, 1)[j] == Some(path),
        0 <= t < split_char(path, '/').len(),
        utf8_len(split_char(path, '/')[t]) > 2,
    ensures
        r.contains(lowercase(split_char(path, '/')[t])),
{
    let seg = split_char(path, '/')[t];
    let x = lowercase(seg);
    let segs = split_char(path, '/');
    segs.lemma_filter_contains(long_piece(), t);
    let kept = segs.filter(long_piece());
    let k = choose|k: int| 0 <= k < kept.len() && #[trigger] kept[k] == seg;
    assert(kept.map_values(lowercase_fn())[k] == x);
    assert(path_keywords(path).contains(x));
    assert(path_fn()(path) == path_keywords(path));
    let caps = regex_captures(path_pattern(), command, 1);
    lemma_over_captures_contains(caps, path_fn(), j, path, x);
    let a = over_captures(regex_captures(url_pattern(), command, 1), domain_fn());
    let b = over_captures(caps, path_fn());
    let c = over_captures(regex_captures(header_pattern(), command, 1), header_fn());
    let d = over_captures(regex_captures(method_pattern(), command, 1), method_fn());
    let e = concat_map(regex_matches(word_pattern(), command), word_fn());
    let m = choose|m: int| 0 <= m < b.len() && #[trigger] b[m] == x;
    let all = a + b + c + d + e;
    assert(all == keyword_candidates(command));
    assert(all[a.len() + m] == x);
    assert(keyword_candidates(command).to_set().contains(x));
    assert(r.to_set().contains(x));
}

/// URL hosts are indexed: for every host the URL pattern captures in a
/// command, the host lowercased is among the command's keywords.
pub proof fn hosts_are_keywords(command: Seq<char>, r: Seq<Seq<char>>, j: int, host: Seq<char>)
    requires
        is_keyword_list(r, command),
        0 <= j < regex_captures(url_pattern(), command, 1).len(),
        regex_captures(url_pattern(), command, 1)[j] == Some(host),
    ensures
        r.contains(lowercase(host)),
{
    let x = lowercase(host);
    assert(domain_keywords(host)[0] == x);
    assert(domain_fn()(host).contains(x));
    let caps = regex_captures(url_pattern(), command, 1);
    lemma_over_captures_contains(caps, domain_fn(), j, host, x);
    let a = over_captures(caps, domain_fn());
    let m = choose|m: int| 0 <= m < a.len() && #[trigger] a[m] == x;
    let all = keyword_candidates(command);
    assert(all[m] == x);
    assert(all.to_set().contains(x));
    assert(r.to_set().contains(x));
}

} // verus!
