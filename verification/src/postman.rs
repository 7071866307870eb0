//! Importing a Postman Collection v2.1 export as a new shelf of curl commands.
//! The collection is read into plain values first; auth settings and scripts
//! only matter by their presence, since requests that use them are skipped.
use crate::config::{is_valid_name, shelf_name_error, validate_shelf_name};
use crate::database::{
    first_with_command, is_new_entry, pair_of, pairs_of, CommandDatabase, StoredCommand,
};
use crate::text::{
    ascii_lower_seq, chars_vec, contains_str, decimal, decimal_string, has_sub, join_seqs, join_strings, push_char, str_eq,
    string_of, trim, trim_str,
};
use vstd::prelude::*;

verus! {

/// A collection: its info, its items, and whether it sets auth or scripts.
#[derive(Debug)]
pub struct PostmanCollection {
    pub info: PostmanCollectionInfo,
    pub item: Vec<PostmanItem>,
    pub has_auth: bool,
    pub has_events: bool,
}

#[derive(Debug)]
pub struct PostmanCollectionInfo {
    pub name: Option<String>,
    pub schema: Option<String>,
}

/// A folder or a request, with the items under it.
#[derive(Debug)]
pub struct PostmanItem {
    pub name: Option<String>,
    pub item: Vec<PostmanItem>,
    pub request: Option<PostmanRequest>,
    pub has_auth: bool,
    pub has_events: bool,
}

#[derive(Debug)]
pub struct PostmanRequest {
    pub method: Option<String>,
    pub header: Vec<PostmanHeader>,
    pub body: Option<PostmanBody>,
    pub url: Option<PostmanUrl>,
    pub has_auth: bool,
    pub has_events: bool,
}

#[derive(Debug)]
pub struct PostmanHeader {
    pub key: Option<String>,
    pub value: Option<String>,
    pub disabled: Option<bool>,
}

#[derive(Debug)]
pub struct PostmanBody {
    pub mode: Option<String>,
    pub raw: Option<String>,
}

/// A URL given as text or as an object with a `raw` field.
#[derive(Debug)]
pub enum PostmanUrl {
    Raw(String),
    Detailed { raw: Option<String> },
}

/// A request that was not imported, and why.
#[derive(Debug, Clone, PartialEq, Eq)]
pub struct PostmanImportWarning {
    pub request_name: String,
    pub reason: String,
}

/// Whether auth or scripts apply to a request, from it or from a folder above.
#[derive(Debug, Clone, Copy, PartialEq, Eq, Structural)]
pub struct UnsupportedContext {
    pub auth: bool,
    pub scripts: bool,
}

impl UnsupportedContext {
    /// The context under an item that may add auth or scripts.
    pub fn next(self, auth: bool, scripts: bool) -> (r: Self)
        ensures
            r.auth == (self.auth || auth),
            r.scripts == (self.scripts || scripts),
    {
        UnsupportedContext { auth: self.auth || auth, scripts: self.scripts || scripts }
    }
}

pub open spec fn next_context(c: UnsupportedContext, auth: bool, scripts: bool) -> UnsupportedContext {
    UnsupportedContext { auth: c.auth || auth, scripts: c.scripts || scripts }
}

/// A text trimmed, when something is left of it.
pub open spec fn trimmed_nonempty(o: Option<String>) -> Option<Seq<char>> {
    match o {
        Some(s) => if trim(s@).len() > 0 {
            Some(trim(s@))
        } else {
            None
        },
        None => None,
    }
}

fn trimmed_text(o: &Option<String>) -> (r: Option<String>)
    ensures
        match trimmed_nonempty(*o) {
            Some(t) => r matches Some(x) && x@ == t,
            None => r is None,
        },
{
    match o {
        Some(s) => {
            let t = trim_str(s.as_str());
            if t.as_str().is_empty() {
                None
            } else {
                Some(t)
            }
        },
        None => None,
    }
}

/// The URL of a request, trimmed; none when it is missing or blank.
pub open spec fn url_of(url: Option<PostmanUrl>) -> Option<Seq<char>> {
    match url {
        None => None,
        Some(PostmanUrl::Raw(v)) => if trim(v@).len() > 0 {
            Some(trim(v@))
        } else {
            None
        },
        Some(PostmanUrl::Detailed { raw }) => trimmed_nonempty(raw),
    }
}

pub fn extract_url(url: Option<&PostmanUrl>) -> (r: Option<String>)
    ensures
        match url_of(
            match url {
                Some(u) => Some(*u),
                None => None,
            },
        ) {
            Some(t) => r matches Some(x) && x@ == t,
            None => r is None,
        },
{
    match url {
        None => None,
        Some(PostmanUrl::Raw(value)) => {
            let t = trim_str(value.as_str());
            if t.as_str().is_empty() {
                None
            } else {
                Some(t)
            }
        },
        Some(PostmanUrl::Detailed { raw }) => trimmed_text(raw),
    }
}

/// A `'` inside a single-quoted word: close, a double-quoted quote, reopen.
pub open spec fn quote_escape() -> Seq<char> {
    seq!['\'', '"', '\'', '"', '\'']
}

pub open spec fn replace_quotes(v: Seq<char>) -> Seq<char>
    decreases v.len(),
{
    if v.len() == 0 {
        v
    } else {
        replace_quotes(v.drop_last()) + if v.last() == '\'' {
            quote_escape()
        } else {
            seq![v.last()]
        }
    }
}

/// A value between single quotes, each `'` written as `'"'"'`.
pub open spec fn quoted(v: Seq<char>) -> Seq<char> {
    seq!['\''] + replace_quotes(v) + seq!['\'']
}

/// Quotes a value for the shell.
pub fn shell_quote(value: &str) -> (r: String)
    ensures
        r@ == quoted(value@),
{
    let v = chars_vec(value);
    let mut out = String::new();
    push_char(&mut out, '\'');
    let mut i: usize = 0;
    assert(v@.subrange(0, 0) =~= Seq::<char>::empty());
    while i < v.len()
        invariant
            v@ == value@,
            i <= v@.len(),
            out@ == seq!['\''] + replace_quotes(v@.subrange(0, i as int)),
        decreases v.len() - i,
    {
        let c = v[i];
        let ghost before = out@;
        if c == '\'' {
            push_char(&mut out, '\'');
            push_char(&mut out, '"');
            push_char(&mut out, '\'');
            push_char(&mut out, '"');
            push_char(&mut out, '\'');
        } else {
            push_char(&mut out, c);
        }
        assert(v@.subrange(0, i + 1).drop_last() =~= v@.subrange(0, i as int));
        assert(out@ =~= before + if c == '\'' {
            quote_escape()
        } else {
            seq![c]
        });
        i = i + 1;
    }
    push_char(&mut out, '\'');
    assert(v@.subrange(0, v@.len() as int) =~= v@);
    out
}

pub open spec fn missing_key_message() -> Seq<char> {
    "contains a header without a key"@
}

/// The `key: value` texts of the enabled headers (`key:` for an empty value),
/// or an error when an enabled header has no key.
pub open spec fn header_texts(hs: Seq<PostmanHeader>) -> Result<Seq<Seq<char>>, Seq<char>>
    decreases hs.len(),
{
    if hs.len() == 0 {
        Ok(Seq::empty())
    } else {
        match header_texts(hs.drop_last()) {
            Err(e) => Err(e),
            Ok(r) => {
                let h = hs.last();
                if h.disabled == Some(true) {
                    Ok(r)
                } else {
                    match trimmed_nonempty(h.key) {
                        None => Err(missing_key_message()),
                        Some(k) => {
                            let v = match h.value {
                                Some(x) => x@,
                                None => Seq::empty(),
                            };
                            Ok(
                                r.push(
                                    if v.len() == 0 {
                                        k + ":"@
                                    } else {
                                        k + ": "@ + v
                                    },
                                ),
                            )
                        },
                    }
                }
            },
        }
    }
}

/// The header texts of the enabled headers.
pub fn enabled_headers(headers: &Vec<PostmanHeader>) -> (r: Result<Vec<String>, String>)
    ensures
        match header_texts(headers@) {
            Ok(hs) => r matches Ok(v) && v.deep_view() == hs,
            Err(m) => r matches Err(e) && e@ == m,
        },
{
    let mut enabled: Vec<String> = Vec::new();
    let mut i: usize = 0;
    assert(headers@.subrange(0, 0) =~= Seq::<PostmanHeader>::empty());
    assert(enabled.deep_view() =~= Seq::<Seq<char>>::empty());
    while i < headers.len()
        invariant
            i <= headers@.len(),
            header_texts(headers@.subrange(0, i as int)) == Ok::<Seq<Seq<char>>, Seq<char>>(enabled.deep_view()),
        decreases headers.len() - i,
    {
        let h = &headers[i];
        assert(headers@.subrange(0, i + 1).drop_last() =~= headers@.subrange(0, i as int));
        assert(headers@.subrange(0, i + 1).last() == *h);
        let disabled = match h.disabled {
            Some(d) => d,
            None => false,
        };
        if !disabled {
            let key = match trimmed_text(&h.key) {
                Some(k) => k,
                None => {
                    proof {
                        lemma_header_texts_err(headers@, i as int + 1, missing_key_message());
                    }
                    return Err(String::from_str("contains a header without a key"));
                },
            };
            let mut text = key;
            let empty_value = match &h.value {
                Some(v) => v.as_str().is_empty(),
                None => true,
            };
            if empty_value {
                text.append(":");
                proof {
                    if h.value is Some {
                        assert(h.value->0@ =~= Seq::<char>::empty());
                    }
                }
            } else {
                text.append(": ");
                match &h.value {
                    Some(v) => text.append(v.as_str()),
                    None => {},
                }
            }
            let ghost before = enabled.deep_view();
            enabled.push(text);
            assert(enabled.deep_view() =~= before.push(text@));
        }
        i = i + 1;
    }
    assert(headers@.subrange(0, i as int) =~= headers@);
    Ok(enabled)
}

proof fn lemma_header_texts_err(hs: Seq<PostmanHeader>, n: int, e: Seq<char>)
    requires
        0 <= n <= hs.len(),
        header_texts(hs.subrange(0, n)) == Err::<Seq<Seq<char>>, Seq<char>>(e),
    ensures
        header_texts(hs) == Err::<Seq<Seq<char>>, Seq<char>>(e),
    decreases hs.len() - n,
{
    if n < hs.len() {
        assert(hs.subrange(0, n + 1).drop_last() =~= hs.subrange(0, n));
        lemma_header_texts_err(hs, n + 1, e);
    } else {
        assert(hs.subrange(0, n) =~= hs);
    }
}

pub open spec fn header_parts(hs: Seq<Seq<char>>) -> Seq<Seq<char>>
    decreases hs.len(),
{
    if hs.len() == 0 {
        Seq::empty()
    } else {
        header_parts(hs.drop_last()) + seq!["-H"@, quoted(hs.last())]
    }
}

pub open spec fn auth_message() -> Seq<char> {
    "uses auth or auth inheritance, which is not supported yet"@
}

pub open spec fn scripts_message() -> Seq<char> {
    "uses scripts, which are not supported yet"@
}

/// The raw text of a body, empty when absent.
pub open spec fn raw_text(b: PostmanBody) -> Seq<char> {
    match b.raw {
        Some(r) => r@,
        None => Seq::empty(),
    }
}

/// The curl arguments of a request body: a raw body is sent with
/// `--data-raw`; other body modes are not supported.
pub open spec fn body_parts(body: Option<PostmanBody>) -> Result<Seq<Seq<char>>, Seq<char>> {
    match body {
        None => Ok(Seq::empty()),
        Some(b) => match b.mode {
            None => Ok(Seq::empty()),
            Some(mode) => if mode@ == "raw"@ {
                Ok(
                    seq![
                        "--data-raw"@,
                        quoted(raw_text(b)),
                    ],
                )
            } else {
                Err("uses unsupported body mode '"@ + mode@ + "'"@)
            },
        },
    }
}

/// The curl command of a request: the method unless it is `GET`, the headers,
/// a raw body, then the URL, each quoted; or why the request is skipped.
pub open spec fn curl_of_request(req: PostmanRequest, context: UnsupportedContext) -> Result<Seq<char>, Seq<char>> {
    let c = next_context(context, req.has_auth, req.has_events);
    if c.auth {
        Err(auth_message())
    } else if c.scripts {
        Err(scripts_message())
    } else {
        match trimmed_nonempty(req.method) {
            None => Err("is missing an HTTP method"@),
            Some(m) => match url_of(req.url) {
                None => Err("is missing a raw URL"@),
                Some(u) => {
                    let start = seq!["curl"@] + if ascii_lower_seq(m) != ascii_lower_seq("GET"@) {
                        seq!["-X"@, quoted(m)]
                    } else {
                        Seq::empty()
                    };
                    match header_texts(req.header@) {
                        Err(e) => Err(e),
                        Ok(hs) => {
                            let with_headers = start + header_parts(hs);
                            match body_parts(req.body) {
                                Err(e) => Err(e),
                                Ok(bp) => Ok(join_seqs(with_headers + bp + seq![quoted(u)], " "@)),
                            }
                        },
                    }
                },
            },
        }
    }
}

fn push_part(parts: &mut Vec<String>, part: String)
    ensures
        final(parts).deep_view() == old(parts).deep_view().push(part@),
{
    let ghost before = parts.deep_view();
    parts.push(part);
    assert(parts.deep_view() =~= before.push(part@));
}

/// Builds the curl command of a request, or says why it is skipped.
pub fn convert_request_to_curl(request: &PostmanRequest, context: UnsupportedContext) -> (r: Result<String, String>)
    ensures
        match curl_of_request(*request, context) {
            Ok(c) => r matches Ok(x) && x@ == c,
            Err(m) => r matches Err(e) && e@ == m,
        },
{
    let c = context.next(request.has_auth, request.has_events);
    if c.auth {
        return Err(String::from_str("uses auth or auth inheritance, which is not supported yet"));
    }
    if c.scripts {
        return Err(String::from_str("uses scripts, which are not supported yet"));
    }
    let method = match trimmed_text(&request.method) {
        Some(m) => m,
        None => {
            return Err(String::from_str("is missing an HTTP method"));
        },
    };
    let url = match extract_url(request.url.as_ref()) {
        Some(u) => u,
        None => {
            return Err(String::from_str("is missing a raw URL"));
        },
    };
    let mut parts: Vec<String> = Vec::new();
    push_part(&mut parts, String::from_str("curl"));
    if !crate::curl_runner::eq_ignore_ascii_case(method.as_str(), "GET") {
        push_part(&mut parts, String::from_str("-X"));
        push_part(&mut parts, shell_quote(method.as_str()));
    }
    let ghost start = parts.deep_view();
    assert(start =~= seq!["curl"@] + if ascii_lower_seq(method@) != ascii_lower_seq("GET"@) {
        seq!["-X"@, quoted(method@)]
    } else {
        Seq::<Seq<char>>::empty()
    });
    let headers = match enabled_headers(&request.header) {
        Ok(h) => h,
        Err(e) => {
            return Err(e);
        },
    };
    let ghost hv = headers.deep_view();
    let mut i: usize = 0;
    assert(hv.subrange(0, 0) =~= Seq::<Seq<char>>::empty());
    assert(parts.deep_view() =~= start + header_parts(hv.subrange(0, 0)));
    while i < headers.len()
        invariant
            i <= headers@.len(),
            hv == headers.deep_view(),
            parts.deep_view() == start + header_parts(hv.subrange(0, i as int)),
        decreases headers.len() - i,
    {
        assert(hv.subrange(0, i + 1).drop_last() =~= hv.subrange(0, i as int));
        assert(hv.subrange(0, i + 1).last() == headers@[i as int]@);
        let ghost before = parts.deep_view();
        push_part(&mut parts, String::from_str("-H"));
        push_part(&mut parts, shell_quote(headers[i].as_str()));
        assert(parts.deep_view() =~= before + seq!["-H"@, quoted(headers@[i as int]@)]);
        i = i + 1;
    }
    assert(hv.subrange(0, i as int) =~= hv);
    let ghost with_headers = parts.deep_view();
    let ghost mut bp: Seq<Seq<char>> = Seq::empty();
    match &request.body {
        None => {
            assert(body_parts(request.body) == Ok::<Seq<Seq<char>>, Seq<char>>(bp));
        },
        Some(body) => match &body.mode {
            None => {
                assert(body_parts(request.body) == Ok::<Seq<Seq<char>>, Seq<char>>(bp));
            },
            Some(mode) => {
                if str_eq(mode.as_str(), "raw") {
                    push_part(&mut parts, String::from_str("--data-raw"));
                    let raw = match &body.raw {
                        Some(r) => shell_quote(r.as_str()),
                        None => shell_quote(""),
                    };
                    proof {
                        reveal_strlit("");
                        assert(""@ =~= Seq::<char>::empty());
                        assert(raw@ == quoted(raw_text(*body)));
                        assert(request.body == Some(*body));
                        assert(body.mode == Some(*mode));
                        assert(mode@ == "raw"@);
                        bp = seq!["--data-raw"@, raw@];
                        assert(body_parts(request.body) == Ok::<Seq<Seq<char>>, Seq<char>>(bp));
                    }
                    push_part(&mut parts, raw);
                } else {
                    let mut m = String::from_str("uses unsupported body mode '");
                    m.append(mode.as_str());
                    m.append("'");
                    return Err(m);
                }
            },
        },
    }
    let ghost with_body = parts.deep_view();
    push_part(&mut parts, shell_quote(url.as_str()));
    proof {
        assert(with_body =~= with_headers + bp);
        assert(parts.deep_view() =~= with_headers + bp + seq![quoted(url@)]);
        assert(trimmed_nonempty(request.method) == Some(method@));
        assert(url_of(request.url) == Some(url@));
        assert(header_texts(request.header@) == Ok::<Seq<Seq<char>>, Seq<char>>(hv));
        assert(with_headers == start + header_parts(hv));
        let c = next_context(context, request.has_auth, request.has_events);
        assert(!c.auth && !c.scripts);
        assert(body_parts(request.body) == Ok::<Seq<Seq<char>>, Seq<char>>(bp));
        assert(curl_of_request(*request, context) == Ok::<Seq<char>, Seq<char>>(join_seqs(parts.deep_view(), " "@)));
    }
    Ok(join_strings(&parts, " "))
}

/// What an import has gathered: the database's (command, description) pairs
/// and the (request name, reason) pairs of skipped requests.
pub struct ImportState {
    pub pairs: Seq<(Seq<char>, Option<Seq<char>>)>,
    pub warnings: Seq<(Seq<char>, Seq<char>)>,
}

pub open spec fn request_name(item: PostmanItem) -> Seq<char> {
    match trimmed_nonempty(item.name) {
        Some(n) => n,
        None => "Unnamed request"@,
    }
}

/// One request imported: its command added unless the same command is
/// already there, or a warning.
pub open spec fn import_request_step(
    item: PostmanItem,
    req: PostmanRequest,
    context: UnsupportedContext,
    st: ImportState,
) -> ImportState {
    match curl_of_request(req, context) {
        Ok(cmd) => if first_with_command(st.pairs, cmd) < 0 {
            ImportState { pairs: st.pairs.push((cmd, trimmed_nonempty(item.name))), warnings: st.warnings }
        } else {
            ImportState {
                pairs: st.pairs,
                warnings: st.warnings.push((request_name(item), "generated a duplicate command"@)),
            }
        },
        Err(reason) => ImportState { pairs: st.pairs, warnings: st.warnings.push((request_name(item), reason)) },
    }
}

/// The items imported in order, each request before the items under it.
pub open spec fn import_list(items: Seq<PostmanItem>, context: UnsupportedContext, st: ImportState) -> ImportState
    decreases items,
{
    if items.len() == 0 {
        st
    } else {
        let item = items[0];
        let c = next_context(context, item.has_auth, item.has_events);
        let st1 = match item.request {
            Some(r) => import_request_step(item, r, c, st),
            None => st,
        };
        let st2 = if item.item@.len() > 0 {
            import_list(item.item@, c, st1)
        } else {
            st1
        };
        import_list(items.subrange(1, items.len() as int), context, st2)
    }
}

pub open spec fn warnings_view(w: Seq<PostmanImportWarning>) -> Seq<(Seq<char>, Seq<char>)> {
    Seq::new(w.len(), |k: int| (w[k].request_name@, w[k].reason@))
}

pub open spec fn state_of(db: CommandDatabase, w: Seq<PostmanImportWarning>) -> ImportState {
    ImportState { pairs: pairs_of(db.commands@), warnings: warnings_view(w) }
}

fn push_warning(warnings: &mut Vec<PostmanImportWarning>, request_name: String, reason: String)
    ensures
        warnings_view(final(warnings)@) == warnings_view(old(warnings)@).push((request_name@, reason@)),
{
    let ghost before = warnings_view(warnings@);
    let w = PostmanImportWarning { request_name, reason };
    warnings.push(w);
    assert(warnings_view(warnings@) =~= before.push((w.request_name@, w.reason@)));
}

/// Imports one request into the database, or records why it was skipped.
pub fn import_request(
    item: &PostmanItem,
    request: &PostmanRequest,
    context: UnsupportedContext,
    database: &mut CommandDatabase,
    warnings: &mut Vec<PostmanImportWarning>,
)
    ensures
        state_of(*final(database), final(warnings)@) == import_request_step(
            *item,
            *request,
            context,
            state_of(*old(database), old(warnings)@),
        ),
{
    let name = match trimmed_text(&item.name) {
        Some(n) => n,
        None => String::from_str("Unnamed request"),
    };
    match convert_request_to_curl(request, context) {
        Ok(command) => {
            let description = trimmed_text(&item.name);
            let ghost before = database.commands@;
            let ghost cmd = command@;
            let ghost desc = description.deep_view();
            let added = database.add_command(command, description);
            if !added {
                push_warning(warnings, name, String::from_str("generated a duplicate command"));
            } else {
                proof {
                    let e = database.commands@.last();
                    assert(database.commands@ =~= before.push(e));
                    assert(pair_of(e) == (cmd, desc));
                    assert(pairs_of(database.commands@) =~= pairs_of(before).push((cmd, desc)));
                    assert(desc == trimmed_nonempty(item.name));
                }
            }
        },
        Err(reason) => {
            push_warning(warnings, name, reason);
        },
    }
}

/// Imports the items in order, each request before the items under it.
pub fn import_items(
    items: &Vec<PostmanItem>,
    context: UnsupportedContext,
    database: &mut CommandDatabase,
    warnings: &mut Vec<PostmanImportWarning>,
)
    ensures
        state_of(*final(database), final(warnings)@) == import_list(
            items@,
            context,
            state_of(*old(database), old(warnings)@),
        ),
    decreases items@,
{
    let mut k: usize = 0;
    let ghost start = state_of(*database, warnings@);
    assert(items@.subrange(0, items@.len() as int) =~= items@);
    while k < items.len()
        invariant
            k <= items@.len(),
            import_list(items@, context, start) == import_list(
                items@.subrange(k as int, items@.len() as int),
                context,
                state_of(*database, warnings@),
            ),
        decreases items.len() - k,
    {
        let item = &items[k];
        let ghost rest = items@.subrange(k as int, items@.len() as int);
        assert(rest[0] == *item);
        assert(rest.subrange(1, rest.len() as int) =~= items@.subrange(k + 1, items@.len() as int));
        let item_context = context.next(item.has_auth, item.has_events);
        if let Some(request) = &item.request {
            import_request(item, request, item_context, database, warnings);
        }
        if item.item.len() > 0 {
            assert(decreases_to!(items@ => items@[k as int].item@)) by {
                assert(decreases_to!(items@ => items@[k as int]));
                assert(decreases_to!(items@[k as int] => items@[k as int].item));
                assert(decreases_to!(items@[k as int].item => items@[k as int].item@));
            }
            import_items(&item.item, item_context, database, warnings);
        }
        k = k + 1;
    }
}

/// The error of an import that added nothing, listing the skipped requests.
pub open spec fn all_skipped_message(warnings: Seq<(Seq<char>, Seq<char>)>) -> Seq<char> {
    let lines = seq!["Postman import failed: no supported requests were found."@] + if warnings.len() > 0 {
        seq!["Skipped requests:"@] + Seq::new(
            warnings.len(),
            |k: int| "- "@ + warnings[k].0 + ": "@ + warnings[k].1,
        )
    } else {
        Seq::empty()
    };
    join_seqs(lines, "\n"@)
}

pub fn format_all_skipped_error(warnings: Vec<PostmanImportWarning>) -> (r: String)
    ensures
        r@ == all_skipped_message(warnings_view(warnings@)),
{
    let ghost wv = warnings_view(warnings@);
    let mut lines: Vec<String> = Vec::new();
    push_part(&mut lines, String::from_str("Postman import failed: no supported requests were found."));
    let ghost head = lines.deep_view();
    assert(head =~= seq!["Postman import failed: no supported requests were found."@]);
    if warnings.len() > 0 {
        push_part(&mut lines, String::from_str("Skipped requests:"));
        let ghost mid = lines.deep_view();
        let mut k: usize = 0;
        while k < warnings.len()
            invariant
                k <= warnings@.len(),
                wv == warnings_view(warnings@),
                lines.deep_view() == mid + Seq::new(k as nat, |j: int| "- "@ + wv[j].0 + ": "@ + wv[j].1),
            decreases warnings.len() - k,
        {
            let mut l = String::from_str("- ");
            l.append(warnings[k].request_name.as_str());
            l.append(": ");
            l.append(warnings[k].reason.as_str());
            push_part(&mut lines, l);
            assert(lines.deep_view() =~= mid + Seq::new((k + 1) as nat, |j: int| "- "@ + wv[j].0 + ": "@ + wv[j].1));
            k = k + 1;
        }
        assert(lines.deep_view() =~= head + (seq!["Skipped requests:"@] + Seq::new(wv.len(), |j: int| "- "@ + wv[j].0 + ": "@ + wv[j].1)));
    } else {
        assert(lines.deep_view() =~= head + Seq::<Seq<char>>::empty());
    }
    join_strings(&lines, "\n")
}

pub open spec fn schema_error(schema: Option<String>) -> Option<Seq<char>> {
    match schema {
        None => Some("Unsupported Postman collection schema: missing info.schema."@),
        Some(s) => if has_sub(s@, "/collection/v2.1"@) {
            None
        } else {
            Some("Unsupported Postman collection schema '"@ + s@ + "'. Expected Collection v2.1 export."@)
        },
    }
}

/// Only Collection v2.1 exports are imported.
pub fn validate_collection_schema(collection: &PostmanCollection) -> (r: Result<(), String>)
    ensures
        match schema_error(collection.info.schema) {
            Some(m) => r matches Err(e) && e@ == m,
            None => r is Ok,
        },
{
    match &collection.info.schema {
        None => Err(String::from_str("Unsupported Postman collection schema: missing info.schema.")),
        Some(schema) => if contains_str(schema.as_str(), "/collection/v2.1") {
            Ok(())
        } else {
            let mut m = String::from_str("Unsupported Postman collection schema '");
            m.append(schema.as_str());
            m.append("'. Expected Collection v2.1 export.");
            Err(m)
        },
    }
}

pub open spec fn missing_name_message() -> Seq<char> {
    "Postman collection is missing a usable info.name for shelf creation."@
}

/// The shelf an import creates: the override, else the collection's name
/// trimmed; it must be a valid shelf name.
pub open spec fn import_shelf_name(collection: PostmanCollection, shelf_override: Option<Seq<char>>) -> Result<Seq<char>, Seq<char>> {
    let picked = match shelf_override {
        Some(s) => Some(s),
        None => trimmed_nonempty(collection.info.name),
    };
    match picked {
        None => Err(missing_name_message()),
        Some(n) => if is_valid_name(n) {
            Ok(n)
        } else {
            Err(shelf_name_error())
        },
    }
}

pub fn resolve_shelf_name(collection: &PostmanCollection, shelf_override: Option<&str>) -> (r: Result<String, String>)
    ensures
        match import_shelf_name(
            *collection,
            match shelf_override {
                Some(s) => Some(s@),
                None => None,
            },
        ) {
            Ok(n) => r matches Ok(x) && x@ == n,
            Err(m) => r matches Err(e) && e@ == m,
        },
{
    let name = match shelf_override {
        Some(s) => String::from_str(s),
        None => match trimmed_text(&collection.info.name) {
            Some(n) => n,
            None => {
                return Err(String::from_str("Postman collection is missing a usable info.name for shelf creation."));
            },
        },
    };
    match validate_shelf_name(name.as_str()) {
        Ok(()) => Ok(name),
        Err(e) => Err(e),
    }
}

/// A collection imported as a new shelf.
#[derive(Debug)]
pub struct PostmanImportOutcome {
    pub shelf_name: String,
    pub database: CommandDatabase,
    pub warnings: Vec<PostmanImportWarning>,
}

/// What importing a collection gives: the shelf name and the imported state,
/// or the first error among the schema, the shelf name and an import that
/// added nothing.
pub open spec fn import_outcome(collection: PostmanCollection, shelf_override: Option<Seq<char>>) -> Result<
    (Seq<char>, ImportState),
    Seq<char>,
> {
    match schema_error(collection.info.schema) {
        Some(m) => Err(m),
        None => match import_shelf_name(collection, shelf_override) {
            Err(m) => Err(m),
            Ok(name) => {
                let st = import_list(
                    collection.item@,
                    UnsupportedContext { auth: collection.has_auth, scripts: collection.has_events },
                    ImportState { pairs: Seq::empty(), warnings: Seq::empty() },
                );
                if st.pairs.len() == 0 {
                    Err(all_skipped_message(st.warnings))
                } else {
                    Ok((name, st))
                }
            },
        },
    }
}

/// Imports a collection as a new shelf.
pub fn import_collection(collection: &PostmanCollection, shelf_override: Option<&str>) -> (r: Result<PostmanImportOutcome, String>)
    ensures
        match import_outcome(
            *collection,
            match shelf_override {
                Some(s) => Some(s@),
                None => None,
            },
        ) {
            Ok((name, st)) => r matches Ok(o) && o.shelf_name@ == name && state_of(o.database, o.warnings@) == st,
            Err(m) => r matches Err(e) && e@ == m,
        },
{
    if let Err(e) = validate_collection_schema(collection) {
        return Err(e);
    }
    let shelf_name = match resolve_shelf_name(collection, shelf_override) {
        Ok(n) => n,
        Err(e) => {
            return Err(e);
        },
    };
    let mut database = CommandDatabase::new();
    let mut warnings: Vec<PostmanImportWarning> = Vec::new();
    let context = UnsupportedContext { auth: collection.has_auth, scripts: collection.has_events };
    assert(state_of(database, warnings@) == ImportState { pairs: Seq::<(Seq<char>, Option<Seq<char>>)>::empty(), warnings: Seq::<(Seq<char>, Seq<char>)>::empty() }) by {
        assert(pairs_of(database.commands@) =~= Seq::<(Seq<char>, Option<Seq<char>>)>::empty());
        assert(warnings_view(warnings@) =~= Seq::<(Seq<char>, Seq<char>)>::empty());
    }
    import_items(&collection.item, context, &mut database, &mut warnings);
    if database.commands.len() == 0 {
        return Err(format_all_skipped_error(warnings));
    }
    Ok(PostmanImportOutcome { shelf_name, database, warnings })
}


/// "request" for one, "requests" otherwise.
pub open spec fn request_label(n: nat) -> Seq<char> {
    if n == 1 {
        "request"@
    } else {
        "requests"@
    }
}

fn request_label_text(n: usize) -> (r: &'static str)
    ensures
        r@ == request_label(n as nat),
{
    if n == 1 {
        "request"
    } else {
        "requests"
    }
}

/// The line that reports an import.
pub open spec fn import_summary_line(imported: nat, skipped: nat, shelf: Seq<char>, team: Option<Seq<char>>) -> Seq<
    char,
> {
    "Imported "@ + decimal(imported) + " "@ + request_label(imported) + " into shelf '"@ + shelf + match team {
        Some(t) => "' for team '"@ + t + "'. Skipped "@,
        None => "'. Skipped "@,
    } + decimal(skipped) + " "@ + request_label(skipped) + "."@
}

pub open spec fn warning_line(w: PostmanImportWarning) -> Seq<char> {
    "- "@ + w.request_name@ + ": "@ + w.reason@
}

/// The warning lines of an import: none when nothing was skipped, else a
/// count and one line per skipped request.
pub open spec fn import_warning_lines(warnings: Seq<PostmanImportWarning>) -> Seq<Seq<char>> {
    if warnings.len() == 0 {
        Seq::empty()
    } else {
        seq![
            "Warning: skipped "@ + decimal(warnings.len()) + " "@ + request_label(warnings.len())
                + " during Postman import."@,
        ] + Seq::new(warnings.len(), |k: int| warning_line(warnings[k]))
    }
}

/// The summary of an import: the report line and the warning lines.
pub fn import_summary(
    imported: usize,
    warnings: &Vec<PostmanImportWarning>,
    shelf: &str,
    team: Option<&str>,
) -> (r: (String, Vec<String>))
    ensures
        r.0@ == import_summary_line(
            imported as nat,
            warnings@.len(),
            shelf@,
            match team {
                Some(t) => Some(t@),
                None => None,
            },
        ),
        r.1.deep_view() == import_warning_lines(warnings@),
{
    let skipped = warnings.len();
    let mut line = String::from_str("Imported ");
    let count = decimal_string(imported);
    line.append(count.as_str());
    line.append(" ");
    line.append(request_label_text(imported));
    line.append(" into shelf '");
    line.append(shelf);
    match team {
        Some(t) => {
            line.append("' for team '");
            line.append(t);
            line.append("'. Skipped ");
        },
        None => {
            line.append("'. Skipped ");
        },
    }
    let skipped_text = decimal_string(skipped);
    line.append(skipped_text.as_str());
    line.append(" ");
    line.append(request_label_text(skipped));
    line.append(".");
    proof {
        let tail = match team {
            Some(t) => "' for team '"@ + t@ + "'. Skipped "@,
            None => "'. Skipped "@,
        };
        assert(line@ =~= "Imported "@ + decimal(imported as nat) + " "@ + request_label(imported as nat)
            + " into shelf '"@ + shelf@ + tail + decimal(skipped as nat) + " "@ + request_label(
            skipped as nat,
        ) + "."@);
    }
    let mut lines: Vec<String> = Vec::new();
    if skipped > 0 {
        let mut head = String::from_str("Warning: skipped ");
        head.append(skipped_text.as_str());
        head.append(" ");
        head.append(request_label_text(skipped));
        head.append(" during Postman import.");
        lines.push(head);
        let mut i: usize = 0;
        while i < skipped
            invariant
                skipped == warnings@.len(),
                i <= skipped,
                lines@.len() == i + 1,
                lines@[0]@ == "Warning: skipped "@ + decimal(skipped as nat) + " "@ + request_label(
                    skipped as nat,
                ) + " during Postman import."@,
                forall|k: int| 0 <= k < i ==> #[trigger] lines@[k + 1]@ == warning_line(warnings@[k]),
            decreases skipped - i,
        {
            let mut w = String::from_str("- ");
            w.append(warnings[i].request_name.as_str());
            w.append(": ");
            w.append(warnings[i].reason.as_str());
            lines.push(w);
            i = i + 1;
        }
        assert(lines.deep_view() =~= import_warning_lines(warnings@)) by {
            assert forall|k: int| 1 <= k < lines@.len() implies #[trigger] lines.deep_view()[k]
                == import_warning_lines(warnings@)[k] by {
                assert(lines@[(k - 1) + 1]@ == warning_line(warnings@[k - 1]));
            }
        }
    } else {
        assert(lines.deep_view() =~= import_warning_lines(warnings@));
    }
    (line, lines)
}

/// The refusal to import into a shelf whose file exists.
pub fn import_target_exists_message(shelf: &str) -> (r: String)
    ensures
        r@ == "Shelf '"@ + shelf@
            + "' already exists. Use --target-shelf <NAME> to choose a different shelf name for this import."@,
{
    let mut m = String::from_str("Shelf '");
    m.append(shelf);
    m.append("' already exists. Use --target-shelf <NAME> to choose a different shelf name for this import.");
    m
}

/// Whether a header is switched off in the collection.
pub open spec fn is_disabled(h: PostmanHeader) -> bool {
    h.disabled == Some(true)
}

pub open spec fn enabled_fn() -> spec_fn(PostmanHeader) -> bool {
    |h: PostmanHeader| !is_disabled(h)
}

/// Disabled headers play no part in an import: the header lines (or the error)
/// that `enabled_headers` gives for a request are those it gives once every
/// header marked `disabled: true` is removed, whatever such headers hold.
pub proof fn disabled_headers_are_left_out(hs: Seq<PostmanHeader>)
    ensures
        header_texts(hs) == header_texts(hs.filter(enabled_fn())),
    decreases hs.len(),
{
    if hs.len() > 0 {
        let p = hs.drop_last();
        let h = hs.last();
        disabled_headers_are_left_out(p);
        assert(p.push(h) =~= hs);
        p.lemma_filter_push(h, enabled_fn());
        if !is_disabled(h) {
            let fp = p.filter(enabled_fn());
            assert(fp.push(h).drop_last() =~= fp);
        }
    } else {
        assert(hs.filter(enabled_fn()) =~= hs);
    }
}

/// The header line an enabled header with a key gives: `Key: value`, or
/// `Key:` for an empty or missing value, with the key trimmed.
pub open spec fn header_line(h: PostmanHeader) -> Seq<char> {
    let k = trimmed_nonempty(h.key)->0;
    let v = match h.value {
        Some(x) => x@,
        None => Seq::empty(),
    };
    if v.len() == 0 {
        k + ":"@
    } else {
        k + ": "@ + v
    }
}

/// Enabled headers are all kept, in order: when no header is disabled and each
/// has a non-blank key, `enabled_headers` gives one line per header, the i-th
/// line being the i-th header's `Key: value`.
pub proof fn enabled_headers_give_one_line_each(hs: Seq<PostmanHeader>)
    requires
        forall|i: int| 0 <= i < hs.len() ==> !is_disabled(#[trigger] hs[i]) && trimmed_nonempty(hs[i].key) is Some,
    ensures
        header_texts(hs) matches Ok(lines) && lines.len() == hs.len() && forall|i: int|
            0 <= i < hs.len() ==> #[trigger] lines[i] == header_line(hs[i]),
    decreases hs.len(),
{
    if hs.len() > 0 {
        let p = hs.drop_last();
        assert forall|i: int| 0 <= i < p.len() implies !is_disabled(#[trigger] p[i]) && trimmed_nonempty(p[i].key) is Some by {
            assert(p[i] == hs[i]);
        }
        enabled_headers_give_one_line_each(p);
        let h = hs.last();
        assert(!is_disabled(hs[hs.len() - 1]));
        let lines = header_texts(hs)->Ok_0;
        let plines = header_texts(p)->Ok_0;
        assert(lines == plines.push(header_line(h)));
        assert forall|i: int| 0 <= i < hs.len() implies #[trigger] lines[i] == header_line(hs[i]) by {
            if i < p.len() {
                assert(hs[i] == p[i]);
            }
        }
    }
}

} // verus!
