//! Running stored curl commands for the web interface: which commands may run,
//! what request they make, and how curl's captured output is read back.
use crate::text::{
    crlf_to_lf, lines, split_once_str, split_str, ascii_lower_seq, ascii_upper_seq, chars_vec, copy_chars, is_ascii_upper, occurs_at,
    slice_chars, split_once, split_once_chars, starts_with_chars, str_eq, string_of, trim,
    trim_chars,
};
use vstd::prelude::*;

verus! {

/// Whether a stored command can run in the web interface, and why not.
#[derive(Debug, Clone, PartialEq, Eq)]
pub struct CommandAnalysis {
    pub runnable: bool,
    pub unsupported_reason: Option<String>,
}

/// The words of a command line as `shell_words::split` reads them, or `None`
/// where it reports a missing closing quote.
pub uninterp spec fn shell_split(command: Seq<char>) -> Option<Seq<Seq<char>>>;

/// `shell_words::split`: the command's words as its shell-like grammar reads
/// them (named by `shell_split`), or its error's text, "missing closing quote".
/// The contract also states what the grammar gives for a word written between
/// single quotes with each `'` as `'"'"'` (the form `postman::shell_quote`
/// writes): exactly that word, as the source's single-quote, double-quote and
/// unquoted states read it.
#[verifier::external_body]
pub(crate) fn split_shell_words(command: &str) -> (r: Result<Vec<String>, String>)
    ensures
        match r {
            Ok(words) => {
                &&& shell_split(command@) == Some(words.deep_view())
                &&& forall|w: Seq<char>| #[trigger] crate::postman::quoted(w) == command@ ==> words.deep_view() == seq![w]
            },
            Err(e) => {
                &&& shell_split(command@) is None
                &&& e@ == "missing closing quote"@
                &&& forall|w: Seq<char>| #[trigger] crate::postman::quoted(w) != command@
            },
        },
{
    match shell_words::split(command) {
        Ok(words) => Ok(words),
        Err(error) => Err(error.to_string()),
    }
}

/// A long option given as `--name=value`.
pub open spec fn long_form(arg: Seq<char>, option: Seq<char>) -> bool {
    arg == option || occurs_at(arg, option + seq!['='], 0)
}

/// A short option with its value attached, as in `-ofile`.
pub open spec fn short_form(arg: Seq<char>, option: Seq<char>) -> bool {
    arg == option || (occurs_at(arg, option, 0) && arg.len() > option.len())
}

/// Options that would take over the files and output the runner captures.
pub open spec fn forbidden_option(arg: Seq<char>) -> bool {
    ||| short_form(arg, "-D"@)
    ||| long_form(arg, "--dump-header"@)
    ||| arg == "-i"@
    ||| long_form(arg, "--include"@)
    ||| short_form(arg, "-K"@)
    ||| long_form(arg, "--config"@)
    ||| short_form(arg, "-o"@)
    ||| long_form(arg, "--output"@)
    ||| arg == "-O"@
    ||| long_form(arg, "--remote-name"@)
    ||| long_form(arg, "--remote-name-all"@)
    ||| short_form(arg, "-w"@)
    ||| long_form(arg, "--write-out"@)
    ||| long_form(arg, "--next"@)
}

fn long_form_exec(arg: &str, option: &str) -> (r: bool)
    ensures
        r == long_form(arg@, option@),
{
    if str_eq(arg, option) {
        return true;
    }
    let mut with_eq = String::from_str(option);
    crate::text::push_char(&mut with_eq, '=');
    assert(with_eq@ =~= option@ + seq!['=']);
    let a = chars_vec(arg);
    let p = chars_vec(with_eq.as_str());
    starts_with_chars(&a, &p)
}

fn short_form_exec(arg: &str, option: &str) -> (r: bool)
    ensures
        r == short_form(arg@, option@),
{
    if str_eq(arg, option) {
        return true;
    }
    let a = chars_vec(arg);
    let p = chars_vec(option);
    starts_with_chars(&a, &p) && a.len() > p.len()
}

/// Whether a curl argument is one the web runner does not allow.
pub fn is_forbidden_option(arg: &str) -> (r: bool)
    ensures
        r == forbidden_option(arg@),
{
    short_form_exec(arg, "-D") || long_form_exec(arg, "--dump-header") || str_eq(arg, "-i")
        || long_form_exec(arg, "--include") || short_form_exec(arg, "-K") || long_form_exec(
        arg,
        "--config",
    ) || short_form_exec(arg, "-o") || long_form_exec(arg, "--output") || str_eq(arg, "-O")
        || long_form_exec(arg, "--remote-name") || long_form_exec(arg, "--remote-name-all")
        || short_form_exec(arg, "-w") || long_form_exec(arg, "--write-out") || long_form_exec(
        arg,
        "--next",
    )
}

/// The first forbidden argument at or after position `i`.
pub open spec fn first_forbidden(args: Seq<Seq<char>>, i: int) -> Option<Seq<char>>
    decreases args.len() - i,
{
    if i < 0 || i >= args.len() {
        None
    } else if forbidden_option(args[i]) {
        Some(args[i])
    } else {
        first_forbidden(args, i + 1)
    }
}

proof fn lemma_none_forbidden_from(args: Seq<Seq<char>>, i: int)
    requires
        0 <= i,
        first_forbidden(args, i) is None,
    ensures
        forall|k: int| i <= k < args.len() ==> !forbidden_option(#[trigger] args[k]),
    decreases args.len() - i,
{
    if i < args.len() {
        lemma_none_forbidden_from(args, i + 1);
    }
}

/// The analysis of a command from its split words, or the split's error.
pub open spec fn analysis_of(split: Result<Seq<Seq<char>>, Seq<char>>) -> (bool, Option<Seq<char>>) {
    match split {
        Err(e) => (false, Some("Command parsing failed: "@ + e)),
        Ok(args) => {
            if args.len() == 0 {
                (false, Some("Command is empty."@))
            } else if args[0] != "curl"@ {
                (false, Some("Only curl commands can run in the web interface."@))
            } else {
                match first_forbidden(args, 1) {
                    Some(option) => (
                        false,
                        Some(
                            "This curl command uses unsupported option '"@ + option
                                + "' in the web interface."@,
                        ),
                    ),
                    None => (true, None),
                }
            }
        },
    }
}

impl CommandAnalysis {
    pub open spec fn view_pair(self) -> (bool, Option<Seq<char>>) {
        (
            self.runnable,
            match self.unsupported_reason {
                Some(r) => Some(r@),
                None => None,
            },
        )
    }
}

pub open spec fn split_view(split: Result<Vec<String>, String>) -> Result<Seq<Seq<char>>, Seq<char>> {
    match split {
        Ok(words) => Ok(words.deep_view()),
        Err(e) => Err(e@),
    }
}

fn rejected(reason: String) -> (r: CommandAnalysis)
    ensures
        r.view_pair() == (false, Some(reason@)),
{
    CommandAnalysis { runnable: false, unsupported_reason: Some(reason) }
}

/// The analysis of a command given the result of splitting it into words.
pub fn analyze_words(split: &Result<Vec<String>, String>) -> (r: CommandAnalysis)
    ensures
        r.view_pair() == analysis_of(split_view(*split)),
{
    match split {
        Err(e) => {
            let mut msg = String::from_str("Command parsing failed: ");
            msg.append(e.as_str());
            rejected(msg)
        },
        Ok(args) => {
            if args.len() == 0 {
                return rejected(String::from_str("Command is empty."));
            }
            assert(args.deep_view()[0] == args@[0]@);
            if !str_eq(args[0].as_str(), "curl") {
                return rejected(String::from_str("Only curl commands can run in the web interface."));
            }
            let ghost dv = args.deep_view();
            let mut i: usize = 1;
            while i < args.len()
                invariant
                    1 <= i <= args@.len(),
                    dv == args.deep_view(),
                    dv[0] == "curl"@,
                    split_view(*split) == Ok::<Seq<Seq<char>>, Seq<char>>(dv),
                    first_forbidden(dv, 1) == first_forbidden(dv, i as int),
                decreases args.len() - i,
            {
                assert(dv[i as int] == args@[i as int]@);
                if is_forbidden_option(args[i].as_str()) {
                    let mut msg = String::from_str("This curl command uses unsupported option '");
                    msg.append(args[i].as_str());
                    msg.append("' in the web interface.");
                    assert(first_forbidden(dv, i as int) == Some(dv[i as int]));
                    return rejected(msg);
                }
                i = i + 1;
            }
            assert(first_forbidden(dv, i as int) is None);
            CommandAnalysis { runnable: true, unsupported_reason: None }
        },
    }
}

/// Whether a stored command can run in the web interface: it must split into
/// words, start with `curl` and use none of the options the runner reserves.
pub fn analyze_command(command: &str) -> (r: CommandAnalysis)
    ensures
        r.view_pair() == analysis_of(
            match shell_split(command@) {
                Some(words) => Ok(words),
                None => Err("missing closing quote"@),
            },
        ),
{
    let split = split_shell_words(command);
    analyze_words(&split)
}

/// A header name and value.
#[derive(Debug, Clone, PartialEq, Eq)]
pub struct ResponseHeader {
    pub name: String,
    pub value: String,
}

/// The method, URL and headers of a request.
#[derive(Debug, Clone, PartialEq, Eq)]
pub struct RequestDetails {
    pub method: String,
    pub url: Option<String>,
    pub headers: Vec<ResponseHeader>,
}

pub open spec fn header_view(h: ResponseHeader) -> (Seq<char>, Seq<char>) {
    (h.name@, h.value@)
}

pub open spec fn headers_view(v: Seq<ResponseHeader>) -> Seq<(Seq<char>, Seq<char>)> {
    Seq::new(v.len(), |k: int| header_view(v[k]))
}

pub open spec fn opt_view(o: Option<String>) -> Option<Seq<char>> {
    match o {
        Some(s) => Some(s@),
        None => None,
    }
}

/// A request as method, URL and header pairs.
pub struct RequestView {
    pub method: Seq<char>,
    pub url: Option<Seq<char>>,
    pub headers: Seq<(Seq<char>, Seq<char>)>,
}

impl RequestDetails {
    pub open spec fn request_view(self) -> RequestView {
        RequestView { method: self.method@, url: opt_view(self.url), headers: headers_view(self.headers@) }
    }
}

/// `NAME: VALUE` read as a trimmed header pair.
pub open spec fn header_of(line: Seq<char>) -> Option<(Seq<char>, Seq<char>)> {
    match split_once(line, ':') {
        Some((name, value)) => Some((trim(name), trim(value))),
        None => None,
    }
}

fn header_from(line: &str) -> (r: Option<ResponseHeader>)
    ensures
        match header_of(line@) {
            Some(h) => r matches Some(x) && header_view(x) == h,
            None => r is None,
        },
{
    let v = chars_vec(line);
    match split_once_chars(&v, ':') {
        Some(pair) => {
            let (n, x) = pair;
            let name = string_of(&trim_chars(&n));
            let value = string_of(&trim_chars(&x));
            Some(ResponseHeader { name, value })
        },
        None => None,
    }
}

pub open spec fn is_long_option(o: Seq<char>) -> bool {
    o.len() >= 2 && o[0] == '-' && o[1] == '-'
}

/// The value an argument at `index` gives for one of the option names: the next
/// argument after the bare option (with `true`), or the attached value.
pub open spec fn option_value(
    arg: Seq<char>,
    args: Seq<Seq<char>>,
    index: int,
    names: Seq<Seq<char>>,
) -> Option<(Seq<char>, bool)>
    decreases names.len(),
{
    if names.len() == 0 {
        None
    } else {
        let o = names[0];
        if arg == o {
            if index + 1 < args.len() {
                Some((args[index + 1], true))
            } else {
                None
            }
        } else if is_long_option(o) && occurs_at(arg, o + seq!['='], 0) {
            Some((arg.subrange(o.len() as int + 1, arg.len() as int), false))
        } else if !is_long_option(o) && occurs_at(arg, o, 0) && arg.len() > o.len() {
            Some((arg.subrange(o.len() as int, arg.len() as int), false))
        } else {
            option_value(arg, args, index, names.drop_first())
        }
    }
}

pub fn request_option_value(arg: &str, args: &Vec<String>, index: usize, names: &Vec<String>) -> (r:
    Option<(String, bool)>)
    requires
        index < args@.len(),
    ensures
        match option_value(arg@, args.deep_view(), index as int, names.deep_view()) {
            Some((v, c)) => r matches Some(x) && x.0@ == v && x.1 == c,
            None => r is None,
        },
        r matches Some(x) && x.1 ==> index + 1 < args@.len(),
{
    let a = chars_vec(arg);
    let alen = a.len();
    let ghost nv = names.deep_view();
    let mut k: usize = 0;
    assert(nv.subrange(0, nv.len() as int) =~= nv);
    while k < names.len()
        invariant
            k <= names@.len(),
            nv == names.deep_view(),
            a@ == arg@,
            alen == a@.len(),
            index < args@.len(),
            option_value(arg@, args.deep_view(), index as int, nv) == option_value(
                arg@,
                args.deep_view(),
                index as int,
                nv.subrange(k as int, nv.len() as int),
            ),
        decreases names.len() - k,
    {
        let ghost rest = nv.subrange(k as int, nv.len() as int);
        assert(rest[0] == names@[k as int]@);
        assert(rest.drop_first() =~= nv.subrange(k + 1, nv.len() as int));
        let o = chars_vec(names[k].as_str());
        if str_eq(arg, names[k].as_str()) {
            if args.len() - index > 1 {
                assert(args.deep_view()[index + 1] == args@[index + 1]@);
                return Some((args[index + 1].clone(), true));
            }
            return None;
        }
        let long = o.len() >= 2 && o[0] == '-' && o[1] == '-';
        if long {
            let mut p = copy_chars(&o);
            p.push('=');
            assert(p@ =~= o@ + seq!['=']);
            if starts_with_chars(&a, &p) {
                assert(p@.len() <= a@.len());
                let v = slice_chars(&a, o.len() + 1, a.len());
                return Some((string_of(&v), false));
            }
        } else if starts_with_chars(&a, &o) && a.len() > o.len() {
            let v = slice_chars(&a, o.len(), a.len());
            return Some((string_of(&v), false));
        }
        k = k + 1;
    }
    None
}

/// Options that send a request body and take it as the next argument.
pub open spec fn body_option_alone(arg: Seq<char>) -> bool {
    ||| arg == "-d"@
    ||| arg == "--data"@
    ||| arg == "--data-raw"@
    ||| arg == "--data-binary"@
    ||| arg == "--data-urlencode"@
    ||| arg == "-F"@
    ||| arg == "--form"@
    ||| arg == "--json"@
}

/// Arguments that send a request body.
pub open spec fn body_option(arg: Seq<char>) -> bool {
    ||| body_option_alone(arg)
    ||| occurs_at(arg, "-d"@, 0)
    ||| occurs_at(arg, "-F"@, 0)
    ||| occurs_at(arg, "--data="@, 0)
    ||| occurs_at(arg, "--data-raw="@, 0)
    ||| occurs_at(arg, "--data-binary="@, 0)
    ||| occurs_at(arg, "--data-urlencode="@, 0)
    ||| occurs_at(arg, "--form="@, 0)
    ||| occurs_at(arg, "--json="@, 0)
}

fn starts_with_text(arg: &str, p: &str) -> (r: bool)
    ensures
        r == occurs_at(arg@, p@, 0),
{
    let a = chars_vec(arg);
    let q = chars_vec(p);
    starts_with_chars(&a, &q)
}

/// Whether an argument takes the next one as its value.
pub fn option_consumes_value(arg: &str) -> (r: bool)
    ensures
        r == body_option_alone(arg@),
{
    str_eq(arg, "-d") || str_eq(arg, "--data") || str_eq(arg, "--data-raw") || str_eq(
        arg,
        "--data-binary",
    ) || str_eq(arg, "--data-urlencode") || str_eq(arg, "-F") || str_eq(arg, "--form") || str_eq(
        arg,
        "--json",
    )
}

/// Whether an argument sends a request body.
pub fn is_body_option(arg: &str) -> (r: bool)
    ensures
        r == body_option(arg@),
{
    option_consumes_value(arg) || starts_with_text(arg, "-d") || starts_with_text(arg, "-F")
        || starts_with_text(arg, "--data=") || starts_with_text(arg, "--data-raw=")
        || starts_with_text(arg, "--data-binary=") || starts_with_text(arg, "--data-urlencode=")
        || starts_with_text(arg, "--form=") || starts_with_text(arg, "--json=")
}

pub open spec fn starts_with_dash(s: Seq<char>) -> bool {
    s.len() > 0 && s[0] == '-'
}

fn starts_with_dash_exec(s: &str) -> (r: bool)
    ensures
        r == starts_with_dash(s@),
{
    let v = chars_vec(s);
    v.len() > 0 && v[0] == '-'
}

/// What reading a curl command's arguments has found so far.
pub struct RequestScan {
    pub method: Option<Seq<char>>,
    pub url: Option<Seq<char>>,
    pub headers: Seq<(Seq<char>, Seq<char>)>,
    pub saw_body: bool,
}

pub open spec fn header_option_names() -> Seq<Seq<char>> {
    seq!["-H"@, "--header"@]
}

pub open spec fn method_option_names() -> Seq<Seq<char>> {
    seq!["-X"@, "--request"@]
}

pub open spec fn url_option_names() -> Seq<Seq<char>> {
    seq!["--url"@]
}

pub open spec fn step(consumed_next: bool) -> int {
    if consumed_next {
        2
    } else {
        1
    }
}

/// Reading a curl command's arguments from position `i` on.
pub open spec fn request_from(args: Seq<Seq<char>>, i: int, st: RequestScan) -> RequestScan
    decreases args.len() + 2 - i,
{
    if i < 0 || i >= args.len() {
        st
    } else {
        let arg = args[i];
        match option_value(arg, args, i, header_option_names()) {
            Some((v, c)) => request_from(
                args,
                i + step(c),
                RequestScan {
                    method: st.method,
                    url: st.url,
                    headers: match header_of(v) {
                        Some(h) => st.headers.push(h),
                        None => st.headers,
                    },
                    saw_body: st.saw_body,
                },
            ),
            None => match option_value(arg, args, i, method_option_names()) {
                Some((v, c)) => request_from(
                    args,
                    i + step(c),
                    RequestScan {
                        method: Some(ascii_upper_seq(v)),
                        url: st.url,
                        headers: st.headers,
                        saw_body: st.saw_body,
                    },
                ),
                None => match option_value(arg, args, i, url_option_names()) {
                    Some((v, c)) => request_from(
                        args,
                        i + step(c),
                        RequestScan {
                            method: st.method,
                            url: Some(v),
                            headers: st.headers,
                            saw_body: st.saw_body,
                        },
                    ),
                    None => {
                        if body_option(arg) {
                            let skip_value = body_option_alone(arg) && i + 1 < args.len()
                                && !starts_with_dash(args[i + 1]);
                            request_from(
                                args,
                                i + step(skip_value),
                                RequestScan {
                                    method: st.method,
                                    url: st.url,
                                    headers: st.headers,
                                    saw_body: true,
                                },
                            )
                        } else if arg == "--head"@ || arg == "-I"@ {
                            request_from(
                                args,
                                i + 1,
                                RequestScan {
                                    method: Some("HEAD"@),
                                    url: st.url,
                                    headers: st.headers,
                                    saw_body: st.saw_body,
                                },
                            )
                        } else if !starts_with_dash(arg) && st.url is None {
                            request_from(
                                args,
                                i + 1,
                                RequestScan {
                                    method: st.method,
                                    url: Some(arg),
                                    headers: st.headers,
                                    saw_body: st.saw_body,
                                },
                            )
                        } else {
                            request_from(args, i + 1, st)
                        }
                    },
                },
            },
        }
    }
}

/// The request a curl command's arguments make: the method given by `-X`,
/// `--request` or `--head`, else `POST` when a body is sent and `GET`
/// otherwise; the URL of `--url` or the first plain argument; the headers of
/// `-H`.
pub open spec fn request_of_args(args: Seq<Seq<char>>) -> RequestView {
    let st = request_from(
        args,
        1,
        RequestScan { method: None, url: None, headers: Seq::empty(), saw_body: false },
    );
    RequestView {
        method: match st.method {
            Some(m) => m,
            None => if st.saw_body {
                "POST"@
            } else {
                "GET"@
            },
        },
        url: st.url,
        headers: st.headers,
    }
}

fn names_list(a: &str, b: &str) -> (r: Vec<String>)
    ensures
        r.deep_view() == seq![a@, b@],
{
    let mut v: Vec<String> = Vec::new();
    v.push(String::from_str(a));
    v.push(String::from_str(b));
    assert(v.deep_view() =~= seq![a@, b@]);
    v
}

/// Reads the method, URL and headers from a curl command's arguments.
pub fn parse_request_details(args: &Vec<String>) -> (r: RequestDetails)
    ensures
        r.request_view() == request_of_args(args.deep_view()),
{
    let ghost av = args.deep_view();
    let header_names = names_list("-H", "--header");
    let method_names = names_list("-X", "--request");
    let mut url_names: Vec<String> = Vec::new();
    url_names.push(String::from_str("--url"));
    assert(url_names.deep_view() =~= url_option_names());
    let mut method: Option<String> = None;
    let mut url: Option<String> = None;
    let mut headers: Vec<ResponseHeader> = Vec::new();
    let mut saw_body = false;
    let mut index: usize = 1;
    assert(headers_view(headers@) =~= Seq::<(Seq<char>, Seq<char>)>::empty());
    while index < args.len()
        invariant
            av == args.deep_view(),
            1 <= index,
            header_names.deep_view() == header_option_names(),
            method_names.deep_view() == method_option_names(),
            url_names.deep_view() == url_option_names(),
            request_from(
                av,
                1,
                RequestScan { method: None, url: None, headers: Seq::empty(), saw_body: false },
            ) == request_from(
                av,
                index as int,
                RequestScan {
                    method: opt_view(method),
                    url: opt_view(url),
                    headers: headers_view(headers@),
                    saw_body,
                },
            ),
        decreases args.len() - index,
    {
        let arg = args[index].as_str();
        assert(av[index as int] == arg@);
        if let Some(found) = request_option_value(arg, args, index, &header_names) {
            let (value, consumed) = found;
            let ghost before = headers_view(headers@);
            if let Some(h) = header_from(value.as_str()) {
                headers.push(h);
                assert(headers_view(headers@) =~= before.push(header_view(h)));
            }
            index = if consumed { index + 2 } else { index + 1 };
            continue ;
        }
        if let Some(found) = request_option_value(arg, args, index, &method_names) {
            let (value, consumed) = found;
            method = Some(crate::text::ascii_uppercase(value.as_str()));
            index = if consumed { index + 2 } else { index + 1 };
            continue ;
        }
        if let Some(found) = request_option_value(arg, args, index, &url_names) {
            let (value, consumed) = found;
            url = Some(value);
            index = if consumed { index + 2 } else { index + 1 };
            continue ;
        }
        if is_body_option(arg) {
            saw_body = true;
            if option_consumes_value(arg) && args.len() - index > 1 && !starts_with_dash_exec(
                args[index + 1].as_str(),
            ) {
                assert(av[index + 1] == args@[index + 1]@);
                index = index + 2;
            } else {
                proof {
                    if index + 1 < args.len() {
                        assert(av[index + 1] == args@[index + 1]@);
                    }
                }
                index = index + 1;
            }
            continue ;
        }
        if str_eq(arg, "--head") || str_eq(arg, "-I") {
            method = Some(String::from_str("HEAD"));
            index = index + 1;
            continue ;
        }
        if !starts_with_dash_exec(arg) && url.is_none() {
            url = Some(args[index].clone());
        }
        index = index + 1;
    }
    let method = match method {
        Some(m) => m,
        None => if saw_body {
            String::from_str("POST")
        } else {
            String::from_str("GET")
        },
    };
    RequestDetails { method, url, headers }
}

/// The request read from the arguments completed by the one the trace shows.
pub open spec fn merged_request(fallback: RequestView, traced: Option<RequestView>) -> RequestView {
    match traced {
        None => fallback,
        Some(t) => RequestView {
            method: if t.method.len() == 0 {
                fallback.method
            } else {
                t.method
            },
            url: match fallback.url {
                Some(u) => Some(u),
                None => t.url,
            },
            headers: if t.headers.len() == 0 {
                fallback.headers
            } else {
                t.headers
            },
        },
    }
}

pub open spec fn opt_request_view(r: Option<RequestDetails>) -> Option<RequestView> {
    match r {
        Some(d) => Some(d.request_view()),
        None => None,
    }
}

/// Combines the request read from the arguments with the one curl's trace shows:
/// the traced method and headers where present, the argument URL first.
pub fn merge_request_details(fallback: RequestDetails, traced: Option<RequestDetails>) -> (r:
    RequestDetails)
    ensures
        r.request_view() == merged_request(fallback.request_view(), opt_request_view(traced)),
        traced is None ==> r == fallback,
{
    match traced {
        None => fallback,
        Some(t) => {
            let method = if t.method.as_str().is_empty() {
                fallback.method
            } else {
                t.method
            };
            let url = match fallback.url {
                Some(u) => Some(u),
                None => t.url,
            };
            let headers = if t.headers.len() == 0 {
                fallback.headers
            } else {
                t.headers
            };
            RequestDetails { method, url, headers }
        },
    }
}

/// The header pairs of the lines that have a `:`, in order.
pub open spec fn headers_of_lines(ls: Seq<Seq<char>>) -> Seq<(Seq<char>, Seq<char>)>
    decreases ls.len(),
{
    if ls.len() == 0 {
        Seq::empty()
    } else {
        let r = headers_of_lines(ls.drop_last());
        match header_of(ls.last()) {
            Some(h) => r.push(h),
            None => r,
        }
    }
}

fn headers_from_lines(ls: &Vec<Vec<char>>, from: usize) -> (r: Vec<ResponseHeader>)
    requires
        from <= ls@.len(),
    ensures
        headers_view(r@) == headers_of_lines(
            Seq::new((ls@.len() - from) as nat, |k: int| ls@[k + from]@),
        ),
{
    let ghost lv = Seq::new((ls@.len() - from) as nat, |k: int| ls@[k + from]@);
    let mut out: Vec<ResponseHeader> = Vec::new();
    let mut i: usize = from;
    assert(lv.subrange(0, 0) =~= Seq::<Seq<char>>::empty());
    assert(headers_view(out@) =~= Seq::<(Seq<char>, Seq<char>)>::empty());
    while i < ls.len()
        invariant
            from <= i <= ls@.len(),
            lv == Seq::new((ls@.len() - from) as nat, |k: int| ls@[k + from]@),
            headers_view(out@) == headers_of_lines(lv.subrange(0, i - from)),
        decreases ls.len() - i,
    {
        assert(lv.subrange(0, i + 1 - from).drop_last() =~= lv.subrange(0, i - from));
        assert(lv.subrange(0, i + 1 - from).last() == ls@[i as int]@);
        let line = string_of(&ls[i]);
        let ghost before = headers_view(out@);
        if let Some(h) = header_from(line.as_str()) {
            out.push(h);
            assert(headers_view(out@) =~= before.push(header_view(h)));
        }
        i = i + 1;
    }
    assert(lv.subrange(0, lv.len() as int) =~= lv);
    out
}

pub open spec fn has_status_line(block: Seq<char>) -> bool {
    exists|k: int| 0 <= k < lines(block).len() && occurs_at(#[trigger] lines(block)[k], "HTTP/"@, 0)
}

/// The last block that holds an `HTTP/` status line.
pub open spec fn last_response_block(blocks: Seq<Seq<char>>) -> Option<Seq<char>>
    decreases blocks.len(),
{
    if blocks.len() == 0 {
        None
    } else if has_status_line(blocks.last()) {
        Some(blocks.last())
    } else {
        last_response_block(blocks.drop_last())
    }
}

pub open spec fn blank_line_separator() -> Seq<char> {
    seq!['\n', '\n']
}

/// The headers of the last response in a dump of response headers: the blocks
/// are separated by blank lines, and the lines after the status line that hold
/// a `:` are read as headers.
pub open spec fn last_response_headers(text: Seq<char>) -> Seq<(Seq<char>, Seq<char>)> {
    match last_response_block(split_str(crlf_to_lf(text), blank_line_separator())) {
        None => Seq::empty(),
        Some(block) => if lines(block).len() == 0 {
            Seq::empty()
        } else {
            headers_of_lines(lines(block).drop_first())
        },
    }
}

fn has_status_line_exec(block: &Vec<char>) -> (r: bool)
    ensures
        r == has_status_line(block@),
{
    let ls = crate::text::lines_chars(block);
    let prefix = chars_vec("HTTP/");
    let mut k: usize = 0;
    while k < ls.len()
        invariant
            k <= ls@.len(),
            ls@.len() == lines(block@).len(),
            forall|m: int| 0 <= m < ls@.len() ==> #[trigger] ls@[m]@ == lines(block@)[m],
            prefix@ == "HTTP/"@,
            forall|m: int| 0 <= m < k ==> !occurs_at(#[trigger] lines(block@)[m], "HTTP/"@, 0),
        decreases ls.len() - k,
    {
        if starts_with_chars(&ls[k], &prefix) {
            assert(occurs_at(lines(block@)[k as int], "HTTP/"@, 0));
            return true;
        }
        k = k + 1;
    }
    false
}

/// Reads the headers of the last response from curl's `--dump-header` file.
pub fn parse_last_response_headers(bytes: &[u8]) -> (r: Vec<ResponseHeader>)
    ensures
        headers_view(r@) == last_response_headers(crate::history::utf8_lossy(bytes@)),
        vstd::utf8::valid_utf8(bytes@) ==> headers_view(r@) == last_response_headers(
            vstd::utf8::decode_utf8(bytes@),
        ),
{
    let text = crate::history::decode_utf8_lossy(bytes);
    last_response_headers_in(text.as_str())
}

/// The headers of the last response in the decoded text of a `--dump-header` file.
pub fn last_response_headers_in(text: &str) -> (r: Vec<ResponseHeader>)
    ensures
        headers_view(r@) == last_response_headers(text@),
{
    let chars = chars_vec(text);
    let normalized = crate::text::crlf_to_lf_chars(&chars);
    let mut sep: Vec<char> = Vec::new();
    sep.push('\n');
    sep.push('\n');
    assert(sep@ =~= blank_line_separator());
    let blocks = crate::text::split_by(&normalized, &sep);
    let ghost bv = split_str(normalized@, sep@);
    let mut k: usize = blocks.len();
    assert(bv.subrange(0, k as int) =~= bv);
    while k > 0
        invariant
            bv == split_str(crlf_to_lf(text@), blank_line_separator()),
            k <= blocks@.len(),
            blocks@.len() == bv.len(),
            forall|m: int| 0 <= m < blocks@.len() ==> #[trigger] blocks@[m]@ == bv[m],
            last_response_block(bv) == last_response_block(bv.subrange(0, k as int)),
        decreases k,
    {
        let ghost pre = bv.subrange(0, k as int);
        assert(pre.last() == blocks@[k - 1]@);
        assert(pre.drop_last() =~= bv.subrange(0, k - 1));
        if has_status_line_exec(&blocks[k - 1]) {
            let ls = crate::text::lines_chars(&blocks[k - 1]);
            if ls.len() == 0 {
                return Vec::new();
            }
            let r = headers_from_lines(&ls, 1);
            proof {
                let lb = lines(blocks@[k - 1]@);
                assert(Seq::new((ls@.len() - 1) as nat, |j: int| ls@[j + 1]@) =~= lb.drop_first());
            }
            return r;
        }
        k = k - 1;
    }
    assert(bv.subrange(0, 0) =~= Seq::<Seq<char>>::empty());
    Vec::new()
}

/// What reading curl's `--trace-ascii` output has found so far: the finished
/// header blocks, the block being read, and whether a block is being read.
pub struct TraceScan {
    pub blocks: Seq<Seq<Seq<char>>>,
    pub current: Seq<Seq<char>>,
    pub collecting: bool,
}

pub open spec fn with_current(blocks: Seq<Seq<Seq<char>>>, current: Seq<Seq<char>>) -> Seq<
    Seq<Seq<char>>,
> {
    if current.len() > 0 {
        blocks.push(current)
    } else {
        blocks
    }
}

pub open spec fn colon_space() -> Seq<char> {
    seq![':', ' ']
}

/// One line of trace output: `=> Send header` starts a block, then each
/// `offset: payload` line adds its payload until an empty payload ends it.
pub open spec fn trace_step(st: TraceScan, line: Seq<char>) -> TraceScan {
    if occurs_at(line, "=> Send header"@, 0) {
        TraceScan { blocks: with_current(st.blocks, st.current), current: Seq::empty(), collecting: true }
    } else if !st.collecting {
        st
    } else {
        match split_once_str(line, colon_space()) {
            None => st,
            Some((_, payload)) => if payload.len() == 0 {
                TraceScan {
                    blocks: with_current(st.blocks, st.current),
                    current: Seq::empty(),
                    collecting: false,
                }
            } else {
                TraceScan { blocks: st.blocks, current: st.current.push(payload), collecting: true }
            },
        }
    }
}

pub open spec fn trace_fold(ls: Seq<Seq<char>>) -> TraceScan
    decreases ls.len(),
{
    if ls.len() == 0 {
        TraceScan { blocks: Seq::empty(), current: Seq::empty(), collecting: false }
    } else {
        trace_step(trace_fold(ls.drop_last()), ls.last())
    }
}

/// The request curl sent last, as its trace shows it: the method is the first
/// word of the request line, the headers are read from the lines after it.
pub open spec fn last_traced_request(text: Seq<char>) -> Option<RequestView> {
    let st = trace_fold(lines(text));
    let blocks = with_current(st.blocks, st.current);
    if blocks.len() == 0 || blocks.last().len() == 0 {
        None
    } else {
        let block = blocks.last();
        let words = crate::text::words(block[0]);
        Some(
            RequestView {
                method: if words.len() > 0 {
                    words[0]
                } else {
                    Seq::empty()
                },
                url: None,
                headers: headers_of_lines(block.drop_first()),
            },
        )
    }
}

fn split_once_colon_space(v: &Vec<char>) -> (r: Option<(Vec<char>, Vec<char>)>)
    ensures
        match split_once_str(v@, colon_space()) {
            Some((a, b)) => r matches Some(x) && x.0@ == a && x.1@ == b,
            None => r is None,
        },
{
    let mut p: Vec<char> = Vec::new();
    p.push(':');
    p.push(' ');
    assert(p@ =~= colon_space());
    let n = v.len();
    let pieces = crate::text::split_by(v, &p);
    if pieces.len() < 2 {
        return None;
    }
    let first = copy_chars(&pieces[0]);
    proof {
        lemma_split_str_first(v@, p@);
        assert(pieces@[0]@ == split_str(v@, p@)[0]);
        assert(p@.len() == 2);
        assert(pieces@[0]@.len() + 2 <= v@.len());
    }
    let rest = slice_chars(v, pieces[0].len() + 2, n);
    Some((first, rest))
}

/// Where a split leaves its first piece: at an occurrence of the pattern, when
/// there is more than one piece.
pub proof fn lemma_split_str_first(s: Seq<char>, p: Seq<char>)
    requires
        p.len() > 0,
        crate::text::split_str(s, p).len() >= 2,
    ensures
        occurs_at(s, p, crate::text::split_str(s, p)[0].len() as int),
        crate::text::split_str(s, p)[0] == s.subrange(0, crate::text::split_str(s, p)[0].len() as int),
    decreases s.len(),
{
    if s.len() > 0 && !occurs_at(s, p, 0) {
        let t = s.drop_first();
        crate::text::lemma_split_str_nonempty(t, p);
        lemma_split_str_first(t, p);
        let f = split_str(t, p)[0];
        let fl = f.len() as int;
        let pl = p.len() as int;
        assert(t.subrange(fl, fl + pl) =~= s.subrange(fl + 1, fl + 1 + pl));
        assert(seq![s[0]] + f =~= s.subrange(0, fl + 1));
    } else if s.len() > 0 {
        assert(s.subrange(0, 0) =~= Seq::<char>::empty());
    }
}

/// Reads the last request header block from curl's `--trace-ascii` output.
pub fn parse_last_request_from_trace(bytes: &[u8]) -> (r: Option<RequestDetails>)
    ensures
        match last_traced_request(crate::history::utf8_lossy(bytes@)) {
            Some(req) => r matches Some(x) && x.request_view() == req,
            None => r is None,
        },
        vstd::utf8::valid_utf8(bytes@) ==> match last_traced_request(vstd::utf8::decode_utf8(bytes@)) {
            Some(req) => r matches Some(x) && x.request_view() == req,
            None => r is None,
        },
{
    let text = crate::history::decode_utf8_lossy(bytes);
    last_request_in_trace(text.as_str())
}

/// The last request in the decoded text of curl's `--trace-ascii` output.
pub fn last_request_in_trace(text: &str) -> (r: Option<RequestDetails>)
    ensures
        match last_traced_request(text@) {
            Some(req) => r matches Some(x) && x.request_view() == req,
            None => r is None,
        },
{
    let chars = chars_vec(text);
    let ls = crate::text::lines_chars(&chars);
    let ghost lv = lines(text@);
    let marker = chars_vec("=> Send header");
    let mut blocks: Vec<Vec<Vec<char>>> = Vec::new();
    let mut current: Vec<Vec<char>> = Vec::new();
    let mut collecting = false;
    let mut i: usize = 0;
    assert(lv.subrange(0, 0) =~= Seq::<Seq<char>>::empty());
    assert(Seq::new(blocks@.len(), |b: int| Seq::new(blocks@[b]@.len(), |j: int| blocks@[b]@[j]@))
        =~= Seq::<Seq<Seq<char>>>::empty());
    assert(Seq::new(current@.len(), |j: int| current@[j]@) =~= Seq::<Seq<char>>::empty());
    while i < ls.len()
        invariant
            i <= ls@.len(),
            ls@.len() == lv.len(),
            forall|m: int| 0 <= m < ls@.len() ==> #[trigger] ls@[m]@ == lv[m],
            marker@ == "=> Send header"@,
            trace_fold(lv.subrange(0, i as int)) == (TraceScan {
                blocks: Seq::new(blocks@.len(), |b: int| Seq::new(blocks@[b]@.len(), |j: int| blocks@[b]@[j]@)),
                current: Seq::new(current@.len(), |j: int| current@[j]@),
                collecting,
            }),
        decreases ls.len() - i,
    {
        assert(lv.subrange(0, i + 1).drop_last() =~= lv.subrange(0, i as int));
        assert(lv.subrange(0, i + 1).last() == ls@[i as int]@);
        let ghost bseq = Seq::new(blocks@.len(), |b: int| Seq::new(blocks@[b]@.len(), |j: int| blocks@[b]@[j]@));
        let ghost cseq = Seq::new(current@.len(), |j: int| current@[j]@);
        let line = &ls[i];
        if starts_with_chars(line, &marker) {
            if current.len() > 0 {
                let finished = current;
                blocks.push(finished);
                current = Vec::new();
            } else {
                current = Vec::new();
            }
            collecting = true;
        } else if collecting {
            match split_once_colon_space(line) {
                None => {},
                Some(pair) => {
                    let (_, payload) = pair;
                    if payload.len() == 0 {
                        if current.len() > 0 {
                            let finished = current;
                            blocks.push(finished);
                            current = Vec::new();
                        } else {
                            current = Vec::new();
                        }
                        collecting = false;
                    } else {
                        current.push(payload);
                    }
                },
            }
        }
        assert(trace_fold(lv.subrange(0, i + 1)) == (TraceScan {
            blocks: Seq::new(blocks@.len(), |b: int| Seq::new(blocks@[b]@.len(), |j: int| blocks@[b]@[j]@)),
            current: Seq::new(current@.len(), |j: int| current@[j]@),
            collecting,
        })) by {
            let nb = Seq::new(blocks@.len(), |b: int| Seq::new(blocks@[b]@.len(), |j: int| blocks@[b]@[j]@));
            let nc = Seq::new(current@.len(), |j: int| current@[j]@);
            if nb.len() == bseq.len() + 1 {
                assert(nb =~= bseq.push(cseq));
            } else {
                assert(nb =~= bseq);
            }
            if nc.len() == cseq.len() + 1 {
                assert(nc =~= cseq.push(nc.last()));
            } else if nc.len() == 0 {
                assert(nc =~= Seq::<Seq<char>>::empty());
            } else {
                assert(nc =~= cseq);
            }
        }
        i = i + 1;
    }
    assert(lv.subrange(0, lv.len() as int) =~= lv);
    if current.len() > 0 {
        let finished = current;
        blocks.push(finished);
    }
    if blocks.len() == 0 {
        return None;
    }
    let last = blocks.len() - 1;
    if blocks[last].len() == 0 {
        return None;
    }
    let first_line = &blocks[last][0];
    let words = crate::text::words_chars(first_line);
    let method = if words.len() > 0 {
        string_of(&words[0])
    } else {
        String::new()
    };
    let headers = headers_from_lines(&blocks[last], 1);
    proof {
        let b = blocks@[last as int]@;
        assert(Seq::new((b.len() - 1) as nat, |j: int| b[j + 1]@) =~= Seq::new(
            b.len(),
            |j: int| b[j]@,
        ).drop_first());
    }
    Some(RequestDetails { method, url: None, headers })
}

/// The value of the first header whose name matches `target`, ignoring ASCII case.
pub open spec fn header_value_of(headers: Seq<(Seq<char>, Seq<char>)>, target: Seq<char>) -> Option<
    Seq<char>,
>
    decreases headers.len(),
{
    if headers.len() == 0 {
        None
    } else if ascii_lower_seq(headers[0].0) == ascii_lower_seq(target) {
        Some(headers[0].1)
    } else {
        header_value_of(headers.drop_first(), target)
    }
}

/// `str::eq_ignore_ascii_case`.
pub fn eq_ignore_ascii_case(a: &str, b: &str) -> (r: bool)
    ensures
        r == (ascii_lower_seq(a@) == ascii_lower_seq(b@)),
{
    let x = crate::text::ascii_lowercase(a);
    let y = crate::text::ascii_lowercase(b);
    str_eq(x.as_str(), y.as_str())
}

/// The value of the first header named `target`, ignoring ASCII case.
pub fn header_value(headers: &Vec<ResponseHeader>, target: &str) -> (r: Option<String>)
    ensures
        opt_view(r) == header_value_of(headers_view(headers@), target@),
{
    let ghost hv = headers_view(headers@);
    let mut k: usize = 0;
    assert(hv.subrange(0, hv.len() as int) =~= hv);
    while k < headers.len()
        invariant
            k <= headers@.len(),
            hv == headers_view(headers@),
            header_value_of(hv, target@) == header_value_of(hv.subrange(k as int, hv.len() as int), target@),
        decreases headers.len() - k,
    {
        assert(hv.subrange(k as int, hv.len() as int)[0] == header_view(headers@[k as int]));
        assert(hv.subrange(k as int, hv.len() as int).drop_first() =~= hv.subrange(k + 1, hv.len() as int));
        if eq_ignore_ascii_case(headers[k].name.as_str(), target) {
            return Some(headers[k].value.clone());
        }
        k = k + 1;
    }
    None
}

/// A content type without parameters, trimmed and in lowercase.
pub open spec fn normalized_content_type(value: Seq<char>) -> Seq<char> {
    ascii_lower_seq(trim(crate::text::split_char(value, ';')[0]))
}

/// The media type of a `Content-Type` value: the part before any `;`, trimmed,
/// in ASCII lowercase.
pub fn normalize_content_type(value: String) -> (r: String)
    ensures
        r@ == normalized_content_type(value@),
{
    let v = chars_vec(value.as_str());
    let pieces = crate::text::split_chars(&v, crate::text::Sep::Char(';'));
    proof {
        crate::text::lemma_split_on_nonempty(v@, crate::text::Sep::Char(';'));
    }
    let t = string_of(&trim_chars(&pieces[0]));
    crate::text::ascii_lowercase(t.as_str())
}

/// `std::str::from_utf8(bytes).is_ok()`: whether the bytes are valid UTF-8.
#[verifier::external_body]
fn is_valid_utf8(bytes: &[u8]) -> (r: bool)
    ensures
        r == vstd::utf8::valid_utf8(bytes@),
{
    std::str::from_utf8(bytes).is_ok()
}

/// Content types shown as text whatever their bytes.
pub open spec fn textual_content_type(ct: Seq<char>) -> bool {
    ||| occurs_at(ct, "text/"@, 0)
    ||| crate::text::has_sub(ct, "json"@)
    ||| crate::text::has_sub(ct, "xml"@)
    ||| crate::text::has_sub(ct, "javascript"@)
    ||| crate::text::has_sub(ct, "x-www-form-urlencoded"@)
}

/// Whether a response body is shown as text: by its content type, or because
/// it is valid UTF-8.
pub fn is_text_like(content_type: Option<&str>, body_bytes: &[u8]) -> (r: bool)
    ensures
        r == ((content_type matches Some(ct) && textual_content_type(ct@))
            || vstd::utf8::valid_utf8(body_bytes@)),
{
    if let Some(ct) = content_type {
        if starts_with_text(ct, "text/") || crate::text::contains_str(ct, "json")
            || crate::text::contains_str(ct, "xml") || crate::text::contains_str(ct, "javascript")
            || crate::text::contains_str(ct, "x-www-form-urlencoded") {
            return true;
        }
    }
    is_valid_utf8(body_bytes)
}

pub open spec fn http_code_marker() -> Seq<char> {
    "__SHELLSHELF_HTTP_CODE__:"@
}

/// The HTTP status curl wrote after the marker: the text after the last
/// marker, trimmed, read as a positive `u16`.
pub open spec fn http_status_of(stdout: Seq<char>) -> Option<u16> {
    let pieces = split_str(stdout, http_code_marker());
    match crate::text::parse_u16(trim(pieces.last())) {
        Some(v) => if v > 0 {
            Some(v)
        } else {
            None
        },
        None => None,
    }
}

/// Reads the status code from curl's `--write-out` output.
pub fn parse_http_status(stdout: &str) -> (r: Option<u16>)
    ensures
        r == http_status_of(stdout@),
{
    let v = chars_vec(stdout);
    let m = chars_vec("__SHELLSHELF_HTTP_CODE__:");
    proof {
        reveal_strlit("__SHELLSHELF_HTTP_CODE__:");
        crate::text::lemma_split_str_nonempty(v@, m@);
    }
    let pieces = crate::text::split_by(&v, &m);
    let last = string_of(&trim_chars(&pieces[pieces.len() - 1]));
    match crate::text::parse_u16_text(last.as_str()) {
        Some(code) => if code > 0 {
            Some(code)
        } else {
            None
        },
        None => None,
    }
}

/// How many response bodies the run store keeps.
pub const MAX_STORED_BODIES: usize = 24;

/// A response body kept for its preview URL.
#[derive(Debug)]
pub struct StoredRunBody {
    pub content_type: String,
    pub bytes: Vec<u8>,
}

impl StoredRunBody {
    pub open spec fn body_view(self) -> (Seq<char>, Seq<u8>) {
        (self.content_type@, self.bytes@)
    }

    /// A copy of the body.
    pub fn duplicate(&self) -> (r: StoredRunBody)
        ensures
            r.body_view() == self.body_view(),
    {
        StoredRunBody { content_type: self.content_type.clone(), bytes: self.bytes.clone() }
    }
}

/// The response bodies of recent runs, found again by the id each was stored
/// under; ids count up from 1 and only the newest `MAX_STORED_BODIES` are kept.
pub struct RunStore {
    next_id: u64,
    entries: Vec<(u64, StoredRunBody)>,
}

pub open spec fn entry_views(e: Seq<(u64, StoredRunBody)>) -> Seq<(u64, (Seq<char>, Seq<u8>))> {
    Seq::new(e.len(), |k: int| (e[k].0, e[k].1.body_view()))
}

/// Whether an entry has the id.
pub open spec fn holds_id(e: Seq<(u64, (Seq<char>, Seq<u8>))>, id: u64) -> bool {
    exists|k: int| 0 <= k < e.len() && #[trigger] e[k].0 == id
}

/// The newest `MAX_STORED_BODIES` entries.
pub open spec fn newest(e: Seq<(u64, (Seq<char>, Seq<u8>))>) -> Seq<(u64, (Seq<char>, Seq<u8>))> {
    if e.len() > MAX_STORED_BODIES {
        e.subrange(e.len() - MAX_STORED_BODIES, e.len() as int)
    } else {
        e
    }
}

impl RunStore {
    /// The id the last stored body got (0 before any).
    pub closed spec fn last_id(&self) -> u64 {
        self.next_id
    }

    /// The kept bodies with their ids, oldest first.
    pub closed spec fn kept(&self) -> Seq<(u64, (Seq<char>, Seq<u8>))> {
        entry_views(self.entries@)
    }

    /// The kept ids are the newest ones given out, in order.
    pub closed spec fn wf(&self) -> bool {
        &&& self.entries@.len() == (if self.next_id < MAX_STORED_BODIES {
            self.next_id as int
        } else {
            MAX_STORED_BODIES as int
        })
        &&& forall|k: int|
            0 <= k < self.entries@.len() ==> #[trigger] self.entries@[k].0 == self.next_id
                - self.entries@.len() + 1 + k
    }

    /// Whether a body is kept under `id`.
    pub open spec fn holds(&self, id: u64) -> bool {
        holds_id(self.kept(), id)
    }

    /// An empty store.
    pub fn new() -> (r: Self)
        ensures
            r.wf(),
            r.last_id() == 0,
            r.kept() == Seq::<(u64, (Seq<char>, Seq<u8>))>::empty(),
    {
        let r = RunStore { next_id: 0, entries: Vec::new() };
        assert(r.kept() =~= Seq::<(u64, (Seq<char>, Seq<u8>))>::empty());
        r
    }

    /// Keeps a body under the next id and returns the id; the oldest bodies
    /// beyond `MAX_STORED_BODIES` are dropped.
    pub fn store_body(&mut self, body: StoredRunBody) -> (id: u64)
        requires
            old(self).wf(),
            old(self).last_id() < u64::MAX,
        ensures
            final(self).wf(),
            id == old(self).last_id() + 1,
            final(self).last_id() == id,
            final(self).kept() == newest(old(self).kept().push((id, body.body_view()))),
            forall|i: u64| #[trigger] final(self).holds(i) <==> (1 <= i <= id && id - i < MAX_STORED_BODIES),
    {
        let ghost before = self.kept();
        let ghost bv = body.body_view();
        let id = self.next_id + 1;
        let mut entries: Vec<(u64, StoredRunBody)> = Vec::new();
        std::mem::swap(&mut entries, &mut self.entries);
        entries.push((id, body));
        assert(entry_views(entries@) =~= before.push((id, bv)));
        if entries.len() > MAX_STORED_BODIES {
            let ghost full = entry_views(entries@);
            entries.remove(0);
            assert(entry_views(entries@) =~= full.subrange(1, full.len() as int));
        }
        proof {
            assert forall|k: int| 0 <= k < entries@.len() implies #[trigger] entries@[k].0 == id
                - entries@.len() + 1 + k by {
                let e = entry_views(entries@);
                assert(e[k].0 == entries@[k].0);
            }
        }
        proof {
            let n = entries@.len();
            assert(n == if id < MAX_STORED_BODIES { id as int } else { MAX_STORED_BODIES as int });
            let e = entry_views(entries@);
            assert forall|i: u64| #[trigger] holds_id(e, i) <==> (1 <= i <= id && id - i
                < MAX_STORED_BODIES) by {
                if 1 <= i <= id && id - i < MAX_STORED_BODIES {
                    let k = n - 1 - (id - i);
                    assert(e[k].0 == entries@[k].0);
                }
                if exists|k: int| 0 <= k < e.len() && #[trigger] e[k].0 == i {
                    let k = choose|k: int| 0 <= k < e.len() && #[trigger] e[k].0 == i;
                    assert(e[k].0 == entries@[k].0);
                }
            }
        }
        self.next_id = id;
        self.entries = entries;
        id
    }

    /// The id the last stored body got (0 before any).
    pub fn last_stored_id(&self) -> (r: u64)
        ensures
            r == self.last_id(),
    {
        self.next_id
    }

    /// The body stored under `id`, if it is still kept.
    pub fn get_body(&self, id: u64) -> (r: Option<StoredRunBody>)
        ensures
            r is Some <==> self.holds(id),
            r matches Some(b) ==> exists|k: int|
                0 <= k < self.kept().len() && #[trigger] self.kept()[k] == (id, b.body_view()),
    {
        let mut k: usize = 0;
        while k < self.entries.len()
            invariant
                k <= self.entries@.len(),
                forall|m: int| 0 <= m < k ==> #[trigger] self.kept()[m].0 != id,
            decreases self.entries.len() - k,
        {
            assert(self.kept()[k as int].0 == self.entries@[k as int].0);
            if self.entries[k].0 == id {
                let b = self.entries[k].1.duplicate();
                assert(self.kept()[k as int] == (id, b.body_view()));
                return Some(b);
            }
            k = k + 1;
        }
        assert(!holds_id(self.kept(), id));
        None
    }
}

/// How a response body is shown.
#[derive(Debug, Clone, Copy, PartialEq, Eq, Structural)]
pub enum ResponseBodyKind {
    Text,
    Image,
    Video,
    Binary,
    Empty,
}

pub open spec fn preview_path(id: u64) -> Seq<char> {
    "/api/runs/"@ + crate::text::decimal(id as nat) + "/body"@
}

pub open spec fn binary_note() -> Seq<char> {
    "Binary response captured. Inline preview is only available for image and video responses."@
}

/// Bodies kept in the run store for a preview: non-empty image and video bodies.
pub open spec fn stored_media(body: Seq<u8>, content_type: Option<Seq<char>>) -> bool {
    body.len() > 0 && (content_type matches Some(ct) && (occurs_at(ct, "image/"@, 0) || occurs_at(
        ct,
        "video/"@,
        0,
    )))
}

/// How a body is shown, given the id it gets if it is kept: kind, text, note
/// and preview URL.
pub open spec fn body_outcome(body: Seq<u8>, content_type: Option<Seq<char>>, id: u64) -> (
    ResponseBodyKind,
    Option<Seq<char>>,
    Option<Seq<char>>,
    Option<Seq<char>>,
) {
    if body.len() == 0 {
        (ResponseBodyKind::Empty, None, None, None)
    } else if content_type matches Some(ct) && occurs_at(ct, "image/"@, 0) {
        (ResponseBodyKind::Image, None, None, Some(preview_path(id)))
    } else if content_type matches Some(ct) && occurs_at(ct, "video/"@, 0) {
        (ResponseBodyKind::Video, None, None, Some(preview_path(id)))
    } else if (content_type matches Some(ct) && textual_content_type(ct))
        || vstd::utf8::valid_utf8(body) {
        (ResponseBodyKind::Text, Some(crate::history::utf8_lossy(body)), None, None)
    } else {
        (ResponseBodyKind::Binary, None, Some(binary_note()), None)
    }
}

pub open spec fn opt_str_view(o: Option<&str>) -> Option<Seq<char>> {
    match o {
        Some(s) => Some(s@),
        None => None,
    }
}

/// What the run store holds after a body is shown.
pub open spec fn store_after(before: RunStore, after: RunStore, body: Seq<u8>, content_type: Option<Seq<char>>) -> bool {
    if stored_media(body, content_type) {
        &&& after.last_id() == before.last_id() + 1
        &&& after.kept() == newest(
            before.kept().push((after.last_id(), (content_type->0, body))),
        )
    } else {
        &&& after.last_id() == before.last_id()
        &&& after.kept() == before.kept()
    }
}

fn copy_bytes(b: &[u8]) -> (r: Vec<u8>)
    ensures
        r@ == b@,
{
    let mut v: Vec<u8> = Vec::new();
    let mut i: usize = 0;
    while i < b.len()
        invariant
            i <= b@.len(),
            v@ == b@.subrange(0, i as int),
        decreases b.len() - i,
    {
        v.push(b[i]);
        i = i + 1;
        assert(v@ =~= b@.subrange(0, i as int));
    }
    assert(b@.subrange(0, b@.len() as int) =~= b@);
    v
}

fn preview_url_for(id: u64) -> (r: String)
    ensures
        r@ == preview_path(id),
{
    let mut url = String::from_str("/api/runs/");
    let digits = crate::text::decimal_string_u64(id);
    url.append(digits.as_str());
    url.append("/body");
    url
}

/// Decides how a response body is shown; image and video bodies are kept in
/// the run store and get a preview URL.
pub fn build_body_representation(run_store: &mut RunStore, body_bytes: &[u8], content_type: Option<&str>) -> (r: (
    ResponseBodyKind,
    Option<String>,
    Option<String>,
    Option<String>,
))
    requires
        old(run_store).wf(),
        old(run_store).last_id() < u64::MAX,
    ensures
        final(run_store).wf(),
        (r.0, opt_view(r.1), opt_view(r.2), opt_view(r.3)) == body_outcome(
            body_bytes@,
            opt_str_view(content_type),
            (old(run_store).last_id() + 1) as u64,
        ),
        store_after(*old(run_store), *final(run_store), body_bytes@, opt_str_view(content_type)),
{
    if body_bytes.len() == 0 {
        return (ResponseBodyKind::Empty, None, None, None);
    }
    if let Some(ct) = content_type {
        let image = starts_with_text(ct, "image/");
        let video = !image && starts_with_text(ct, "video/");
        if image || video {
            let body = StoredRunBody { content_type: String::from_str(ct), bytes: copy_bytes(body_bytes) };
            let id = run_store.store_body(body);
            let kind = if image {
                ResponseBodyKind::Image
            } else {
                ResponseBodyKind::Video
            };
            return (kind, None, None, Some(preview_url_for(id)));
        }
    }
    if is_text_like(content_type, body_bytes) {
        return (ResponseBodyKind::Text, Some(crate::history::decode_utf8_lossy(body_bytes)), None, None);
    }
    (
        ResponseBodyKind::Binary,
        None,
        Some(
            String::from_str(
                "Binary response captured. Inline preview is only available for image and video responses.",
            ),
        ),
        None,
    )
}

/// The outcome of running a curl command, as the web interface shows it.
#[derive(Debug)]
pub struct CurlRunResponse {
    pub exit_code: i32,
    pub success: bool,
    pub request: RequestDetails,
    pub http_status: Option<u16>,
    pub content_type: Option<String>,
    pub headers: Vec<ResponseHeader>,
    pub stderr: String,
    pub body_kind: ResponseBodyKind,
    pub body_text: Option<String>,
    pub body_note: Option<String>,
    pub preview_url: Option<String>,
}

/// The content type a response declares, normalized.
pub open spec fn declared_content_type(headers: Seq<(Seq<char>, Seq<char>)>) -> Option<Seq<char>> {
    match header_value_of(headers, "content-type"@) {
        Some(v) => Some(normalized_content_type(v)),
        None => None,
    }
}

/// Reads what curl left behind for one run: its exit status, standard output
/// and error, and the header, body and trace files; the request read from the
/// arguments is completed from the trace, and the body of a `HEAD` request is
/// ignored.
pub fn finish_run(
    request: RequestDetails,
    exit_code: i32,
    success: bool,
    stdout: &[u8],
    stderr: &[u8],
    header_bytes: &[u8],
    body_bytes: &[u8],
    trace_bytes: &[u8],
    run_store: &mut RunStore,
) -> (r: CurlRunResponse)
    requires
        old(run_store).wf(),
        old(run_store).last_id() < u64::MAX,
    ensures
        final(run_store).wf(),
        r.exit_code == exit_code,
        r.success == success,
        r.request.request_view() == merged_request(
            request.request_view(),
            last_traced_request(crate::history::utf8_lossy(trace_bytes@)),
        ),
        r.http_status == http_status_of(crate::history::utf8_lossy(stdout@)),
        headers_view(r.headers@) == last_response_headers(crate::history::utf8_lossy(header_bytes@)),
        opt_view(r.content_type) == declared_content_type(headers_view(r.headers@)),
        r.stderr@ == trim(crate::history::utf8_lossy(stderr@)),
        ({
            let body = if ascii_lower_seq(r.request.method@) == ascii_lower_seq("HEAD"@) {
                Seq::<u8>::empty()
            } else {
                body_bytes@
            };
            &&& (r.body_kind, opt_view(r.body_text), opt_view(r.body_note), opt_view(r.preview_url))
                == body_outcome(body, opt_view(r.content_type), (old(run_store).last_id() + 1) as u64)
            &&& store_after(*old(run_store), *final(run_store), body, opt_view(r.content_type))
        }),
{
    let out_text = crate::history::decode_utf8_lossy(stdout);
    let err_text = crate::history::decode_utf8_lossy(stderr);
    let header_text = crate::history::decode_utf8_lossy(header_bytes);
    let trace_text = crate::history::decode_utf8_lossy(trace_bytes);
    finish_run_from_texts(
        request,
        exit_code,
        success,
        out_text.as_str(),
        err_text.as_str(),
        header_text.as_str(),
        body_bytes,
        trace_text.as_str(),
        run_store,
    )
}

/// Builds the response of one run from curl's exit status, the decoded text of
/// its standard output and error and of its header and trace files, and the
/// body bytes; the request read from the arguments is completed from the
/// trace, and the body of a `HEAD` request is ignored.
pub fn finish_run_from_texts(
    request: RequestDetails,
    exit_code: i32,
    success: bool,
    stdout: &str,
    stderr: &str,
    header_text: &str,
    body_bytes: &[u8],
    trace_text: &str,
    run_store: &mut RunStore,
) -> (r: CurlRunResponse)
    requires
        old(run_store).wf(),
        old(run_store).last_id() < u64::MAX,
    ensures
        final(run_store).wf(),
        r.exit_code == exit_code,
        r.success == success,
        r.request.request_view() == merged_request(
            request.request_view(),
            last_traced_request(trace_text@),
        ),
        r.http_status == http_status_of(stdout@),
        headers_view(r.headers@) == last_response_headers(header_text@),
        opt_view(r.content_type) == declared_content_type(headers_view(r.headers@)),
        r.stderr@ == trim(stderr@),
        ({
            let body = if ascii_lower_seq(r.request.method@) == ascii_lower_seq("HEAD"@) {
                Seq::<u8>::empty()
            } else {
                body_bytes@
            };
            &&& (r.body_kind, opt_view(r.body_text), opt_view(r.body_note), opt_view(r.preview_url))
                == body_outcome(body, opt_view(r.content_type), (old(run_store).last_id() + 1) as u64)
            &&& store_after(*old(run_store), *final(run_store), body, opt_view(r.content_type))
        }),
{
    let http_status = parse_http_status(stdout);
    let traced = last_request_in_trace(trace_text);
    let request = merge_request_details(request, traced);
    let headers = last_response_headers_in(header_text);
    let content_type = match header_value(&headers, "content-type") {
        Some(v) => Some(normalize_content_type(v)),
        None => None,
    };
    let stderr_text = crate::text::trim_str(stderr);
    let empty: [u8; 0] = [];
    let body: &[u8] = if eq_ignore_ascii_case(request.method.as_str(), "HEAD") {
        empty.as_slice()
    } else {
        body_bytes
    };
    assert(body@.len() == 0 ==> body@ =~= Seq::<u8>::empty());
    let ct: Option<&str> = match &content_type {
        Some(c) => Some(c.as_str()),
        None => None,
    };
    let (body_kind, body_text, body_note, preview_url) = build_body_representation(run_store, body, ct);
    CurlRunResponse {
        exit_code,
        success,
        request,
        http_status,
        content_type,
        headers,
        stderr: stderr_text,
        body_kind,
        body_text,
        body_note,
        preview_url,
    }
}

/// Checks that a command may run and reads its words and request; the error
/// is the analysis's reason.
pub fn prepare_run(command: &str) -> (r: Result<(Vec<String>, RequestDetails), String>)
    ensures
        match shell_split(command@) {
            None => r matches Err(e) && e@ == "Command parsing failed: "@ + "missing closing quote"@,
            Some(words) => {
                let a = analysis_of(Ok(words));
                if a.0 {
                    r matches Ok(x) && x.0.deep_view() == words && x.1.request_view()
                        == request_of_args(words)
                } else {
                    r matches Err(e) && Some(e@) == a.1
                }
            },
        },
{
    let split = split_shell_words(command);
    let analysis = analyze_words(&split);
    if !analysis.runnable {
        return match analysis.unsupported_reason {
            Some(reason) => Err(reason),
            None => Err(String::from_str("Only curl commands can run in the web interface.")),
        };
    }
    match split {
        Ok(args) => {
            let request = parse_request_details(&args);
            Ok((args, request))
        },
        Err(e) => Err(e),
    }
}

pub open spec fn curl_extra_args(trace: Seq<char>, header: Seq<char>, body: Seq<char>) -> Seq<Seq<char>> {
    seq![
        "--silent"@,
        "--show-error"@,
        "--trace-ascii"@,
        trace,
        "--dump-header"@,
        header,
        "--output"@,
        body,
        "--write-out"@,
        http_code_marker() + "%{http_code}"@,
    ]
}

/// The arguments curl runs with: the command's own after `curl`, then the
/// options that capture the trace, headers, body and status code.
pub fn curl_invocation_args(args: &Vec<String>, trace_path: &str, header_path: &str, body_path: &str) -> (r: Vec<
    String,
>)
    requires
        args@.len() >= 1,
    ensures
        r.deep_view() == args.deep_view().subrange(1, args@.len() as int) + curl_extra_args(
            trace_path@,
            header_path@,
            body_path@,
        ),
{
    let mut out: Vec<String> = Vec::new();
    let mut i: usize = 1;
    let ghost av = args.deep_view();
    assert(out.deep_view() =~= av.subrange(1, 1));
    while i < args.len()
        invariant
            1 <= i <= args@.len(),
            av == args.deep_view(),
            out.deep_view() == av.subrange(1, i as int),
        decreases args.len() - i,
    {
        let ghost before = out.deep_view();
        let a = args[i].clone();
        assert(a@ == av[i as int]);
        out.push(a);
        assert(out.deep_view() =~= before.push(av[i as int]));
        assert(out.deep_view() =~= av.subrange(1, i + 1));
        i = i + 1;
    }
    let ghost front = out.deep_view();
    out.push(String::from_str("--silent"));
    out.push(String::from_str("--show-error"));
    out.push(String::from_str("--trace-ascii"));
    out.push(String::from_str(trace_path));
    out.push(String::from_str("--dump-header"));
    out.push(String::from_str(header_path));
    out.push(String::from_str("--output"));
    out.push(String::from_str(body_path));
    out.push(String::from_str("--write-out"));
    let mut w = String::from_str("__SHELLSHELF_HTTP_CODE__:");
    w.append("%{http_code}");
    out.push(w);
    assert(out.deep_view() =~= front + curl_extra_args(trace_path@, header_path@, body_path@));
    out
}


/// Only curl commands run: a command that the analysis accepts split into
/// words, its first word is `curl` and none of the others is an option that
/// the runner reserves; a refused command always comes with its reason.
pub proof fn runnable_commands_are_plain_curl(split: Result<Seq<Seq<char>>, Seq<char>>)
    ensures
        analysis_of(split).0 ==> (split matches Ok(words) && words.len() > 0 && words[0] == "curl"@
            && forall|k: int| 1 <= k < words.len() ==> !forbidden_option(#[trigger] words[k])),
        analysis_of(split).0 ==> analysis_of(split).1 is None,
        !analysis_of(split).0 ==> analysis_of(split).1 is Some,
{
    if let Ok(words) = split {
        if words.len() > 0 && words[0] == "curl"@ && first_forbidden(words, 1) is None {
            lemma_none_forbidden_from(words, 1);
        }
    }
}


/// A read gives back what was written: right after a body is stored under a
/// new id, any body that the store holds under that id is the stored one.
pub proof fn stored_body_is_read_back(
    before: RunStore,
    after: RunStore,
    id: u64,
    body: (Seq<char>, Seq<u8>),
    read: (Seq<char>, Seq<u8>),
)
    requires
        before.wf(),
        before.last_id() < u64::MAX,
        id == before.last_id() + 1,
        after.kept() == newest(before.kept().push((id, body))),
        exists|k: int| 0 <= k < after.kept().len() && #[trigger] after.kept()[k] == (id, read),
    ensures
        read == body,
{
    let k = choose|k: int| 0 <= k < after.kept().len() && #[trigger] after.kept()[k] == (id, read);
    let full = before.kept().push((id, body));
    let n = full.len();
    let off = if n > MAX_STORED_BODIES { n - MAX_STORED_BODIES } else { 0 };
    assert(after.kept()[k] == full[off + k]);
    if off + k < n - 1 {
        let j = off + k;
        assert(full[j] == before.kept()[j]);
        assert(before.kept()[j].0 == before.entries@[j].0);
        assert(before.entries@[j].0 == before.next_id - before.entries@.len() + 1 + j);
    }
}

/// What the run store keeps after `RunStore::new` and one `store_body` call for
/// each of `bodies`, in order: the contracts of the two functions applied in turn
/// (the i-th body gets id i).
pub open spec fn kept_after_storing(bodies: Seq<(Seq<char>, Seq<u8>)>) -> Seq<(u64, (Seq<char>, Seq<u8>))>
    decreases bodies.len(),
{
    if bodies.len() == 0 {
        Seq::empty()
    } else {
        newest(kept_after_storing(bodies.drop_last()).push((bodies.len() as u64, bodies.last())))
    }
}

/// One more `store_body` call continues `kept_after_storing`: a store that
/// holds what storing `bodies` leaves and stores `body` under the next id then
/// holds what storing `bodies` and then `body` leaves.
pub proof fn storing_one_more_body(
    bodies: Seq<(Seq<char>, Seq<u8>)>,
    before: RunStore,
    after: RunStore,
    id: u64,
    body: (Seq<char>, Seq<u8>),
)
    requires
        before.last_id() == bodies.len(),
        before.kept() == kept_after_storing(bodies),
        id == before.last_id() + 1,
        after.kept() == newest(before.kept().push((id, body))),
    ensures
        after.last_id() == id ==> after.last_id() == bodies.push(body).len(),
        after.kept() == kept_after_storing(bodies.push(body)),
{
    assert(bodies.push(body).drop_last() =~= bodies);
}

/// The newest `MAX_STORED_BODIES` of `bodies`, each with its id (its position
/// counted from 1), oldest first.
pub open spec fn newest_window(bodies: Seq<(Seq<char>, Seq<u8>)>) -> Seq<(u64, (Seq<char>, Seq<u8>))> {
    let n = bodies.len() as int;
    let start = if n > MAX_STORED_BODIES { n - MAX_STORED_BODIES } else { 0 };
    Seq::new((n - start) as nat, |k: int| ((start + k + 1) as u64, bodies[start + k]))
}

/// Only the newest bodies are kept: after storing `bodies` one by one in a new
/// store, the store holds the body with id i exactly when i is one of the
/// `MAX_STORED_BODIES` newest ids, and what it holds under id i is the i-th body.
pub proof fn run_store_keeps_newest_bodies(bodies: Seq<(Seq<char>, Seq<u8>)>)
    requires
        bodies.len() < u64::MAX,
    ensures
        kept_after_storing(bodies) == newest_window(bodies),
        forall|i: u64|
            #[trigger] holds_id(kept_after_storing(bodies), i) <==> (1 <= i <= bodies.len() && bodies.len() - i
                < MAX_STORED_BODIES),
        forall|k: int|
            0 <= k < kept_after_storing(bodies).len() ==> (#[trigger] kept_after_storing(bodies)[k]).1
                == bodies[kept_after_storing(bodies)[k].0 - 1],
    decreases bodies.len(),
{
    let n = bodies.len() as int;
    let w = newest_window(bodies);
    if n > 0 {
        let p = bodies.drop_last();
        run_store_keeps_newest_bodies(p);
        let wp = newest_window(p);
        let full = wp.push((n as u64, bodies.last()));
        let start = if n > MAX_STORED_BODIES { n - MAX_STORED_BODIES } else { 0 };
        let pstart = if n - 1 > MAX_STORED_BODIES { n - 1 - MAX_STORED_BODIES } else { 0 };
        assert forall|k: int| 0 <= k < full.len() implies #[trigger] full[k] == ((pstart + k + 1) as u64, bodies[pstart
            + k]) by {
            if k < wp.len() {
                assert(p[pstart + k] == bodies[pstart + k]);
            }
        }
        assert(newest(full) =~= w);
    } else {
        assert(kept_after_storing(bodies) =~= w);
    }
    let start = if n > MAX_STORED_BODIES { n - MAX_STORED_BODIES } else { 0 };
    assert forall|i: u64| #[trigger] holds_id(w, i) <==> (1 <= i <= n && n - i < MAX_STORED_BODIES) by {
        if 1 <= i <= n && n - i < MAX_STORED_BODIES {
            let k = i - 1 - start;
            assert(w[k].0 == i);
        }
    }
}

/// No argument is a `--url` option.
pub open spec fn no_url_option(args: Seq<Seq<char>>) -> bool {
    forall|k: int| 0 <= k < args.len() ==> #[trigger] args[k] != "--url"@ && !occurs_at(args[k], "--url="@, 0)
}

proof fn lemma_plain_not_option(arg: Seq<char>, o: Seq<char>)
    requires
        !starts_with_dash(arg),
        o.len() > 0,
        o[0] == '-',
    ensures
        arg != o,
        !occurs_at(arg, o, 0),
{
    if occurs_at(arg, o, 0) {
        assert(arg.subrange(0, o.len() as int)[0] == arg[0]);
    }
}

proof fn lemma_plain_no_option_value(arg: Seq<char>, args: Seq<Seq<char>>, i: int, names: Seq<Seq<char>>)
    requires
        !starts_with_dash(arg),
        forall|k: int| 0 <= k < names.len() ==> (#[trigger] names[k]).len() > 0 && names[k][0] == '-',
    ensures
        option_value(arg, args, i, names) is None,
    decreases names.len(),
{
    if names.len() > 0 {
        let o = names[0];
        lemma_plain_not_option(arg, o);
        lemma_plain_not_option(arg, o + seq!['=']);
        let rest = names.drop_first();
        assert forall|k: int| 0 <= k < rest.len() implies (#[trigger] rest[k]).len() > 0 && rest[k][0] == '-' by {
            assert(rest[k] == names[k + 1]);
        }
        lemma_plain_no_option_value(arg, args, i, rest);
    }
}

proof fn lemma_no_url_value(arg: Seq<char>, args: Seq<Seq<char>>, i: int)
    requires
        arg != "--url"@,
        !occurs_at(arg, "--url="@, 0),
    ensures
        option_value(arg, args, i, url_option_names()) is None,
{
    reveal_strlit("--url");
    reveal_strlit("--url=");
    let names = url_option_names();
    assert(names[0] == "--url"@);
    assert(names[0] + seq!['='] =~= "--url="@);
    assert(is_long_option(names[0]));
    assert(names.drop_first().len() == 0);
    assert(option_value(arg, args, i, names.drop_first()) is None);
}

proof fn lemma_body_option_dash(arg: Seq<char>)
    requires
        body_option(arg) || arg == "--head"@ || arg == "-I"@,
    ensures
        starts_with_dash(arg),
{
    reveal_strlit("-d");
    reveal_strlit("--data");
    reveal_strlit("--data-raw");
    reveal_strlit("--data-binary");
    reveal_strlit("--data-urlencode");
    reveal_strlit("-F");
    reveal_strlit("--form");
    reveal_strlit("--json");
    reveal_strlit("--data=");
    reveal_strlit("--data-raw=");
    reveal_strlit("--data-binary=");
    reveal_strlit("--data-urlencode=");
    reveal_strlit("--form=");
    reveal_strlit("--json=");
    reveal_strlit("--head");
    reveal_strlit("-I");
    if arg.len() > 0 {
        assert(arg.subrange(0, 1)[0] == arg[0]);
        assert(arg.subrange(0, 2)[0] == arg[0]);
    }
}

/// A URL, once found, stays: reading further arguments never replaces it
/// unless one of them is a `--url` option (a later plain argument, such as the
/// value of `--max-time`, does not).
pub proof fn found_url_is_kept(args: Seq<Seq<char>>, i: int, st: RequestScan)
    requires
        st.url is Some,
        no_url_option(args),
    ensures
        request_from(args, i, st).url == st.url,
    decreases args.len() + 2 - i,
{
    if 0 <= i < args.len() {
        let arg = args[i];
        assert(arg != "--url"@ && !occurs_at(arg, "--url="@, 0));
        lemma_no_url_value(arg, args, i);
        match option_value(arg, args, i, header_option_names()) {
            Some((v, c)) => {
                found_url_is_kept(
                    args,
                    i + step(c),
                    RequestScan {
                        method: st.method,
                        url: st.url,
                        headers: match header_of(v) {
                            Some(h) => st.headers.push(h),
                            None => st.headers,
                        },
                        saw_body: st.saw_body,
                    },
                );
            },
            None => match option_value(arg, args, i, method_option_names()) {
                Some((v, c)) => {
                    found_url_is_kept(
                        args,
                        i + step(c),
                        RequestScan { method: Some(ascii_upper_seq(v)), url: st.url, headers: st.headers, saw_body: st.saw_body },
                    );
                },
                None => {
                    if body_option(arg) {
                        let skip_value = body_option_alone(arg) && i + 1 < args.len() && !starts_with_dash(args[i + 1]);
                        found_url_is_kept(
                            args,
                            i + step(skip_value),
                            RequestScan { method: st.method, url: st.url, headers: st.headers, saw_body: true },
                        );
                    } else if arg == "--head"@ || arg == "-I"@ {
                        found_url_is_kept(
                            args,
                            i + 1,
                            RequestScan { method: Some("HEAD"@), url: st.url, headers: st.headers, saw_body: st.saw_body },
                        );
                    } else {
                        found_url_is_kept(args, i + 1, st);
                    }
                },
            },
        }
    }
}

/// Without a `--url` option, a plain argument right after the program name is
/// the request's URL, whatever follows it.
pub proof fn first_plain_argument_is_the_url(args: Seq<Seq<char>>)
    requires
        args.len() > 1,
        !starts_with_dash(args[1]),
        no_url_option(args),
    ensures
        request_of_args(args).url == Some(args[1]),
{
    let arg = args[1];
    let st = RequestScan { method: None, url: None, headers: Seq::empty(), saw_body: false };
    reveal_strlit("-H");
    reveal_strlit("--header");
    reveal_strlit("-X");
    reveal_strlit("--request");
    lemma_plain_no_option_value(arg, args, 1, header_option_names());
    lemma_plain_no_option_value(arg, args, 1, method_option_names());
    assert(arg != "--url"@ && !occurs_at(arg, "--url="@, 0));
    lemma_no_url_value(arg, args, 1);
    if body_option(arg) || arg == "--head"@ || arg == "-I"@ {
        lemma_body_option_dash(arg);
    }
    let next = RequestScan { method: None, url: Some(arg), headers: Seq::empty(), saw_body: false };
    assert(request_from(args, 1, st) == request_from(args, 2, next));
    found_url_is_kept(args, 2, next);
}

/// No argument sets the method or sends a body: none begins with `-X` or
/// `--request`, none is a body option, and none is `--head` or `-I`.
pub open spec fn no_method_or_body_option(args: Seq<Seq<char>>) -> bool {
    forall|k: int|
        0 <= k < args.len() ==> {
            &&& !occurs_at(#[trigger] args[k], "-X"@, 0)
            &&& !occurs_at(args[k], "--request"@, 0)
            &&& !body_option(args[k])
            &&& args[k] != "--head"@
            &&& args[k] != "-I"@
        }
}

proof fn lemma_prefix_occurs(s: Seq<char>, p: Seq<char>, q: Seq<char>)
    requires
        s == p || occurs_at(s, p + q, 0),
    ensures
        occurs_at(s, p, 0),
{
    if s == p {
        assert(s.subrange(0, p.len() as int) =~= p);
    } else {
        assert(s.subrange(0, p.len() as int) =~= (p + q).subrange(0, p.len() as int));
        assert((p + q).subrange(0, p.len() as int) =~= p);
    }
}

proof fn lemma_no_method_value(arg: Seq<char>, args: Seq<Seq<char>>, i: int)
    requires
        !occurs_at(arg, "-X"@, 0),
        !occurs_at(arg, "--request"@, 0),
    ensures
        option_value(arg, args, i, method_option_names()) is None,
{
    reveal_strlit("-X");
    reveal_strlit("--request");
    let names = method_option_names();
    let rest = names.drop_first();
    assert(names[0] == "-X"@);
    assert(rest[0] == "--request"@);
    if arg == names[0] {
        lemma_prefix_occurs(arg, "-X"@, seq![]);
    }
    if arg == rest[0] || occurs_at(arg, rest[0] + seq!['='], 0) {
        lemma_prefix_occurs(arg, "--request"@, seq!['=']);
    }
    assert(!is_long_option(names[0]));
    assert(is_long_option(rest[0]));
    assert(rest.drop_first().len() == 0);
    assert(option_value(arg, args, i, rest.drop_first()) is None);
    assert(option_value(arg, args, i, rest) is None);
}

/// Reading arguments that neither set the method nor send a body leaves the
/// method found so far, and whether a body was seen, as they were.
pub proof fn method_and_body_are_kept(args: Seq<Seq<char>>, i: int, st: RequestScan)
    requires
        no_method_or_body_option(args),
    ensures
        request_from(args, i, st).method == st.method,
        request_from(args, i, st).saw_body == st.saw_body,
    decreases args.len() + 2 - i,
{
    if 0 <= i < args.len() {
        let arg = args[i];
        assert(!occurs_at(arg, "-X"@, 0) && !occurs_at(arg, "--request"@, 0) && !body_option(arg));
        lemma_no_method_value(arg, args, i);
        match option_value(arg, args, i, header_option_names()) {
            Some((v, c)) => {
                method_and_body_are_kept(
                    args,
                    i + step(c),
                    RequestScan {
                        method: st.method,
                        url: st.url,
                        headers: match header_of(v) {
                            Some(h) => st.headers.push(h),
                            None => st.headers,
                        },
                        saw_body: st.saw_body,
                    },
                );
            },
            None => match option_value(arg, args, i, url_option_names()) {
                Some((v, c)) => {
                    method_and_body_are_kept(
                        args,
                        i + step(c),
                        RequestScan { method: st.method, url: Some(v), headers: st.headers, saw_body: st.saw_body },
                    );
                },
                None => {
                    if !starts_with_dash(arg) && st.url is None {
                        method_and_body_are_kept(
                            args,
                            i + 1,
                            RequestScan { method: st.method, url: Some(arg), headers: st.headers, saw_body: st.saw_body },
                        );
                    } else {
                        method_and_body_are_kept(args, i + 1, st);
                    }
                },
            },
        }
    }
}

/// A command that neither sets the method nor sends a body makes a `GET`
/// request.
pub proof fn plain_requests_are_get(args: Seq<Seq<char>>)
    requires
        no_method_or_body_option(args),
    ensures
        request_of_args(args).method == "GET"@,
{
    method_and_body_are_kept(
        args,
        1,
        RequestScan { method: None, url: None, headers: Seq::empty(), saw_body: false },
    );
}

} // verus!
