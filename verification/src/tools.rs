//! What a call of a tool sends to the API, and what its answer is made into.

use vstd::prelude::*;
use crate::config::Config;
use crate::json::{JsonValue, JsonModel, entry_models, lemma_entry_models};
use crate::state::Tool;
use crate::text::{
    trim_end_char, trim_ws, split_on, split_once_at, chars_of, string_of, trim_end_matches,
    split_chars, seqs_of, trim, split_once, lemma_trim_idempotent, opt_view, strs_of,
};

verus! {

/// The HTTP methods that tools are made for.
#[derive(Clone, Copy, Debug, PartialEq, Eq)]
pub enum HttpMethod {
    Get,
    Post,
    Put,
    Delete,
    Patch,
}

/// Where the arguments of a call go.
pub enum ArgsPlacement {
    /// As the query string, one parameter per entry.
    Query(Vec<(String, JsonValue)>),
    /// As a JSON body.
    Body(JsonValue),
    /// Not sent.
    Omitted,
}

/// The request that carries out a call of a tool.
pub struct RequestPlan {
    pub method: HttpMethod,
    pub url: String,
    /// Sent as `Authorization: Bearer <token>`.
    pub bearer_token: Option<String>,
    /// Further headers, in the order they are added.
    pub headers: Vec<(String, String)>,
    pub args: ArgsPlacement,
}

/// Why a call of a tool failed.
pub enum ExecuteError {
    /// The tool's method is none of GET, POST, PUT, DELETE, PATCH.
    UnsupportedMethod(String),
    /// The API answered with a status outside 200..=299.
    Api { status: String, body: String },
}

pub enum ArgsModel {
    Query(Seq<(Seq<char>, JsonModel)>),
    Body(JsonModel),
    Omitted,
}

pub struct PlanModel {
    pub method: HttpMethod,
    pub url: Seq<char>,
    pub bearer_token: Option<Seq<char>>,
    pub headers: Seq<(Seq<char>, Seq<char>)>,
    pub args: ArgsModel,
}

pub open spec fn pairs_of(s: Seq<(String, String)>) -> Seq<(Seq<char>, Seq<char>)> {
    s.map_values(|p: (String, String)| (p.0@, p.1@))
}

impl ArgsPlacement {
    pub open spec fn model(self) -> ArgsModel {
        match self {
            ArgsPlacement::Query(es) => ArgsModel::Query(entry_models(es@)),
            ArgsPlacement::Body(v) => ArgsModel::Body(v.model()),
            ArgsPlacement::Omitted => ArgsModel::Omitted,
        }
    }
}

impl RequestPlan {
    pub open spec fn model(self) -> PlanModel {
        PlanModel {
            method: self.method,
            url: self.url@,
            bearer_token: opt_view(self.bearer_token),
            headers: pairs_of(self.headers@),
            args: self.args.model(),
        }
    }
}

/// The method a tool's method name stands for.
pub open spec fn method_of(m: Seq<char>) -> Option<HttpMethod> {
    if m == "GET"@ {
        Some(HttpMethod::Get)
    } else if m == "POST"@ {
        Some(HttpMethod::Post)
    } else if m == "PUT"@ {
        Some(HttpMethod::Put)
    } else if m == "DELETE"@ {
        Some(HttpMethod::Delete)
    } else if m == "PATCH"@ {
        Some(HttpMethod::Patch)
    } else {
        None
    }
}

/// The base URL of calls: the configured one, else the URL of the document's first
/// server, else nothing.
pub open spec fn call_base(base: Option<Seq<char>>, servers: Seq<Seq<char>>) -> Seq<char> {
    match base {
        Some(b) => b,
        None => if servers.len() > 0 {
            servers[0]
        } else {
            Seq::empty()
        },
    }
}

/// The URL of a call: the base URL of calls without its trailing slashes, then the tool's
/// path.
pub open spec fn url_of(base: Option<Seq<char>>, servers: Seq<Seq<char>>, path: Seq<char>) -> Seq<
    char,
> {
    trim_end_char(call_base(base, servers), '/') + path
}

/// The headers given by `Name: value` lines: each line is trimmed, empty lines and lines
/// without ':' are skipped, and name and value are split at the first ':' and trimmed.
pub open spec fn parse_header_lines(lines: Seq<Seq<char>>) -> Seq<(Seq<char>, Seq<char>)>
    decreases lines.len(),
{
    if lines.len() == 0 {
        Seq::empty()
    } else {
        let prev = parse_header_lines(lines.drop_last());
        let t = trim_ws(lines.last());
        if t.len() == 0 {
            prev
        } else {
            match split_once_at(t, ':') {
                Some((k, v)) => prev.push((trim_ws(k), trim_ws(v))),
                None => prev,
            }
        }
    }
}

/// The headers of every call: `X-API-Key` where there is an API key, then the extra
/// headers, one per line of the setting.
pub open spec fn headers_of(api_key: Option<Seq<char>>, extra: Option<Seq<char>>) -> Seq<
    (Seq<char>, Seq<char>),
> {
    let key_headers: Seq<(Seq<char>, Seq<char>)> = match api_key {
        Some(k) => seq![("X-API-Key"@, k)],
        None => Seq::empty(),
    };
    key_headers + match extra {
        Some(e) => parse_header_lines(split_on(e, '\n')),
        None => Seq::empty(),
    }
}

/// GET and DELETE send a non-empty argument object as the query string; POST, PUT and
/// PATCH send any argument but `null` as the body.
pub open spec fn args_of(method: HttpMethod, args: JsonModel) -> ArgsModel {
    match method {
        HttpMethod::Get | HttpMethod::Delete => match args {
            JsonModel::Object(es) => if es.len() > 0 {
                ArgsModel::Query(es)
            } else {
                ArgsModel::Omitted
            },
            _ => ArgsModel::Omitted,
        },
        _ => match args {
            JsonModel::Null => ArgsModel::Omitted,
            _ => ArgsModel::Body(args),
        },
    }
}

/// The request for a call of `tool` with `args` under `config`, for a document whose
/// servers have the URLs `servers`.
pub open spec fn plan_of(config: Config, servers: Seq<Seq<char>>, tool: Tool, args: JsonModel) -> Option<
    PlanModel,
> {
    match method_of(tool.method@) {
        Some(m) => Some(
            PlanModel {
                method: m,
                url: url_of(opt_view(config.base_url), servers, tool.path@),
                bearer_token: opt_view(config.auth_token),
                headers: headers_of(opt_view(config.api_key), opt_view(config.extra_headers)),
                args: args_of(m, args),
            },
        ),
        None => None,
    }
}


/// The method a tool's method name stands for.
pub fn parse_method(m: &String) -> (r: Option<HttpMethod>)
    ensures
        r == method_of(m@),
{
    if *m == "GET".to_owned() {
        Some(HttpMethod::Get)
    } else if *m == "POST".to_owned() {
        Some(HttpMethod::Post)
    } else if *m == "PUT".to_owned() {
        Some(HttpMethod::Put)
    } else if *m == "DELETE".to_owned() {
        Some(HttpMethod::Delete)
    } else if *m == "PATCH".to_owned() {
        Some(HttpMethod::Patch)
    } else {
        None
    }
}

/// The URL of a call.
pub fn call_url(base_url: &Option<String>, servers: &Vec<String>, path: &String) -> (r: String)
    ensures
        r@ == url_of(opt_view(*base_url), strs_of(servers@), path@),
{
    let base: Vec<char> = match base_url {
        Some(b) => chars_of(b.as_str()),
        None => if servers.len() > 0 {
            chars_of(servers[0].as_str())
        } else {
            Vec::new()
        },
    };
    assert(base@ == call_base(opt_view(*base_url), strs_of(servers@)));
    let mut url = string_of(&trim_end_matches(&base, '/'));
    url.append(path.as_str());
    url
}

/// The headers given by the lines of `extra`.
pub fn parse_headers(extra: &String) -> (r: Vec<(String, String)>)
    ensures
        pairs_of(r@) == parse_header_lines(split_on(extra@, '\n')),
{
    let lines = split_chars(&chars_of(extra.as_str()), '\n');
    let ghost ls = seqs_of(lines@);
    let mut out: Vec<(String, String)> = Vec::new();
    let n = lines.len();
    assert(pairs_of(out@) =~= Seq::empty());
    for i in 0..n
        invariant
            n == lines@.len(),
            ls == seqs_of(lines@),
            pairs_of(out@) == parse_header_lines(ls.take(i as int)),
    {
        assert(ls.take(i + 1).drop_last() =~= ls.take(i as int));
        assert(ls.take(i + 1).last() == lines@[i as int]@);
        let t = trim(&lines[i]);
        if t.len() > 0 {
            match split_once(&t, ':') {
                Some((k, v)) => {
                    let key = string_of(&trim(&k));
                    let value = string_of(&trim(&v));
                    let ghost before = out@;
                    out.push((key, value));
                    assert(pairs_of(out@) =~= pairs_of(before).push((key@, value@)));
                },
                None => {},
            }
        }
    }
    assert(ls.take(n as int) =~= ls);
    out
}

/// Where the arguments of a call with `method` go.
pub fn place_args(method: HttpMethod, args: JsonValue) -> (r: ArgsPlacement)
    ensures
        r.model() == args_of(method, args.model()),
{
    match method {
        HttpMethod::Get | HttpMethod::Delete => match args {
            JsonValue::Object(es) => {
                proof {
                    lemma_entry_models(es@);
                }
                if es.len() > 0 {
                    ArgsPlacement::Query(es)
                } else {
                    ArgsPlacement::Omitted
                }
            },
            _ => ArgsPlacement::Omitted,
        },
        _ => match args {
            JsonValue::Null => ArgsPlacement::Omitted,
            _ => ArgsPlacement::Body(args),
        },
    }
}

/// The request that carries out a call of `tool` with `args`, for a document whose servers
/// have the URLs `servers`; an error where the tool's method is none of GET, POST, PUT,
/// DELETE, PATCH.
pub fn plan_request(config: &Config, servers: &Vec<String>, tool: &Tool, args: JsonValue) -> (r:
    Result<RequestPlan, ExecuteError>)
    ensures
        match (r, plan_of(*config, strs_of(servers@), *tool, args.model())) {
            (Ok(p), Some(m)) => p.model() == m,
            (Err(ExecuteError::UnsupportedMethod(name)), None) => name@ == tool.method@,
            _ => false,
        },
{
    let method = match parse_method(&tool.method) {
        Some(m) => m,
        None => return Err(ExecuteError::UnsupportedMethod(tool.method.clone())),
    };
    let url = call_url(&config.base_url, servers, &tool.path);
    let bearer_token = match &config.auth_token {
        Some(t) => Some(t.clone()),
        None => None,
    };
    let mut headers: Vec<(String, String)> = Vec::new();
    match &config.api_key {
        Some(k) => {
            headers.push(("X-API-Key".to_owned(), k.clone()));
        },
        None => {},
    }
    let ghost key_part = pairs_of(headers@);
    match &config.extra_headers {
        Some(e) => {
            let mut more = parse_headers(e);
            let ghost m1 = more@;
            let ghost h1 = headers@;
            headers.append(&mut more);
            assert(pairs_of(headers@) =~= pairs_of(h1) + pairs_of(m1));
        },
        None => {
            assert(pairs_of(headers@) =~= key_part + Seq::<(Seq<char>, Seq<char>)>::empty());
        },
    }
    assert(key_part =~= match opt_view(config.api_key) {
        Some(k) => seq![("X-API-Key"@, k)],
        None => Seq::<(Seq<char>, Seq<char>)>::empty(),
    });
    let placed = place_args(method, args);
    Ok(RequestPlan { method, url, bearer_token, headers, args: placed })
}

/// Whether an HTTP status is a success (200..=299).
pub open spec fn is_success(status: u16) -> bool {
    200 <= status <= 299
}

/// What a call returns once the API has answered with `status` (written `status_text`)
/// and `body`, where `parsed` is the body read as JSON if it is JSON: an error for a
/// status outside 200..=299; otherwise the JSON, or the body as a JSON string where it is
/// not JSON.
pub fn finish_response(status: u16, status_text: String, body: String, parsed: Option<JsonValue>) -> (r:
    Result<JsonValue, ExecuteError>)
    ensures
        !is_success(status) ==> (r matches Err(ExecuteError::Api { status: s, body: b }) && s@
            == status_text@ && b@ == body@),
        is_success(status) ==> match parsed {
            Some(v) => r matches Ok(x) && x.model() == v.model(),
            None => r matches Ok(x) && x.model() == JsonModel::String(body@),
        },
{
    if !(200 <= status && status <= 299) {
        return Err(ExecuteError::Api { status: status_text, body });
    }
    match parsed {
        Some(v) => Ok(v),
        None => Ok(JsonValue::String(body)),
    }
}

impl ExecuteError {
    /// The message of the error: "Unsupported method: <method>" or
    /// "API error <status>: <body>".
    pub fn message(&self) -> (r: String)
        ensures
            r@ == match self {
                ExecuteError::UnsupportedMethod(m) => "Unsupported method: "@ + m@,
                ExecuteError::Api { status, body } => "API error "@ + status@ + ": "@ + body@,
            },
    {
        match self {
            ExecuteError::UnsupportedMethod(m) => {
                let mut r = "Unsupported method: ".to_owned();
                r.append(m.as_str());
                r
            },
            ExecuteError::Api { status, body } => {
                let mut r = "API error ".to_owned();
                r.append(status.as_str());
                r.append(": ");
                r.append(body.as_str());
                r
            },
        }
    }
}


/// The name and the value of every header parsed from `Name: value` lines carry no
/// white space at either end.
pub proof fn lemma_header_parts_trimmed(lines: Seq<Seq<char>>)
    ensures
        forall|k: int|
            0 <= k < parse_header_lines(lines).len() ==> {
                let h = #[trigger] parse_header_lines(lines)[k];
                trim_ws(h.0) == h.0 && trim_ws(h.1) == h.1
            },
    decreases lines.len(),
{
    if lines.len() > 0 {
        lemma_header_parts_trimmed(lines.drop_last());
        let prev = parse_header_lines(lines.drop_last());
        let t = trim_ws(lines.last());
        if t.len() > 0 {
            match split_once_at(t, ':') {
                Some((k, v)) => {
                    lemma_trim_idempotent(k);
                    lemma_trim_idempotent(v);
                    let all = parse_header_lines(lines);
                    assert(all == prev.push((trim_ws(k), trim_ws(v))));
                    assert forall|i: int| 0 <= i < all.len() implies trim_ws(#[trigger] all[i].0)
                        == all[i].0 && trim_ws(all[i].1) == all[i].1 by {
                        if i < prev.len() {
                            assert(all[i] == prev[i]);
                        }
                    }
                },
                None => {},
            }
        }
    }
}

} // verus!
