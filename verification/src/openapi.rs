//! The parts of an OpenAPI document that tools are made from, and the making of them.

use vstd::prelude::*;
use crate::json::{
    JsonValue, JsonModel, entry_models, item_models, lemma_entry_models, lemma_item_models, put_key,
    member, find_key,
};
use crate::state::{Tool, ToolModel, tool_models_of};
use crate::text::{
    chars_of, starts_with, ends_with, has_prefix, has_suffix, split_on, split_chars, seqs_of,
    unicode_lowercase, underscored, underscore_dashes, to_lowercase, string_of, decimal,
    decimal_of, chars_eq, lemma_decimal_digits, lemma_decimal_injective, is_digit, opt_view, strs_of,
};

verus! {

/// An OpenAPI document: the URLs of its servers and its paths, both in document order.
pub struct ApiSpec {
    pub servers: Vec<String>,
    pub paths: Vec<PathEntry>,
}

/// One path of the document with what stands under it.
pub struct PathEntry {
    pub path: String,
    pub item: PathItemRef,
}

/// A path item, written out or given by reference.
pub enum PathItemRef {
    Reference(String),
    Item(PathItem),
}

/// The operations of a path, by HTTP method.
pub struct PathItem {
    pub get: Option<Operation>,
    pub post: Option<Operation>,
    pub put: Option<Operation>,
    pub delete: Option<Operation>,
    pub patch: Option<Operation>,
}

/// One operation.
pub struct Operation {
    pub operation_id: Option<String>,
    pub summary: Option<String>,
    pub description: Option<String>,
    pub parameters: Vec<ParameterRef>,
    pub request_body: Option<RequestBodyRef>,
}

/// A parameter, written out or given by reference.
pub enum ParameterRef {
    Reference(String),
    Item(Parameter),
}

/// A parameter, by where it goes.
pub enum Parameter {
    Query(ParameterData),
    Header(ParameterData),
    Path(ParameterData),
    Cookie(ParameterData),
}

/// What a parameter is called and whether it must be given.
pub struct ParameterData {
    pub name: String,
    pub required: bool,
}

/// A request body, written out or given by reference.
pub enum RequestBodyRef {
    Reference(String),
    Item(RequestBody),
}

/// The media types a request body may have, in document order, with distinct names.
pub struct RequestBody {
    pub content: Vec<(String, MediaType)>,
}

/// The schema of one media type, as the JSON that it serializes to; absent where the
/// document gives none.
pub struct MediaType {
    pub schema: Option<JsonValue>,
}

/// Where an OpenAPI document is read from.
pub enum SpecSource {
    Remote,
    File,
}

/// How an OpenAPI document is written.
pub enum SpecFormat {
    Yaml,
    Json,
}

/// A document path starting with "http://" or "https://" is fetched; any other is read
/// from a file.
pub open spec fn spec_source_of(path: Seq<char>) -> SpecSource {
    if has_prefix(path, "http://"@) || has_prefix(path, "https://"@) {
        SpecSource::Remote
    } else {
        SpecSource::File
    }
}

/// A document path ending in ".yaml" or ".yml" holds YAML; any other holds JSON.
pub open spec fn spec_format_of(path: Seq<char>) -> SpecFormat {
    if has_suffix(path, ".yaml"@) || has_suffix(path, ".yml"@) {
        SpecFormat::Yaml
    } else {
        SpecFormat::Json
    }
}

/// Where the document at `path` is read from.
pub fn spec_source(path: &str) -> (r: SpecSource)
    ensures
        r == spec_source_of(path@),
{
    let p = chars_of(path);
    if starts_with(&p, &chars_of("http://")) || starts_with(&p, &chars_of("https://")) {
        SpecSource::Remote
    } else {
        SpecSource::File
    }
}

/// How the document at `path` is written.
pub fn spec_format(path: &str) -> (r: SpecFormat)
    ensures
        r == spec_format_of(path@),
{
    let p = chars_of(path);
    if ends_with(&p, &chars_of(".yaml")) || ends_with(&p, &chars_of(".yml")) {
        SpecFormat::Yaml
    } else {
        SpecFormat::Json
    }
}


/// The first piece that is not empty and does not start with '{'.
pub open spec fn first_resource(segs: Seq<Seq<char>>) -> Option<Seq<char>>
    decreases segs.len(),
{
    if segs.len() == 0 {
        None
    } else if segs[0].len() > 0 && segs[0][0] != '{' {
        Some(segs[0])
    } else {
        first_resource(segs.drop_first())
    }
}

/// The resource that a path names: its first '/'-separated piece that is neither empty
/// nor a template parameter, or "api" where there is none.
pub open spec fn resource_of(path: Seq<char>) -> Seq<char> {
    match first_resource(split_on(path, '/')) {
        Some(r) => r,
        None => "api"@,
    }
}

/// The resource that `path` names.
pub fn resource(path: &Vec<char>) -> (r: Vec<char>)
    ensures
        r@ == resource_of(path@),
{
    let mut segs = split_chars(path, '/');
    let ghost all = seqs_of(segs@);
    let n = segs.len();
    let mut i: usize = 0;
    assert(all.skip(0) =~= all);
    while i < n
        invariant
            i <= n == segs@.len(),
            all == seqs_of(segs@),
            all == split_on(path@, '/'),
            first_resource(all) == first_resource(all.skip(i as int)),
        decreases n - i,
    {
        assert(all[i as int] == segs@[i as int]@);
        if segs[i].len() > 0 && segs[i][0] != '{' {
            let r = segs.remove(i);
            return r;
        }
        assert(all.skip(i as int).drop_first() =~= all.skip(i + 1));
        i = i + 1;
    }
    chars_of("api")
}

/// The name an operation is known by before duplicates are told apart:
/// `method_resource_operation`, all lowercase, with '-' turned into '_' in the resource and
/// the operation id ("unknown" where the operation has none).
pub open spec fn base_name(method: Seq<char>, path: Seq<char>, op_id: Option<Seq<char>>) -> Seq<
    char,
> {
    unicode_lowercase(method) + "_"@ + underscored(unicode_lowercase(resource_of(path))) + "_"@
        + underscored(
        unicode_lowercase(
            match op_id {
                Some(s) => s,
                None => "unknown"@,
            },
        ),
    )
}

/// The name of the tool whose base name had already been given to `earlier` tools: the
/// base name itself the first time, then the base name with "_2", "_3", ... appended.
pub open spec fn tool_name(base: Seq<char>, earlier: nat) -> Seq<char> {
    if earlier == 0 {
        base
    } else {
        base + "_"@ + decimal(earlier + 1)
    }
}

/// The description of a tool: the operation's summary, else its description, else
/// `METHOD path`.
pub open spec fn description_of(method: Seq<char>, path: Seq<char>, op: Operation) -> Seq<char> {
    match op.summary {
        Some(s) => s@,
        None => match op.description {
            Some(d) => d@,
            None => method + " "@ + path,
        },
    }
}

fn lowercase_chars(s: &Vec<char>) -> (r: Vec<char>)
    ensures
        r@ == unicode_lowercase(s@),
{
    let st = string_of(s);
    let low = to_lowercase(st.as_str());
    chars_of(low.as_str())
}

/// Which parse of the document's text was just tried.
pub enum ParseStage {
    /// The text as it was read.
    Direct,
    /// The text after its numeric flags were turned into booleans.
    Repaired,
}

/// What follows a parse of the document's text.
pub enum ParseAction {
    /// Use the parsed document.
    Accept,
    /// Repair the numeric flags of the JSON text and parse it again.
    RepairAndRetry,
    /// Give up with the parse error.
    Fail,
}

/// A successful parse is accepted; a failed direct parse of JSON is retried once after the
/// repair; any other failure is final (YAML is not repaired).
pub open spec fn after_parse_of(format: SpecFormat, stage: ParseStage, parsed: bool) -> ParseAction {
    if parsed {
        ParseAction::Accept
    } else if format is Json && stage is Direct {
        ParseAction::RepairAndRetry
    } else {
        ParseAction::Fail
    }
}

/// What to do after a parse of the document's text.
pub fn after_parse(format: &SpecFormat, stage: &ParseStage, parsed: bool) -> (r: ParseAction)
    ensures
        r == after_parse_of(*format, *stage, parsed),
{
    if parsed {
        return ParseAction::Accept;
    }
    match (format, stage) {
        (SpecFormat::Json, ParseStage::Direct) => ParseAction::RepairAndRetry,
        _ => ParseAction::Fail,
    }
}

/// The base name of an operation.
pub fn make_base_name(method: &str, path: &str, op: &Operation) -> (r: Vec<char>)
    ensures
        r@ == base_name(method@, path@, opt_view(op.operation_id)),
{
    let mut r = chars_of(to_lowercase(method).as_str());
    let res = resource(&chars_of(path));
    let mut res_part = underscore_dashes(&lowercase_chars(&res));
    let id: Vec<char> = match &op.operation_id {
        Some(s) => chars_of(s.as_str()),
        None => chars_of("unknown"),
    };
    let mut id_part = underscore_dashes(&lowercase_chars(&id));
    let mut sep1 = chars_of("_");
    let mut sep2 = chars_of("_");
    r.append(&mut sep1);
    r.append(&mut res_part);
    r.append(&mut sep2);
    r.append(&mut id_part);
    r
}

/// How many times `x` occurs in `s`.
pub open spec fn count_in(s: Seq<Seq<char>>, x: Seq<char>) -> nat
    decreases s.len(),
{
    if s.len() == 0 {
        0
    } else {
        count_in(s.drop_last(), x) + if s.last() == x {
            1nat
        } else {
            0nat
        }
    }
}

pub proof fn lemma_count_in_le(s: Seq<Seq<char>>, x: Seq<char>)
    ensures
        count_in(s, x) <= s.len(),
    decreases s.len(),
{
    if s.len() > 0 {
        lemma_count_in_le(s.drop_last(), x);
    }
}

/// How many times `x` occurs in `s`.
pub fn count_of(s: &Vec<Vec<char>>, x: &Vec<char>) -> (r: usize)
    ensures
        r == count_in(seqs_of(s@), x@),
{
    let n = s.len();
    let mut c: usize = 0;
    for i in 0..n
        invariant
            n == s@.len(),
            c == count_in(seqs_of(s@).take(i as int), x@),
            c <= i,
    {
        assert(seqs_of(s@).take(i + 1).drop_last() =~= seqs_of(s@).take(i as int));
        if chars_eq(&s[i], x) {
            c = c + 1;
        }
    }
    assert(seqs_of(s@).take(n as int) =~= seqs_of(s@));
    c
}

/// The name for a tool with base name `base` that `earlier` tools had before.
pub fn name_for(base: &Vec<char>, earlier: usize) -> (r: Vec<char>)
    requires
        earlier < usize::MAX,
    ensures
        r@ == tool_name(base@, earlier as nat),
{
    let mut r: Vec<char> = Vec::new();
    let mut b = base.clone();
    assert(b@ =~= base@);
    r.append(&mut b);
    if earlier == 0 {
        r
    } else {
        let mut sep = chars_of("_");
        let mut num = decimal_of(earlier + 1);
        r.append(&mut sep);
        r.append(&mut num);
        r
    }
}

/// The description of a tool for an operation.
pub fn describe(method: &str, path: &str, op: &Operation) -> (r: String)
    ensures
        r@ == description_of(method@, path@, *op),
{
    match &op.summary {
        Some(s) => s.clone(),
        None => match &op.description {
            Some(d) => d.clone(),
            None => {
                let mut r = method.to_owned();
                r.append(" ");
                r.append(path);
                r
            },
        },
    }
}


/// Sets `k` to `v` in an object's entries (see `put_key`).
pub fn object_insert(es: &mut Vec<(String, JsonValue)>, k: String, v: JsonValue)
    ensures
        entry_models(final(es)@) == put_key(entry_models(old(es)@), k@, v.model()),
{
    proof {
        lemma_entry_models(es@);
    }
    match find_key(es, &k) {
        Some(i) => {
            let ghost before = es@;
            let ghost km = k@;
            let ghost vm = v.model();
            es.set(i, (k, v));
            proof {
                lemma_entry_models(es@);
                assert(entry_models(es@) =~= entry_models(before).update(i as int, (km, vm)));
            }
        },
        None => {
            let ghost before = es@;
            es.push((k, v));
            assert(es@.drop_last() =~= before);
        },
    }
}

/// Whether `s` is among `v`.
pub fn contains_str(v: &Vec<String>, s: &String) -> (r: bool)
    ensures
        r == strs_of(v@).contains(s@),
{
    let n = v.len();
    for i in 0..n
        invariant
            n == v@.len(),
            forall|j: int| 0 <= j < i ==> v@[j]@ != s@,
    {
        if v[i] == *s {
            assert(strs_of(v@)[i as int] == s@);
            return true;
        }
    }
    assert(!strs_of(v@).contains(s@)) by {
        if strs_of(v@).contains(s@) {
            let j = choose|j: int| 0 <= j < strs_of(v@).len() && strs_of(v@)[j] == s@;
            assert(v@[j]@ == s@);
        }
    }
    false
}

/// What a parameter written out in the query, the path or a header contributes; a cookie
/// parameter or a reference contributes nothing.
pub open spec fn parameter_data(p: ParameterRef) -> Option<ParameterData> {
    match p {
        ParameterRef::Item(Parameter::Query(d)) => Some(d),
        ParameterRef::Item(Parameter::Path(d)) => Some(d),
        ParameterRef::Item(Parameter::Header(d)) => Some(d),
        _ => None,
    }
}

/// The schema a parameter gets: a string described as "Parameter <name>".
pub open spec fn param_schema(name: Seq<char>) -> JsonModel {
    JsonModel::Object(
        seq![
            ("type"@, JsonModel::String("string"@)),
            ("description"@, JsonModel::String("Parameter "@ + name)),
        ],
    )
}

/// The properties and the required names after the parameters, in order: each parameter
/// sets its property, and a required one appends its name (again, if it was there).
pub open spec fn params_parts(params: Seq<ParameterRef>) -> (
    Seq<(Seq<char>, JsonModel)>,
    Seq<Seq<char>>,
)
    decreases params.len(),
{
    if params.len() == 0 {
        (Seq::empty(), Seq::empty())
    } else {
        let (props, req) = params_parts(params.drop_last());
        match parameter_data(params.last()) {
            Some(d) => (
                put_key(props, d.name@, param_schema(d.name@)),
                if d.required {
                    req.push(d.name@)
                } else {
                    req
                },
            ),
            None => (props, req),
        }
    }
}

fn param_schema_value(name: &String) -> (r: JsonValue)
    ensures
        r.model() == param_schema(name@),
{
    let mut desc = "Parameter ".to_owned();
    desc.append(name.as_str());
    let mut es: Vec<(String, JsonValue)> = Vec::new();
    es.push(("type".to_owned(), JsonValue::String("string".to_owned())));
    es.push(("description".to_owned(), JsonValue::String(desc)));
    let r = JsonValue::Object(es);
    proof {
        lemma_entry_models(es@);
        assert(entry_models(es@) =~= seq![
            ("type"@, JsonModel::String("string"@)),
            ("description"@, JsonModel::String("Parameter "@ + name@)),
        ]);
    }
    r
}

/// The properties and required names that the parameters give.
pub fn parameter_parts(params: &Vec<ParameterRef>) -> (r: (Vec<(String, JsonValue)>, Vec<String>))
    ensures
        (entry_models(r.0@), strs_of(r.1@)) == params_parts(params@),
{
    let mut props: Vec<(String, JsonValue)> = Vec::new();
    let mut req: Vec<String> = Vec::new();
    let n = params.len();
    for i in 0..n
        invariant
            n == params@.len(),
            (entry_models(props@), strs_of(req@)) == params_parts(params@.take(i as int)),
    {
        assert(params@.take(i + 1).drop_last() =~= params@.take(i as int));
        let data: Option<&ParameterData> = match &params[i] {
            ParameterRef::Item(Parameter::Query(d)) => Some(d),
            ParameterRef::Item(Parameter::Path(d)) => Some(d),
            ParameterRef::Item(Parameter::Header(d)) => Some(d),
            _ => None,
        };
        match data {
            Some(d) => {
                if d.required {
                    let ghost before = req@;
                    req.push(d.name.clone());
                    assert(strs_of(req@) =~= strs_of(before).push(d.name@));
                }
                let schema = param_schema_value(&d.name);
                object_insert(&mut props, d.name.clone(), schema);
            },
            None => {},
        }
    }
    assert(params@.take(n as int) =~= params@);
    (props, req)
}


/// The first media type named `k`, as `IndexMap::get` finds it.
pub open spec fn lookup_media(s: Seq<(String, MediaType)>, k: Seq<char>) -> Option<MediaType>
    decreases s.len(),
{
    if s.len() == 0 {
        None
    } else if s[0].0@ == k {
        Some(s[0].1)
    } else {
        lookup_media(s.drop_first(), k)
    }
}

/// The JSON of the schema of an operation's "application/json" request body, where the
/// body is written out and has one.
pub open spec fn body_schema(op: Operation) -> Option<JsonModel> {
    match op.request_body {
        Some(RequestBodyRef::Item(b)) => match lookup_media(b.content@, "application/json"@) {
            Some(mt) => match mt.schema {
                Some(js) => Some(js.model()),
                None => None,
            },
            None => None,
        },
        _ => None,
    }
}

/// The properties after setting each of `extra`, in order.
pub open spec fn merge_props(
    props: Seq<(Seq<char>, JsonModel)>,
    extra: Seq<(Seq<char>, JsonModel)>,
) -> Seq<(Seq<char>, JsonModel)>
    decreases extra.len(),
{
    if extra.len() == 0 {
        props
    } else {
        put_key(merge_props(props, extra.drop_last()), extra.last().0, extra.last().1)
    }
}

/// The required names after appending each string of `items` that is not there yet.
pub open spec fn merge_required(req: Seq<Seq<char>>, items: Seq<JsonModel>) -> Seq<Seq<char>>
    decreases items.len(),
{
    if items.len() == 0 {
        req
    } else {
        let r = merge_required(req, items.drop_last());
        match items.last() {
            JsonModel::String(s) => if r.contains(s) {
                r
            } else {
                r.push(s)
            },
            _ => r,
        }
    }
}

/// The properties and required names after the request body: the body schema's
/// "properties" object sets each of its properties, and the strings of its "required"
/// array are added to the required names where they are missing.
pub open spec fn with_body(
    parts: (Seq<(Seq<char>, JsonModel)>, Seq<Seq<char>>),
    body: Option<JsonModel>,
) -> (Seq<(Seq<char>, JsonModel)>, Seq<Seq<char>>) {
    match body {
        None => parts,
        Some(js) => {
            let props = match member(js, "properties"@) {
                Some(JsonModel::Object(ps)) => merge_props(parts.0, ps),
                _ => parts.0,
            };
            let req = match member(js, "required"@) {
                Some(JsonModel::Array(items)) => merge_required(parts.1, items),
                _ => parts.1,
            };
            (props, req)
        },
    }
}

/// The argument schema of a tool: an object with the given properties, and with the
/// required names where there are properties and required names.
pub open spec fn schema_of(props: Seq<(Seq<char>, JsonModel)>, req: Seq<Seq<char>>) -> JsonModel {
    if props.len() == 0 {
        JsonModel::Object(
            seq![
                ("type"@, JsonModel::String("object"@)),
                ("properties"@, JsonModel::Object(Seq::empty())),
            ],
        )
    } else if req.len() == 0 {
        JsonModel::Object(
            seq![("type"@, JsonModel::String("object"@)), ("properties"@, JsonModel::Object(props))],
        )
    } else {
        JsonModel::Object(
            seq![
                ("type"@, JsonModel::String("object"@)),
                ("properties"@, JsonModel::Object(props)),
                ("required"@, JsonModel::Array(req.map_values(|s: Seq<char>| JsonModel::String(s)))),
            ],
        )
    }
}

/// The properties and required names of an operation's tool.
pub open spec fn schema_parts(op: Operation) -> (Seq<(Seq<char>, JsonModel)>, Seq<Seq<char>>) {
    with_body(params_parts(op.parameters@), body_schema(op))
}

/// The tool for an operation whose base name `earlier` tools had before.
pub open spec fn tool_model(path: Seq<char>, method: Seq<char>, op: Operation, earlier: nat) -> ToolModel {
    ToolModel {
        name: tool_name(base_name(method, path, opt_view(op.operation_id)), earlier),
        description: description_of(method, path, op),
        path: path,
        method: method,
        schema: schema_of(schema_parts(op).0, schema_parts(op).1),
    }
}

/// The "application/json" media type of a request body.
pub fn find_media<'a>(content: &'a Vec<(String, MediaType)>, k: &String) -> (r: Option<&'a MediaType>)
    ensures
        match r {
            Some(x) => lookup_media(content@, k@) == Some(*x),
            None => lookup_media(content@, k@) is None,
        },
{
    let n = content.len();
    let mut i: usize = 0;
    assert(content@.skip(0) =~= content@);
    while i < n
        invariant
            i <= n == content@.len(),
            lookup_media(content@, k@) == lookup_media(content@.skip(i as int), k@),
        decreases n - i,
    {
        if content[i].0 == *k {
            return Some(&content[i].1);
        }
        assert(content@.skip(i as int).drop_first() =~= content@.skip(i + 1));
        i = i + 1;
    }
    None
}

/// The value under key `k` of a JSON value.
pub fn member_of<'a>(v: &'a JsonValue, k: &String) -> (r: Option<&'a JsonValue>)
    ensures
        match r {
            Some(x) => member(v.model(), k@) == Some(x.model()),
            None => member(v.model(), k@) is None,
        },
{
    match v {
        JsonValue::Object(es) => {
            proof {
                lemma_entry_models(es@);
            }
            match find_key(es, k) {
                Some(i) => Some(&es[i].1),
                None => None,
            }
        },
        _ => None,
    }
}

/// Adds what the request body's schema gives.
pub fn add_body_parts(op: &Operation, props: &mut Vec<(String, JsonValue)>, req: &mut Vec<String>)
    ensures
        (entry_models(final(props)@), strs_of(final(req)@)) == with_body(
            (entry_models(old(props)@), strs_of(old(req)@)),
            body_schema(*op),
        ),
{
    let js: &JsonValue = match &op.request_body {
        Some(RequestBodyRef::Item(b)) => match find_media(&b.content, &"application/json".to_owned()) {
            Some(mt) => match &mt.schema {
                Some(js) => js,
                None => return ,
            },
            None => return ,
        },
        _ => return ,
    };
    assert(body_schema(*op) == Some(js.model()));
    let ghost props0 = entry_models(props@);
    let ghost req0 = strs_of(req@);
    match member_of(js, &"properties".to_owned()) {
        Some(JsonValue::Object(ps)) => {
            proof {
                lemma_entry_models(ps@);
            }
            let ghost pm = entry_models(ps@);
            let n = ps.len();
            for i in 0..n
                invariant
                    n == ps@.len() == pm.len(),
                    pm == entry_models(ps@),
                    forall|j: int| 0 <= j < n ==> #[trigger] pm[j] == (ps@[j].0@, ps@[j].1.model()),
                    entry_models(props@) == merge_props(props0, pm.take(i as int)),
            {
                assert(pm.take(i + 1).drop_last() =~= pm.take(i as int));
                let v = ps[i].1.deep_copy();
                object_insert(props, ps[i].0.clone(), v);
            }
            assert(pm.take(n as int) =~= pm);
        },
        _ => {},
    }
    match member_of(js, &"required".to_owned()) {
        Some(JsonValue::Array(items)) => {
            proof {
                lemma_item_models(items@);
            }
            let ghost im = item_models(items@);
            let n = items.len();
            for i in 0..n
                invariant
                    n == items@.len() == im.len(),
                    im == item_models(items@),
                    forall|j: int| 0 <= j < n ==> #[trigger] im[j] == items@[j].model(),
                    strs_of(req@) == merge_required(req0, im.take(i as int)),
            {
                assert(im.take(i + 1).drop_last() =~= im.take(i as int));
                match &items[i] {
                    JsonValue::String(s) => {
                        if !contains_str(req, s) {
                            let ghost before = req@;
                            req.push(s.clone());
                            assert(strs_of(req@) =~= strs_of(before).push(s@));
                        }
                    },
                    _ => {},
                }
            }
            assert(im.take(n as int) =~= im);
        },
        _ => {},
    }
}


/// The argument schema built from the properties and required names.
pub fn finish_schema(props: Vec<(String, JsonValue)>, req: Vec<String>) -> (r: JsonValue)
    ensures
        r.model() == schema_of(entry_models(props@), strs_of(req@)),
{
    proof {
        lemma_entry_models(props@);
    }
    let mut es: Vec<(String, JsonValue)> = Vec::new();
    es.push(("type".to_owned(), JsonValue::String("object".to_owned())));
    if props.len() == 0 {
        es.push(("properties".to_owned(), JsonValue::Object(Vec::new())));
        proof {
            lemma_entry_models(es@);
            let e: Seq<(String, JsonValue)> = Seq::empty();
            assert(entry_models(e) =~= Seq::empty());
            assert(entry_models(es@) =~= seq![
                ("type"@, JsonModel::String("object"@)),
                ("properties"@, JsonModel::Object(Seq::empty())),
            ]);
        }
        return JsonValue::Object(es);
    }
    let ghost pm = entry_models(props@);
    let ghost rq = strs_of(req@);
    let has_req = req.len() > 0;
    es.push(("properties".to_owned(), JsonValue::Object(props)));
    if has_req {
        let mut arr: Vec<JsonValue> = Vec::new();
        let n = req.len();
        for i in 0..n
            invariant
                n == req@.len() == rq.len(),
                rq == strs_of(req@),
                item_models(arr@) == rq.take(i as int).map_values(|s: Seq<char>| JsonModel::String(s)),
        {
            let ghost before = arr@;
            let item = JsonValue::String(req[i].clone());
            assert(rq[i as int] == req@[i as int]@);
            assert(item.model() == JsonModel::String(rq[i as int]));
            arr.push(item);
            assert(arr@.drop_last() =~= before);
            assert(item_models(arr@) == item_models(before).push(JsonModel::String(rq[i as int])));
            assert(rq.take(i + 1).map_values(|s: Seq<char>| JsonModel::String(s)) =~= rq.take(
                i as int,
            ).map_values(|s: Seq<char>| JsonModel::String(s)).push(JsonModel::String(req@[i as int]@)));
        }
        assert(rq.take(n as int) =~= rq);
        es.push(("required".to_owned(), JsonValue::Array(arr)));
        proof {
            lemma_entry_models(es@);
            assert(entry_models(es@) =~= seq![
                ("type"@, JsonModel::String("object"@)),
                ("properties"@, JsonModel::Object(pm)),
                ("required"@, JsonModel::Array(rq.map_values(|s: Seq<char>| JsonModel::String(s)))),
            ]);
        }
    } else {
        proof {
            lemma_entry_models(es@);
            assert(entry_models(es@) =~= seq![
                ("type"@, JsonModel::String("object"@)),
                ("properties"@, JsonModel::Object(pm)),
            ]);
        }
    }
    JsonValue::Object(es)
}

/// Makes the tool for the operation `op` of `path` under `method`, given the base names
/// of the tools made before it, and records its base name among them.
pub fn make_tool(path: &str, method: &str, op: &Operation, seen: &mut Vec<Vec<char>>) -> (r: Tool)
    ensures
        seqs_of(final(seen)@) == seqs_of(old(seen)@).push(
            base_name(method@, path@, opt_view(op.operation_id)),
        ),
        r.model() == tool_model(
            path@,
            method@,
            *op,
            count_in(seqs_of(old(seen)@), base_name(method@, path@, opt_view(op.operation_id))),
        ),
{
    let base = make_base_name(method, path, op);
    let earlier = count_of(seen, &base);
    let ghost before = seen@;
    seen.push(base.clone());
    let total = seen.len();
    assert(seqs_of(seen@) =~= seqs_of(before).push(base@));
    proof {
        lemma_count_in_le(seqs_of(before), base@);
        assert(earlier < total);
    }
    let name_chars = name_for(&base, earlier);
    let name = string_of(&name_chars);
    let description = describe(method, path, op);
    let (mut props, mut req) = parameter_parts(&op.parameters);
    add_body_parts(op, &mut props, &mut req);
    let schema = finish_schema(props, req);
    Tool { name, description, path: path.to_owned(), method: method.to_owned(), schema }
}


/// An operation together with its path and HTTP method.
pub type OpSite = (Seq<char>, Seq<char>, Operation);

pub open spec fn op_at(path: Seq<char>, method: Seq<char>, o: Option<Operation>) -> Seq<OpSite> {
    match o {
        Some(op) => seq![(path, method, op)],
        None => Seq::empty(),
    }
}

/// The operations of one path, in the order GET, POST, PUT, DELETE, PATCH; none where the
/// path item is a reference.
pub open spec fn path_ops(e: PathEntry) -> Seq<OpSite> {
    match e.item {
        PathItemRef::Item(pi) => op_at(e.path@, "GET"@, pi.get) + op_at(e.path@, "POST"@, pi.post)
            + op_at(e.path@, "PUT"@, pi.put) + op_at(e.path@, "DELETE"@, pi.delete) + op_at(
            e.path@,
            "PATCH"@,
            pi.patch,
        ),
        PathItemRef::Reference(_) => Seq::empty(),
    }
}

/// The operations of the document, path by path in document order.
pub open spec fn operations(paths: Seq<PathEntry>) -> Seq<OpSite>
    decreases paths.len(),
{
    if paths.len() == 0 {
        Seq::empty()
    } else {
        operations(paths.drop_last()) + path_ops(paths.last())
    }
}

pub open spec fn base_of(o: OpSite) -> Seq<char> {
    base_name(o.1, o.0, opt_view(o.2.operation_id))
}

pub open spec fn bases_of(ops: Seq<OpSite>) -> Seq<Seq<char>> {
    ops.map_values(|o: OpSite| base_of(o))
}

/// The tools for a sequence of operations: one per operation, in order, each named after
/// how many earlier operations share its base name.
pub open spec fn tools_for(ops: Seq<OpSite>) -> Seq<ToolModel>
    decreases ops.len(),
{
    if ops.len() == 0 {
        Seq::empty()
    } else {
        let o = ops.last();
        tools_for(ops.drop_last()).push(
            tool_model(o.0, o.1, o.2, count_in(bases_of(ops.drop_last()), base_of(o))),
        )
    }
}

fn add_op(
    path: &str,
    method: &str,
    op: &Option<Operation>,
    tools: &mut Vec<Tool>,
    seen: &mut Vec<Vec<char>>,
    Ghost(done): Ghost<Seq<OpSite>>,
)
    requires
        tool_models_of(old(tools)@) == tools_for(done),
        seqs_of(old(seen)@) == bases_of(done),
    ensures
        tool_models_of(final(tools)@) == tools_for(done + op_at(path@, method@, *op)),
        seqs_of(final(seen)@) == bases_of(done + op_at(path@, method@, *op)),
{
    match op {
        Some(o) => {
            let ghost d2 = done + op_at(path@, method@, *op);
            assert(d2.drop_last() =~= done);
            assert(d2.last() == (path@, method@, *o));
            let ghost before = tools@;
            let t = make_tool(path, method, o, seen);
            tools.push(t);
            assert(tool_models_of(tools@) =~= tool_models_of(before).push(t.model()));
            assert(bases_of(d2) =~= bases_of(done).push(base_of(d2.last())));
        },
        None => {
            assert(done + op_at(path@, method@, *op) =~= done);
        },
    }
}

fn add_path_ops(
    entry: &PathEntry,
    tools: &mut Vec<Tool>,
    seen: &mut Vec<Vec<char>>,
    Ghost(done): Ghost<Seq<OpSite>>,
)
    requires
        tool_models_of(old(tools)@) == tools_for(done),
        seqs_of(old(seen)@) == bases_of(done),
    ensures
        tool_models_of(final(tools)@) == tools_for(done + path_ops(*entry)),
        seqs_of(final(seen)@) == bases_of(done + path_ops(*entry)),
{
    match &entry.item {
        PathItemRef::Item(pi) => {
            let p = entry.path.as_str();
            add_op(p, "GET", &pi.get, tools, seen, Ghost(done));
            let ghost d1 = done + op_at(p@, "GET"@, pi.get);
            add_op(p, "POST", &pi.post, tools, seen, Ghost(d1));
            let ghost d2 = d1 + op_at(p@, "POST"@, pi.post);
            add_op(p, "PUT", &pi.put, tools, seen, Ghost(d2));
            let ghost d3 = d2 + op_at(p@, "PUT"@, pi.put);
            add_op(p, "DELETE", &pi.delete, tools, seen, Ghost(d3));
            let ghost d4 = d3 + op_at(p@, "DELETE"@, pi.delete);
            add_op(p, "PATCH", &pi.patch, tools, seen, Ghost(d4));
            let ghost d5 = d4 + op_at(p@, "PATCH"@, pi.patch);
            assert(d5 =~= done + path_ops(*entry));
        },
        PathItemRef::Reference(_) => {
            assert(done + path_ops(*entry) =~= done);
        },
    }
}

/// The tools for every operation of the document, in document order.
pub fn extract_tools(spec: &ApiSpec) -> (r: Vec<Tool>)
    ensures
        tool_models_of(r@) == tools_for(operations(spec.paths@)),
{
    let mut tools: Vec<Tool> = Vec::new();
    let mut seen: Vec<Vec<char>> = Vec::new();
    let n = spec.paths.len();
    assert(tool_models_of(tools@) =~= Seq::empty());
    assert(seqs_of(seen@) =~= Seq::empty());
    for i in 0..n
        invariant
            n == spec.paths@.len(),
            tool_models_of(tools@) == tools_for(operations(spec.paths@.take(i as int))),
            seqs_of(seen@) == bases_of(operations(spec.paths@.take(i as int))),
    {
        let ghost done = operations(spec.paths@.take(i as int));
        assert(spec.paths@.take(i + 1).drop_last() =~= spec.paths@.take(i as int));
        assert(operations(spec.paths@.take(i + 1)) == done + path_ops(spec.paths@[i as int]));
        add_path_ops(&spec.paths[i], &mut tools, &mut seen, Ghost(done));
    }
    assert(spec.paths@.take(n as int) =~= spec.paths@);
    tools
}


pub proof fn lemma_count_in_step(s: Seq<Seq<char>>, x: Seq<char>, k: int)
    requires
        0 <= k < s.len(),
    ensures
        count_in(s.take(k + 1), x) == count_in(s.take(k), x) + if s[k] == x {
            1nat
        } else {
            0nat
        },
{
    assert(s.take(k + 1).drop_last() =~= s.take(k));
}

pub proof fn lemma_count_in_mono(s: Seq<Seq<char>>, x: Seq<char>, i: int, j: int)
    requires
        0 <= i <= j <= s.len(),
    ensures
        count_in(s.take(i), x) <= count_in(s.take(j), x),
    decreases j - i,
{
    if i < j {
        lemma_count_in_mono(s, x, i, j - 1);
        lemma_count_in_step(s, x, j - 1);
    }
}

/// One tool per operation, in order: the i-th tool has the i-th operation's path and
/// method, and is named after the base names of the operations before it.
pub proof fn lemma_tools_for(ops: Seq<OpSite>)
    ensures
        tools_for(ops).len() == ops.len(),
        forall|i: int|
            0 <= i < ops.len() ==> #[trigger] tools_for(ops)[i] == tool_model(
                ops[i].0,
                ops[i].1,
                ops[i].2,
                count_in(bases_of(ops).take(i), base_of(ops[i])),
            ),
    decreases ops.len(),
{
    if ops.len() > 0 {
        let d = ops.drop_last();
        lemma_tools_for(d);
        assert(bases_of(d) =~= bases_of(ops).take(ops.len() - 1));
        assert forall|i: int| 0 <= i < d.len() implies bases_of(d).take(i) =~= bases_of(ops).take(
            i,
        ) by {}
    }
}

/// The first tool with a given base name is named by the base name alone; every later one
/// has a suffix.
pub proof fn lemma_first_keeps_base_name(ops: Seq<OpSite>, i: int)
    requires
        0 <= i < ops.len(),
    ensures
        (tools_for(ops)[i].name == base_of(ops[i])) <==> (forall|j: int|
            0 <= j < i ==> base_of(ops[j]) != base_of(ops[i])),
{
    lemma_tools_for(ops);
    let b = base_of(ops[i]);
    let bs = bases_of(ops);
    let c = count_in(bs.take(i), b);
    if exists|j: int| 0 <= j < i && base_of(ops[j]) == b {
        let j = choose|j: int| 0 <= j < i && base_of(ops[j]) == b;
        lemma_count_in_step(bs, b, j);
        lemma_count_in_mono(bs, b, j + 1, i);
        assert(c >= 1);
        assert(tools_for(ops)[i].name.len() > b.len());
    } else {
        assert forall|k: int| 0 <= k <= i implies count_in(bs.take(k), b) == 0 by {
            lemma_count_in_zero(bs, b, k, i);
        }
    }
}

proof fn lemma_count_in_zero(s: Seq<Seq<char>>, x: Seq<char>, k: int, i: int)
    requires
        0 <= k <= i <= s.len(),
        forall|j: int| 0 <= j < i ==> s[j] != x,
    ensures
        count_in(s.take(k), x) == 0,
    decreases k,
{
    if k > 0 {
        lemma_count_in_zero(s, x, k - 1, i);
        lemma_count_in_step(s, x, k - 1);
    }
}


proof fn lemma_suffix_differs(a: Seq<char>, b: Seq<char>, m: nat, n: nat)
    requires
        a != b || m != n,
    ensures
        a + "_"@ + decimal(m) != b + "_"@ + decimal(n),
{
    reveal_strlit("_");
    assert("_"@ =~= seq!['_']);
    lemma_decimal_digits(m);
    lemma_decimal_digits(n);
    let am = a + "_"@;
    let bn = b + "_"@;
    let s = am + decimal(m);
    let t = bn + decimal(n);
    assert(am.len() == a.len() + 1);
    assert(bn.len() == b.len() + 1);
    if s == t {
        assert(s.len() == t.len());
        if a.len() == b.len() {
            assert(a =~= s.take(a.len() as int));
            assert(b =~= t.take(b.len() as int));
            assert(decimal(m) =~= s.skip(a.len() as int + 1));
            assert(decimal(n) =~= t.skip(b.len() as int + 1));
            lemma_decimal_injective(m, n);
        } else if a.len() < b.len() {
            let p = b.len() as int;
            assert(t[p] == bn[p]);
            assert(t[p] == '_');
            assert(s[p] == decimal(m)[p - am.len()]);
            assert(is_digit(decimal(m)[p - am.len()]));
        } else {
            let p = a.len() as int;
            assert(s[p] == am[p]);
            assert(s[p] == '_');
            assert(t[p] == decimal(n)[p - bn.len()]);
            assert(is_digit(decimal(n)[p - bn.len()]));
        }
    }
}

/// Tool names are pairwise distinct, provided that no base name is another base name
/// followed by '_' and a number of at least 2 (the suffixes that tell duplicates apart).
pub proof fn lemma_tool_names_distinct(ops: Seq<OpSite>)
    requires
        forall|i: int, j: int, n: nat|
            0 <= i < ops.len() && 0 <= j < ops.len() && n >= 2 ==> base_of(ops[i]) != base_of(
                ops[j],
            ) + "_"@ + decimal(n),
    ensures
        forall|i: int, j: int|
            0 <= i < j < ops.len() ==> tools_for(ops)[i].name != tools_for(ops)[j].name,
{
    lemma_tools_for(ops);
    let bs = bases_of(ops);
    assert forall|i: int, j: int| 0 <= i < j < ops.len() implies tools_for(ops)[i].name
        != tools_for(ops)[j].name by {
        let bi = base_of(ops[i]);
        let bj = base_of(ops[j]);
        let ci = count_in(bs.take(i), bi);
        let cj = count_in(bs.take(j), bj);
        lemma_decimal_digits(ci + 1);
        lemma_decimal_digits(cj + 1);
        if bi == bj {
            lemma_count_in_step(bs, bi, i);
            lemma_count_in_mono(bs, bi, i + 1, j);
            if ci == 0 {
                assert(tools_for(ops)[j].name.len() > bj.len());
            } else {
                lemma_suffix_differs(bi, bj, ci + 1, cj + 1);
            }
        } else {
            if ci == 0 && cj == 0 {
            } else if ci == 0 {
                assert(bi != bj + "_"@ + decimal(cj + 1));
            } else if cj == 0 {
                assert(bj != bi + "_"@ + decimal(ci + 1));
            } else {
                lemma_suffix_differs(bi, bj, ci + 1, cj + 1);
            }
        }
    }
}

} // verus!
