//! What the operations of the library are for, stated over all inputs and proved.

use vstd::prelude::*;
use crate::json::{JsonModel, has_key, fixed, fixed_items, fixed_entries, fixed_field, is_parameter_object, flag_key, lemma_fixed_items, lemma_fixed_entries};
use crate::openapi::{
    ApiSpec, Operation, ParameterRef, Parameter, SpecFormat, SpecSource, ParseStage, ParseAction,
    first_resource, resource_of, spec_format_of, spec_source_of, after_parse_of, body_schema,
    schema_parts, params_parts, tool_model, OpSite, PathEntry, PathItem, PathItemRef, base_of, bases_of,
    RequestBody, RequestBodyRef, MediaType, lookup_media, tools_for, lemma_tools_for, count_in, base_name, description_of, path_ops, op_at, operations, merge_required, with_body, parameter_data, param_schema, merge_props, schema_of,
};
use crate::json::{member, get_key, put_key, is_first_key};
use crate::text::{
    split_on, has_prefix, has_suffix, lemma_split_on_len, trim_ws, trim_start_ws, trim_end_ws,
    trim_end_char, unicode_white_space, split_once_at, is_first_index, underscored, decimal,
    digit_char, lemma_decimal_digits, unicode_lowercase,
};
use crate::tools::{HttpMethod, ArgsModel, args_of, url_of, method_of, headers_of, parse_header_lines, plan_of, PlanModel, is_success};
use crate::config::Config;
use crate::state::Tool;

verus! {

proof fn lemma_first_resource_at(segs: Seq<Seq<char>>, i: int)
    requires
        0 <= i < segs.len(),
        segs[i].len() > 0 && segs[i][0] != '{',
        forall|j: int| 0 <= j < i ==> segs[j].len() == 0 || segs[j][0] == '{',
    ensures
        first_resource(segs) == Some(segs[i]),
    decreases i,
{
    if i > 0 {
        lemma_first_resource_at(segs.drop_first(), i - 1);
    }
}

proof fn lemma_first_resource_none(segs: Seq<Seq<char>>)
    requires
        forall|j: int| 0 <= j < segs.len() ==> segs[j].len() == 0 || segs[j][0] == '{',
    ensures
        first_resource(segs) is None,
    decreases segs.len(),
{
    if segs.len() > 0 {
        lemma_first_resource_none(segs.drop_first());
    }
}

/// The resource of a path is its first '/'-separated piece that is neither empty nor starts
/// with '{', wherever that piece stands: empty pieces and template pieces before it are
/// skipped.
pub proof fn law_resource_is_first_literal_piece(path: Seq<char>, i: int)
    requires
        0 <= i < split_on(path, '/').len(),
        split_on(path, '/')[i].len() > 0,
        split_on(path, '/')[i][0] != '{',
        forall|j: int|
            0 <= j < i ==> split_on(path, '/')[j].len() == 0 || split_on(path, '/')[j][0] == '{',
    ensures
        resource_of(path) == split_on(path, '/')[i],
{
    lemma_first_resource_at(split_on(path, '/'), i);
}

/// A path whose pieces are all empty or templates names the resource "api".
pub proof fn law_resource_falls_back_to_api(path: Seq<char>)
    requires
        forall|j: int|
            0 <= j < split_on(path, '/').len() ==> split_on(path, '/')[j].len() == 0 || split_on(
                path,
                '/',
            )[j][0] == '{',
    ensures
        resource_of(path) == "api"@,
{
    lemma_first_resource_none(split_on(path, '/'));
}

/// POST, PUT and PATCH send every argument but `null` as the body, unchanged; GET and DELETE
/// send a non-empty argument object as the query string and nothing otherwise; only GET and
/// DELETE ever produce a query string.
pub proof fn law_args_placement(method: HttpMethod, args: JsonModel)
    ensures
        (method == HttpMethod::Post || method == HttpMethod::Put || method == HttpMethod::Patch)
            ==> (if args is Null {
            args_of(method, args) is Omitted
        } else {
            args_of(method, args) == ArgsModel::Body(args)
        }),
        (method == HttpMethod::Get || method == HttpMethod::Delete) ==> (match args {
            JsonModel::Object(es) => if es.len() > 0 {
                args_of(method, args) == ArgsModel::Query(es)
            } else {
                args_of(method, args) is Omitted
            },
            _ => args_of(method, args) is Omitted,
        }),
        args_of(method, args) is Query ==> (method == HttpMethod::Get || method
            == HttpMethod::Delete),
{
}

/// The format of a document depends on its path's ending alone, for URLs and files alike:
/// ".yaml" or ".yml" is YAML, anything else JSON.
pub proof fn law_format_by_suffix(path: Seq<char>)
    ensures
        spec_format_of(path) is Yaml <==> (has_suffix(path, ".yaml"@) || has_suffix(path, ".yml"@)),
        spec_format_of(path) is Json <==> !(has_suffix(path, ".yaml"@) || has_suffix(
            path,
            ".yml"@,
        )),
{
}

/// A document is fetched exactly when its path starts with "http://" or "https://".
pub proof fn law_source_by_scheme(path: Seq<char>)
    ensures
        spec_source_of(path) is Remote <==> (has_prefix(path, "http://"@) || has_prefix(
            path,
            "https://"@,
        )),
{
}

/// A successful parse is always accepted; only a failed first parse of JSON is repaired and
/// retried; every other failure is final.
pub proof fn law_parse_decisions(format: SpecFormat, stage: ParseStage, parsed: bool)
    ensures
        parsed ==> after_parse_of(format, stage, parsed) is Accept,
        after_parse_of(format, stage, parsed) is RepairAndRetry <==> (!parsed && format is Json
            && stage is Direct),
        after_parse_of(format, stage, parsed) is Fail <==> (!parsed && !(format is Json
            && stage is Direct)),
{
}

/// The keys whose numeric value the repair turns into a boolean: in an object with both an
/// "in" and a "name" key, "required" and "deprecated"; in any other object "deprecated",
/// "nullable", "readOnly", "writeOnly", "uniqueItems", "exclusiveMinimum",
/// "exclusiveMaximum" and "allowEmptyValue".
pub open spec fn repaired_key(es: Seq<(Seq<char>, JsonModel)>, k: Seq<char>) -> bool {
    if (exists|i: int| 0 <= i < es.len() && es[i].0 == "in"@) && (exists|i: int|
        0 <= i < es.len() && es[i].0 == "name"@) {
        k == "required"@ || k == "deprecated"@
    } else {
        k == "deprecated"@ || k == "nullable"@ || k == "readOnly"@ || k == "writeOnly"@ || k
            == "uniqueItems"@ || k == "exclusiveMinimum"@ || k == "exclusiveMaximum"@ || k
            == "allowEmptyValue"@
    }
}

/// The repair of an object keeps its keys in order; a number under a flag key of the object
/// becomes `false` for zero and `true` otherwise, and every other value, in parameter
/// objects and others alike, is repaired in turn at every depth.
pub proof fn law_fix_object(es: Seq<(Seq<char>, JsonModel)>)
    ensures
        fixed(JsonModel::Object(es)) matches JsonModel::Object(f) && f.len() == es.len() && (
        forall|i: int|
            0 <= i < es.len() ==> {
                &&& (#[trigger] f[i]).0 == es[i].0
                &&& (repaired_key(es, es[i].0) && es[i].1 is Number) ==> f[i].1 == JsonModel::Bool(
                    es[i].1->1,
                )
                &&& !(repaired_key(es, es[i].0) && es[i].1 is Number) ==> f[i].1 == fixed(es[i].1)
            }),
{
    let p = is_parameter_object(es);
    lemma_fixed_entries(es, p);
    assert forall|k: Seq<char>| flag_key(k, p) == repaired_key(es, k) by {}
}

/// The repair of an array repairs each of its elements, in order; booleans, strings,
/// numbers and `null` outside objects are left as they are.
pub proof fn law_fix_array_and_scalars(v: JsonModel)
    ensures
        v matches JsonModel::Array(items) ==> (fixed(v) matches JsonModel::Array(f) && f.len()
            == items.len() && forall|i: int| 0 <= i < items.len() ==> #[trigger] f[i] == fixed(
            items[i],
        )),
        !(v is Array || v is Object) ==> fixed(v) == v,
{
    match v {
        JsonModel::Array(items) => {
            lemma_fixed_items(items);
        },
        _ => {},
    }
}

proof fn lemma_merge_required_keeps(req: Seq<Seq<char>>, items: Seq<JsonModel>)
    ensures
        forall|s: Seq<char>| req.contains(s) ==> #[trigger] merge_required(req, items).contains(s),
        forall|k: int|
            0 <= k < items.len() && (#[trigger] items[k]) is String ==> merge_required(
                req,
                items,
            ).contains(items[k]->String_0),
    decreases items.len(),
{
    if items.len() > 0 {
        let d = items.drop_last();
        lemma_merge_required_keeps(req, d);
        let r = merge_required(req, d);
        assert forall|s: Seq<char>| r.contains(s) implies #[trigger] merge_required(req, items).contains(s) by {
            match items.last() {
                JsonModel::String(t) => {
                    if !r.contains(t) {
                        let j = choose|j: int| 0 <= j < r.len() && r[j] == s;
                        assert(r.push(t)[j] == s);
                    }
                },
                _ => {},
            }
        }
        assert forall|k: int|
            0 <= k < items.len() && (#[trigger] items[k]) is String implies merge_required(
            req,
            items,
        ).contains(items[k]->String_0) by {
            let s = items[k]->String_0;
            if k < d.len() {
                assert(d[k] == items[k]);
                assert(r.contains(s));
            } else {
                if !r.contains(s) {
                    assert(r.push(s)[r.len() as int] == s);
                }
            }
        }
    }
}

/// Every string of the request-body schema's "required" array is among the tool's required
/// names, whatever the parameters are.
pub proof fn law_body_required_names_kept(op: Operation, k: int, s: Seq<char>)
    requires
        body_schema(op) matches Some(js) && member(js, "required"@) matches Some(
            JsonModel::Array(items),
        ) && 0 <= k < items.len() && items[k] == JsonModel::String(s),
    ensures
        schema_parts(op).1.contains(s),
{
    let js = body_schema(op).unwrap();
    let items = member(js, "required"@).unwrap()->Array_0;
    lemma_merge_required_keeps(params_parts(op.parameters@).1, items);
    assert(items[k] is String);
}

proof fn lemma_params_required(params: Seq<ParameterRef>, i: int)
    requires
        0 <= i < params.len(),
        match params[i] {
            ParameterRef::Item(Parameter::Query(d)) => d.required,
            ParameterRef::Item(Parameter::Path(d)) => d.required,
            ParameterRef::Item(Parameter::Header(d)) => d.required,
            _ => false,
        },
    ensures
        params_parts(params).1.contains(
            match params[i] {
                ParameterRef::Item(Parameter::Query(d)) => d.name@,
                ParameterRef::Item(Parameter::Path(d)) => d.name@,
                ParameterRef::Item(Parameter::Header(d)) => d.name@,
                ParameterRef::Item(Parameter::Cookie(d)) => d.name@,
                ParameterRef::Reference(r) => r@,
            },
        ),
    decreases params.len(),
{
    let d = params.drop_last();
    let prev = params_parts(d).1;
    if i < d.len() {
        lemma_params_required(d, i);
        assert(d[i] == params[i]);
        let s = choose|j: int| 0 <= j < prev.len() && prev[j] == match params[i] {
            ParameterRef::Item(Parameter::Query(d)) => d.name@,
            ParameterRef::Item(Parameter::Path(d)) => d.name@,
            ParameterRef::Item(Parameter::Header(d)) => d.name@,
            ParameterRef::Item(Parameter::Cookie(d)) => d.name@,
            ParameterRef::Reference(r) => r@,
        };
        assert(prev.push(Seq::empty())[s] == prev[s]);
        assert(params_parts(params).1[s] == prev[s]);
    } else {
        let cur = params_parts(params).1;
        assert(cur[cur.len() - 1] == cur.last());
    }
}

/// Every required query, path or header parameter is among the tool's required names.
pub proof fn law_required_parameters_kept(op: Operation, i: int)
    requires
        0 <= i < op.parameters@.len(),
        match op.parameters@[i] {
            ParameterRef::Item(Parameter::Query(d)) => d.required,
            ParameterRef::Item(Parameter::Path(d)) => d.required,
            ParameterRef::Item(Parameter::Header(d)) => d.required,
            _ => false,
        },
    ensures
        schema_parts(op).1.contains(
            match op.parameters@[i] {
                ParameterRef::Item(Parameter::Query(d)) => d.name@,
                ParameterRef::Item(Parameter::Path(d)) => d.name@,
                ParameterRef::Item(Parameter::Header(d)) => d.name@,
                ParameterRef::Item(Parameter::Cookie(d)) => d.name@,
                ParameterRef::Reference(r) => r@,
            },
        ),
{
    lemma_params_required(op.parameters@, i);
    let parts = params_parts(op.parameters@);
    match body_schema(op) {
        Some(js) => match member(js, "required"@) {
            Some(JsonModel::Array(items)) => {
                lemma_merge_required_keeps(parts.1, items);
            },
            _ => {},
        },
        None => {},
    }
}

} // verus!

verus! {

/// Setting a key and reading it back gives the value set; reading any other key gives what
/// it gave before; the set of keys gains the key set and nothing else.
pub proof fn law_object_set_then_get(
    es: Seq<(Seq<char>, JsonModel)>,
    k: Seq<char>,
    v: JsonModel,
    k2: Seq<char>,
)
    ensures
        get_key(put_key(es, k, v), k) == Some(v),
        k2 != k ==> get_key(put_key(es, k, v), k2) == get_key(es, k2),
        has_key(put_key(es, k, v), k2) <==> (k2 == k || has_key(es, k2)),
{
    let r = put_key(es, k, v);
    if has_key(es, k) {
        let i = choose|i: int| is_first_key(es, k, i);
        assert(is_first_key(es, k, i)) by {
            let w = choose|w: int| 0 <= w < es.len() && es[w].0 == k;
            lemma_first_key_exists(es, k, w);
        }
        assert(r == es.update(i, (k, v)));
        assert(is_first_key(r, k, i));
        let c = choose|c: int| is_first_key(r, k, c);
        assert(c == i) by {
            if c < i {
                assert(r[c].0 == es[c].0);
            } else if c > i {
                assert(r[i].0 == k);
            }
        }
        assert(has_key(r, k));
        if k2 != k {
            assert(has_key(r, k2) == has_key(es, k2)) by {
                if has_key(es, k2) {
                    let w = choose|w: int| 0 <= w < es.len() && es[w].0 == k2;
                    assert(r[w].0 == k2);
                }
                if has_key(r, k2) {
                    let w = choose|w: int| 0 <= w < r.len() && r[w].0 == k2;
                    assert(es[w].0 == k2);
                }
            }
            if has_key(es, k2) {
                let a = choose|a: int| is_first_key(es, k2, a);
                let w = choose|w: int| 0 <= w < es.len() && es[w].0 == k2;
                lemma_first_key_exists(es, k2, w);
                assert(is_first_key(r, k2, a));
                let b = choose|b: int| is_first_key(r, k2, b);
                assert(a == b) by {
                    if b < a {
                        assert(es[b].0 == r[b].0);
                    } else if a < b {
                        assert(r[a].0 == k2);
                    }
                }
            }
        }
    } else {
        assert(r == es.push((k, v)));
        let n = es.len() as int;
        assert(is_first_key(r, k, n));
        let c = choose|c: int| is_first_key(r, k, c);
        assert(c == n) by {
            if c < n {
                assert(r[c] == es[c]);
            }
        }
        assert(has_key(r, k));
        if k2 != k {
            assert(has_key(r, k2) == has_key(es, k2)) by {
                if has_key(es, k2) {
                    let w = choose|w: int| 0 <= w < es.len() && es[w].0 == k2;
                    assert(r[w].0 == k2);
                }
                if has_key(r, k2) {
                    let w = choose|w: int| 0 <= w < r.len() && r[w].0 == k2;
                    assert(es[w].0 == k2);
                }
            }
            if has_key(es, k2) {
                let a = choose|a: int| is_first_key(es, k2, a);
                let w = choose|w: int| 0 <= w < es.len() && es[w].0 == k2;
                lemma_first_key_exists(es, k2, w);
                assert(is_first_key(r, k2, a));
                let b = choose|b: int| is_first_key(r, k2, b);
                assert(a == b) by {
                    if b < a {
                        assert(es[b].0 == r[b].0);
                    } else if a < b {
                        assert(r[a].0 == k2);
                    }
                }
            }
        }
    }
}

/// Where some entry has key `k`, a first such entry exists.
pub proof fn lemma_first_key_exists(es: Seq<(Seq<char>, JsonModel)>, k: Seq<char>, w: int)
    requires
        0 <= w < es.len(),
        es[w].0 == k,
    ensures
        exists|i: int| is_first_key(es, k, i),
    decreases w,
{
    if exists|j: int| 0 <= j < w && es[j].0 == k {
        let j = choose|j: int| 0 <= j < w && es[j].0 == k;
        lemma_first_key_exists(es, k, j);
    } else {
        assert(is_first_key(es, k, w));
    }
}

} // verus!

verus! {

/// The name of a query, path or header parameter written out in the document, and whether
/// it is required; nothing for a cookie parameter or a reference.
pub open spec fn sent_parameter(p: ParameterRef) -> Option<(Seq<char>, bool)> {
    match p {
        ParameterRef::Item(Parameter::Query(d)) => Some((d.name@, d.required)),
        ParameterRef::Item(Parameter::Path(d)) => Some((d.name@, d.required)),
        ParameterRef::Item(Parameter::Header(d)) => Some((d.name@, d.required)),
        _ => None,
    }
}

/// What the parameters give: a property for the name of every query, path and header
/// parameter and for nothing else, each a string described as "Parameter <name>"; and
/// among the required names exactly the names of the required ones.
pub proof fn law_parameter_properties(params: Seq<ParameterRef>, name: Seq<char>)
    ensures
        has_key(params_parts(params).0, name) <==> exists|i: int|
            0 <= i < params.len() && (#[trigger] sent_parameter(params[i])) is Some
                && sent_parameter(params[i]).unwrap().0 == name,
        has_key(params_parts(params).0, name) ==> get_key(params_parts(params).0, name) == Some(
            JsonModel::Object(
                seq![
                    ("type"@, JsonModel::String("string"@)),
                    ("description"@, JsonModel::String("Parameter "@ + name)),
                ],
            ),
        ),
        params_parts(params).1.contains(name) <==> exists|i: int|
            0 <= i < params.len() && (#[trigger] sent_parameter(params[i])) == Some((name, true)),
    decreases params.len(),
{
    if params.len() > 0 {
        let d = params.drop_last();
        let n1 = params.len() - 1;
        law_parameter_properties(d, name);
        let (props, req) = params_parts(d);
        let last = params.last();
        assert forall|i: int| 0 <= i < d.len() implies #[trigger] sent_parameter(d[i])
            == sent_parameter(params[i]) by {
            assert(d[i] == params[i]);
        }
        let has_old = exists|i: int|
            0 <= i < d.len() && (#[trigger] sent_parameter(d[i])) is Some && sent_parameter(
                d[i],
            ).unwrap().0 == name;
        let has_new = exists|i: int|
            0 <= i < params.len() && (#[trigger] sent_parameter(params[i])) is Some
                && sent_parameter(params[i]).unwrap().0 == name;
        let req_old = exists|i: int|
            0 <= i < d.len() && (#[trigger] sent_parameter(d[i])) == Some((name, true));
        let req_new = exists|i: int|
            0 <= i < params.len() && (#[trigger] sent_parameter(params[i])) == Some((name, true));
        if has_old {
            let i = choose|i: int|
                0 <= i < d.len() && (#[trigger] sent_parameter(d[i])) is Some && sent_parameter(
                    d[i],
                ).unwrap().0 == name;
            assert(sent_parameter(params[i]) == sent_parameter(d[i]));
        }
        if req_old {
            let i = choose|i: int|
                0 <= i < d.len() && (#[trigger] sent_parameter(d[i])) == Some((name, true));
            assert(sent_parameter(params[i]) == sent_parameter(d[i]));
        }
        if has_new && !has_old {
            let i = choose|i: int|
                0 <= i < params.len() && (#[trigger] sent_parameter(params[i])) is Some
                    && sent_parameter(params[i]).unwrap().0 == name;
            if i < n1 {
                assert(sent_parameter(d[i]) == sent_parameter(params[i]));
            }
            assert(i == n1);
        }
        if req_new && !req_old {
            let i = choose|i: int|
                0 <= i < params.len() && (#[trigger] sent_parameter(params[i])) == Some((name, true));
            if i < n1 {
                assert(sent_parameter(d[i]) == sent_parameter(params[i]));
            }
            assert(i == n1);
        }
        match sent_parameter(last) {
            Some((n, r)) => {
                let pd = parameter_data(last).unwrap();
                assert(pd.name@ == n && pd.required == r);
                assert(params_parts(params).0 == put_key(props, n, param_schema(n)));
                law_object_set_then_get(
                    props,
                    n,
                    param_schema(n),
                    name,
                );
                assert(sent_parameter(params[n1]) == Some((n, r)));
                if r {
                    assert(params_parts(params).1 == req.push(n));
                    assert(req.push(n)[req.len() as int] == n);
                    if req.contains(name) {
                        let j = choose|j: int| 0 <= j < req.len() && req[j] == name;
                        assert(req.push(n)[j] == name);
                    }
                    if req.push(n).contains(name) && name != n {
                        let j = choose|j: int| 0 <= j < req.push(n).len() && req.push(n)[j] == name;
                        assert(req[j] == name);
                    }
                } else {
                    assert(params_parts(params).1 == req);
                }
            },
            None => {
                assert(parameter_data(last) is None);
                assert(params_parts(params) == (props, req));
                assert(sent_parameter(params[n1]) is None);
            },
        }
    }
}

} // verus!

verus! {

#[verifier::rlimit(60)]
proof fn lemma_merge_props(
    props: Seq<(Seq<char>, JsonModel)>,
    ps: Seq<(Seq<char>, JsonModel)>,
    k: Seq<char>,
)
    ensures
        has_key(merge_props(props, ps), k) <==> (has_key(props, k) || exists|j: int|
            0 <= j < ps.len() && ps[j].0 == k),
        forall|j: int|
            0 <= j < ps.len() && (#[trigger] ps[j]).0 == k && (forall|l: int|
                j < l < ps.len() ==> ps[l].0 != k) ==> get_key(merge_props(props, ps), k) == Some(
                ps[j].1,
            ),
        (forall|j: int| 0 <= j < ps.len() ==> ps[j].0 != k) ==> get_key(merge_props(props, ps), k)
            == get_key(props, k),
    decreases ps.len(),
{
    if ps.len() > 0 {
        let d = ps.drop_last();
        let n1 = ps.len() - 1;
        lemma_merge_props(props, d, k);
        let m = merge_props(props, d);
        law_object_set_then_get(m, ps.last().0, ps.last().1, k);
        assert(merge_props(props, ps) == put_key(m, ps.last().0, ps.last().1));
        if exists|j: int| 0 <= j < d.len() && d[j].0 == k {
            let j = choose|j: int| 0 <= j < d.len() && d[j].0 == k;
            assert(ps[j].0 == k);
        }
        if exists|j: int| 0 <= j < ps.len() && ps[j].0 == k {
            let j = choose|j: int| 0 <= j < ps.len() && ps[j].0 == k;
            if j < n1 {
                assert(d[j].0 == k);
            }
        }
        assert forall|j: int|
            0 <= j < ps.len() && (#[trigger] ps[j]).0 == k && (forall|l: int|
                j < l < ps.len() ==> ps[l].0 != k) implies get_key(merge_props(props, ps), k)
            == Some(ps[j].1) by {
            if j < n1 {
                assert(ps[n1].0 != k);
                assert(d[j] == ps[j]);
                assert forall|l: int| j < l < d.len() implies d[l].0 != k by {
                    assert(d[l] == ps[l]);
                }
            }
        }
        if forall|j: int| 0 <= j < ps.len() ==> ps[j].0 != k {
            assert(ps[n1].0 != k);
            assert forall|j: int| 0 <= j < d.len() implies d[j].0 != k by {
                assert(d[j] == ps[j]);
            }
        }
    }
}

/// The properties of a tool: the request-body schema's "properties" object sets each of its
/// properties (its value replaces a parameter's of the same name, and of a name given twice
/// the later value stands); every other name keeps what the parameters gave.
pub proof fn law_body_properties(op: Operation, ps: Seq<(Seq<char>, JsonModel)>, k: Seq<char>)
    requires
        body_schema(op) is Some,
        member(body_schema(op).unwrap(), "properties"@) == Some(JsonModel::Object(ps)),
    ensures
        has_key(schema_parts(op).0, k) <==> (has_key(params_parts(op.parameters@).0, k)
            || exists|j: int| 0 <= j < ps.len() && ps[j].0 == k),
        forall|j: int|
            0 <= j < ps.len() && (#[trigger] ps[j]).0 == k && (forall|l: int|
                j < l < ps.len() ==> ps[l].0 != k) ==> get_key(schema_parts(op).0, k) == Some(
                ps[j].1,
            ),
        (forall|j: int| 0 <= j < ps.len() ==> ps[j].0 != k) ==> get_key(schema_parts(op).0, k)
            == get_key(params_parts(op.parameters@).0, k),
{
    lemma_merge_props(params_parts(op.parameters@).0, ps, k);
}

/// Without a request-body schema holding a "properties" object, the properties of a tool
/// are those the parameters give.
pub proof fn law_no_body_properties(op: Operation)
    requires
        !(body_schema(op) is Some && member(body_schema(op).unwrap(), "properties"@) is Some
            && member(body_schema(op).unwrap(), "properties"@).unwrap() is Object),
    ensures
        schema_parts(op).0 == params_parts(op.parameters@).0,
{
}

} // verus!

verus! {

proof fn lemma_get_at(es: Seq<(Seq<char>, JsonModel)>, k: Seq<char>, i: int)
    requires
        is_first_key(es, k, i),
    ensures
        get_key(es, k) == Some(es[i].1),
{
    let c = choose|c: int| is_first_key(es, k, c);
    assert(c == i) by {
        if c < i {
            assert(es[c].0 != k);
        } else if c > i {
            assert(es[i].0 != k);
        }
    }
}

proof fn lemma_get_absent(es: Seq<(Seq<char>, JsonModel)>, k: Seq<char>)
    requires
        forall|i: int| 0 <= i < es.len() ==> es[i].0 != k,
    ensures
        get_key(es, k) is None,
{
}

/// The argument schema of a tool is an object of type "object" whose "properties" are the
/// properties given, and which lists the required names under "required", as strings and in
/// order, exactly when there are both properties and required names.
pub proof fn law_schema_shape(props: Seq<(Seq<char>, JsonModel)>, req: Seq<Seq<char>>)
    ensures
        schema_of(props, req) is Object,
        member(schema_of(props, req), "type"@) == Some(JsonModel::String("object"@)),
        member(schema_of(props, req), "properties"@) == Some(JsonModel::Object(props)),
        (props.len() > 0 && req.len() > 0) ==> (member(schema_of(props, req), "required"@) matches Some(
            JsonModel::Array(a),
        ) && a.len() == req.len() && forall|i: int|
            0 <= i < req.len() ==> #[trigger] a[i] == JsonModel::String(req[i])),
        !(props.len() > 0 && req.len() > 0) ==> member(schema_of(props, req), "required"@) is None,
{
    reveal_strlit("type");
    reveal_strlit("properties");
    reveal_strlit("required");
    let t = "type"@;
    let p = "properties"@;
    let r = "required"@;
    assert(t.len() == 4 && p.len() == 10 && r.len() == 8);
    assert(t != p && t != r && p != r);
    let es = schema_of(props, req)->Object_0;
    if props.len() == 0 {
        assert(props =~= Seq::empty());
    }
    lemma_get_at(es, t, 0);
    lemma_get_at(es, p, 1);
    if props.len() > 0 && req.len() > 0 {
        lemma_get_at(es, r, 2);
    } else {
        lemma_get_absent(es, r);
    }
}

} // verus!

verus! {

/// The pieces joined back together with `sep` between them.
pub open spec fn joined(ps: Seq<Seq<char>>, sep: char) -> Seq<char>
    decreases ps.len(),
{
    if ps.len() == 0 {
        Seq::empty()
    } else if ps.len() == 1 {
        ps[0]
    } else {
        joined(ps.drop_last(), sep).push(sep) + ps.last()
    }
}

/// Splitting at `sep` gives pieces that hold no `sep` and that, joined with `sep`, give the
/// text back.
pub proof fn law_split_pieces(s: Seq<char>, sep: char)
    ensures
        joined(split_on(s, sep), sep) == s,
        forall|i: int, j: int|
            0 <= i < split_on(s, sep).len() && 0 <= j < split_on(s, sep)[i].len() ==> #[trigger] split_on(
                s,
                sep,
            )[i][j] != sep,
    decreases s.len(),
{
    lemma_split_on_len(s, sep);
    if s.len() == 0 {
        assert(split_on(s, sep) =~= seq![Seq::<char>::empty()]);
    } else {
        let t = s.drop_last();
        let c = s.last();
        law_split_pieces(t, sep);
        lemma_split_on_len(t, sep);
        let p = split_on(t, sep);
        let q = split_on(s, sep);
        if c == sep {
            assert(q == p.push(Seq::<char>::empty()));
            assert(q.drop_last() =~= p);
            assert(joined(q, sep) =~= t.push(sep));
            assert(t.push(sep) =~= s);
            assert forall|i: int, j: int| 0 <= i < q.len() && 0 <= j < q[i].len() implies #[trigger] q[i][j]
                != sep by {
                if i < p.len() {
                    assert(q[i] == p[i]);
                }
            }
        } else {
            let n = p.len();
            assert(q == p.update(n - 1, p.last().push(c)));
            if n == 1 {
                assert(joined(p, sep) == p[0]);
                assert(joined(q, sep) == q[0]);
                assert(q[0] =~= t.push(c));
            } else {
                assert(q.drop_last() =~= p.drop_last());
                assert(joined(p, sep) == joined(p.drop_last(), sep).push(sep) + p.last());
                assert(joined(q, sep) == joined(p.drop_last(), sep).push(sep) + p.last().push(c));
                assert(joined(p.drop_last(), sep).push(sep) + p.last().push(c) =~= (joined(
                    p.drop_last(),
                    sep,
                ).push(sep) + p.last()).push(c));
            }
            assert(t.push(c) =~= s);
            assert forall|i: int, j: int| 0 <= i < q.len() && 0 <= j < q[i].len() implies #[trigger] q[i][j]
                != sep by {
                if i < n - 1 {
                    assert(q[i] == p[i]);
                } else {
                    assert(q[i] == p[n - 1].push(c));
                    if j < p[n - 1].len() {
                        assert(q[i][j] == p[n - 1][j]);
                    }
                }
            }
        }
    }
}

proof fn lemma_trim_start_shape(s: Seq<char>) -> (a: int)
    ensures
        0 <= a <= s.len(),
        trim_start_ws(s) == s.skip(a),
        forall|i: int| 0 <= i < a ==> unicode_white_space(#[trigger] s[i]),
        a < s.len() ==> !unicode_white_space(s[a]),
    decreases s.len(),
{
    if s.len() > 0 && unicode_white_space(s[0]) {
        let a0 = lemma_trim_start_shape(s.drop_first());
        assert(s.drop_first().skip(a0) =~= s.skip(a0 + 1));
        assert forall|i: int| 0 <= i < a0 + 1 implies unicode_white_space(#[trigger] s[i]) by {
            if i > 0 {
                assert(s[i] == s.drop_first()[i - 1]);
            }
        }
        a0 + 1
    } else {
        assert(s.skip(0) =~= s);
        0
    }
}

proof fn lemma_trim_end_shape(s: Seq<char>) -> (b: int)
    ensures
        0 <= b <= s.len(),
        trim_end_ws(s) == s.take(b),
        forall|i: int| b <= i < s.len() ==> unicode_white_space(#[trigger] s[i]),
        b > 0 ==> !unicode_white_space(s[b - 1]),
    decreases s.len(),
{
    if s.len() > 0 && unicode_white_space(s.last()) {
        let b0 = lemma_trim_end_shape(s.drop_last());
        assert(s.drop_last().take(b0) =~= s.take(b0));
        assert forall|i: int| b0 <= i < s.len() implies unicode_white_space(#[trigger] s[i]) by {
            if i < s.len() - 1 {
                assert(s[i] == s.drop_last()[i]);
            }
        }
        b0
    } else {
        assert(s.take(s.len() as int) =~= s);
        s.len() as int
    }
}

/// Trimming keeps the part of the text between its leading and its trailing white space:
/// everything before and after it is white space, and it neither begins nor ends with
/// white space.
pub proof fn law_trim(s: Seq<char>)
    ensures
        exists|a: int, b: int|
            0 <= a <= b <= s.len() && trim_ws(s) == s.subrange(a, b) && (forall|i: int|
                0 <= i < a ==> unicode_white_space(#[trigger] s[i])) && (forall|i: int|
                b <= i < s.len() ==> unicode_white_space(#[trigger] s[i])) && (a < b
                ==> !unicode_white_space(s[a]) && !unicode_white_space(s[b - 1])),
{
    let a = lemma_trim_start_shape(s);
    let u = s.skip(a);
    let b0 = lemma_trim_end_shape(u);
    let b = a + b0;
    assert(u.take(b0) =~= s.subrange(a, b));
    assert forall|i: int| b <= i < s.len() implies unicode_white_space(#[trigger] s[i]) by {
        assert(s[i] == u[i - a]);
    }
    if a < b {
        assert(s[a] == u[0]);
        assert(s[b - 1] == u[b0 - 1]);
        if b0 < u.len() || b0 == u.len() {
        }
    }
    assert(0 <= a <= b <= s.len() && trim_ws(s) == s.subrange(a, b));
}

/// Removing a trailing character keeps the longest beginning of the text that does not end
/// with it; everything after that beginning is that character.
pub proof fn law_trim_end_char(s: Seq<char>, c: char)
    ensures
        exists|b: int|
            0 <= b <= s.len() && trim_end_char(s, c) == s.take(b) && (forall|i: int|
                b <= i < s.len() ==> #[trigger] s[i] == c) && (b > 0 ==> s[b - 1] != c),
    decreases s.len(),
{
    if s.len() > 0 && s.last() == c {
        law_trim_end_char(s.drop_last(), c);
        let b = choose|b: int|
            0 <= b <= s.drop_last().len() && trim_end_char(s.drop_last(), c) == s.drop_last().take(
                b,
            ) && (forall|i: int| b <= i < s.drop_last().len() ==> #[trigger] s.drop_last()[i] == c)
                && (b > 0 ==> s.drop_last()[b - 1] != c);
        assert(s.drop_last().take(b) =~= s.take(b));
        assert forall|i: int| b <= i < s.len() implies #[trigger] s[i] == c by {
            if i < s.len() - 1 {
                assert(s[i] == s.drop_last()[i]);
            }
        }
        if b > 0 {
            assert(s[b - 1] == s.drop_last()[b - 1]);
        }
    } else {
        assert(s.take(s.len() as int) =~= s);
    }
}

/// Splitting once at `c` cuts the text at its first `c`: what comes before holds no `c`, and
/// the two parts with `c` between them give the text back; there is no cut where the text
/// holds no `c`.
pub proof fn law_split_once(s: Seq<char>, c: char)
    ensures
        split_once_at(s, c) matches Some((x, y)) ==> s == x + seq![c] + y && !x.contains(c),
        split_once_at(s, c) is None <==> !s.contains(c),
{
    if s.contains(c) {
        let w = choose|w: int| 0 <= w < s.len() && s[w] == c;
        lemma_first_index_exists(s, c, w);
        let i = choose|i: int| is_first_index(s, c, i);
        assert(s =~= s.take(i) + seq![c] + s.skip(i + 1));
        if s.take(i).contains(c) {
            let j = choose|j: int| 0 <= j < s.take(i).len() && s.take(i)[j] == c;
            assert(s[j] == c);
        }
    }
}

proof fn lemma_first_index_exists(s: Seq<char>, c: char, w: int)
    requires
        0 <= w < s.len(),
        s[w] == c,
    ensures
        exists|i: int| is_first_index(s, c, i),
    decreases w,
{
    if exists|j: int| 0 <= j < w && s[j] == c {
        let j = choose|j: int| 0 <= j < w && s[j] == c;
        lemma_first_index_exists(s, c, j);
    } else {
        assert(is_first_index(s, c, w));
    }
}

/// Turning dashes into underscores keeps the length and every other character.
pub proof fn law_underscored(s: Seq<char>)
    ensures
        underscored(s).len() == s.len(),
        forall|i: int|
            0 <= i < s.len() ==> (s[i] == '-' ==> #[trigger] underscored(s)[i] == '_') && (s[i]
                != '-' ==> underscored(s)[i] == s[i]),
{
}

/// The value of a digit character.
pub open spec fn digit_value(c: char) -> nat {
    if c == '1' { 1 }
    else if c == '2' { 2 }
    else if c == '3' { 3 }
    else if c == '4' { 4 }
    else if c == '5' { 5 }
    else if c == '6' { 6 }
    else if c == '7' { 7 }
    else if c == '8' { 8 }
    else if c == '9' { 9 }
    else { 0 }
}

/// The value of a string of decimal digits.
pub open spec fn digits_value(ds: Seq<char>) -> nat
    decreases ds.len(),
{
    if ds.len() == 0 {
        0
    } else {
        digits_value(ds.drop_last()) * 10 + digit_value(ds.last())
    }
}

proof fn lemma_digit_value(d: nat)
    requires
        d < 10,
    ensures
        digit_value(digit_char(d)) == d,
{
}

/// The decimal numeral of a number is made of digits, reads back as the number, and has no
/// leading zero.
pub proof fn law_decimal(n: nat)
    ensures
        digits_value(decimal(n)) == n,
        forall|k: int| 0 <= k < decimal(n).len() ==> '0' <= #[trigger] decimal(n)[k] <= '9',
        decimal(n)[0] == '0' ==> n == 0,
        decimal(n).len() >= 1,
    decreases n,
{
    lemma_decimal_digits(n);
    if n < 10 {
        assert(decimal(n) == seq![digit_char(n)]);
        assert(decimal(n).drop_last() =~= Seq::<char>::empty());
        assert(decimal(n).last() == digit_char(n));
        lemma_digit_value(n);
        let e = Seq::<char>::empty();
        assert(digits_value(e) == 0);
        assert(digits_value(decimal(n)) == digits_value(decimal(n).drop_last()) * 10 + digit_value(
            decimal(n).last(),
        ));
    } else {
        law_decimal(n / 10);
        let d = decimal(n);
        assert(d == decimal(n / 10).push(digit_char(n % 10)));
        assert(d.drop_last() =~= decimal(n / 10));
        assert(d[0] == decimal(n / 10)[0]);
        assert(n == (n / 10) * 10 + n % 10);
        lemma_digit_value(n % 10);
        assert(d.last() == digit_char(n % 10));
        assert(digits_value(d) == digits_value(d.drop_last()) * 10 + digit_value(d.last()));
        assert(digits_value(d) == (n / 10) * 10 + n % 10);
    }
}

} // verus!

verus! {

proof fn lemma_count_is_filter(s: Seq<Seq<char>>, x: Seq<char>)
    ensures
        count_in(s, x) == s.filter(|y: Seq<char>| y == x).len(),
    decreases s.len(),
{
    reveal(Seq::filter);
    if s.len() > 0 {
        lemma_count_is_filter(s.drop_last(), x);
    }
}

/// Each tool is named after its operation's base name `method_resource_operation`: the
/// base name alone where no earlier operation has it, and otherwise the base name followed
/// by '_' and the number of operations so far that have it (2 for the second, 3 for the
/// third, ...). The tool keeps its operation's path and method.
pub proof fn law_tool_naming(ops: Seq<OpSite>, i: int)
    requires
        0 <= i < ops.len(),
    ensures
        ({
            let b = base_of(ops[i]);
            let c = bases_of(ops).take(i).filter(|x: Seq<char>| x == b).len();
            &&& tools_for(ops)[i].name == if c == 0 {
                b
            } else {
                b + "_"@ + decimal(c + 1)
            }
            &&& tools_for(ops)[i].path == ops[i].0
            &&& tools_for(ops)[i].method == ops[i].1
        }),
{
    lemma_tools_for(ops);
    lemma_count_is_filter(bases_of(ops).take(i), base_of(ops[i]));
}

/// The base name of an operation is `method_resource_operation`: the lowercased method,
/// '_', the lowercased resource, '_', the lowercased operation id ("unknown" where there is
/// none), with every '-' of the resource and of the operation id turned into '_'.
pub proof fn law_base_name_format(method: Seq<char>, path: Seq<char>, op_id: Option<Seq<char>>)
    ensures
        exists|r: Seq<char>, o: Seq<char>|
            base_name(method, path, op_id) == unicode_lowercase(method) + "_"@ + r + "_"@ + o && r.len()
                == unicode_lowercase(resource_of(path)).len() && o.len() == unicode_lowercase(
                match op_id {
                    Some(s) => s,
                    None => "unknown"@,
                },
            ).len() && (forall|i: int|
                0 <= i < r.len() ==> #[trigger] r[i] == if unicode_lowercase(resource_of(path))[i]
                    == '-' {
                    '_'
                } else {
                    unicode_lowercase(resource_of(path))[i]
                }) && (forall|i: int|
                0 <= i < o.len() ==> #[trigger] o[i] == if unicode_lowercase(
                    match op_id {
                        Some(s) => s,
                        None => "unknown"@,
                    },
                )[i] == '-' {
                    '_'
                } else {
                    unicode_lowercase(
                        match op_id {
                            Some(s) => s,
                            None => "unknown"@,
                        },
                    )[i]
                }),
{
    let lr = unicode_lowercase(resource_of(path));
    let lo = unicode_lowercase(
        match op_id {
            Some(s) => s,
            None => "unknown"@,
        },
    );
    law_underscored(lr);
    law_underscored(lo);
    let r = underscored(lr);
    let o = underscored(lo);
    assert(base_name(method, path, op_id) == unicode_lowercase(method) + "_"@ + r + "_"@ + o);
}

/// The description of a tool is the operation's summary, else its description, else the
/// method, a space and the path.
pub proof fn law_description(method: Seq<char>, path: Seq<char>, op: Operation)
    ensures
        op.summary matches Some(s) ==> description_of(method, path, op) == s@,
        (op.summary is None && op.description is Some) ==> description_of(method, path, op)
            == op.description.unwrap()@,
        (op.summary is None && op.description is None) ==> description_of(method, path, op)
            == method + " "@ + path,
{
}

/// The rank of a method among the five that tools are made for.
pub open spec fn method_rank(m: Seq<char>) -> int {
    if m == "GET"@ {
        0
    } else if m == "POST"@ {
        1
    } else if m == "PUT"@ {
        2
    } else if m == "DELETE"@ {
        3
    } else {
        4
    }
}

/// The operation of a path item under a method.
pub open spec fn operation_under(pi: PathItem, m: Seq<char>) -> Option<Operation> {
    if m == "GET"@ {
        pi.get
    } else if m == "POST"@ {
        pi.post
    } else if m == "PUT"@ {
        pi.put
    } else if m == "DELETE"@ {
        pi.delete
    } else if m == "PATCH"@ {
        pi.patch
    } else {
        None
    }
}

/// A path written out gives one operation per method that it has, each with the path, in
/// the order GET, POST, PUT, DELETE, PATCH; a path given by reference gives none.
pub proof fn law_path_operations(e: PathEntry)
    ensures
        e.item is Reference ==> path_ops(e).len() == 0,
        e.item matches PathItemRef::Item(pi) ==> {
            &&& forall|i: int|
                0 <= i < path_ops(e).len() ==> (#[trigger] path_ops(e)[i]).0 == e.path@
                    && operation_under(pi, path_ops(e)[i].1) == Some(path_ops(e)[i].2)
            &&& forall|i: int, j: int|
                0 <= i < j < path_ops(e).len() ==> method_rank(#[trigger] path_ops(e)[i].1)
                    < method_rank(#[trigger] path_ops(e)[j].1)
            &&& forall|m: Seq<char>|
                #![trigger operation_under(pi, m)]
                operation_under(pi, m) is Some ==> exists|i: int|
                    0 <= i < path_ops(e).len() && path_ops(e)[i].1 == m
        },
{
    reveal_strlit("GET");
    reveal_strlit("POST");
    reveal_strlit("PUT");
    reveal_strlit("DELETE");
    reveal_strlit("PATCH");
    let g = "GET"@;
    let po = "POST"@;
    let pu = "PUT"@;
    let de = "DELETE"@;
    let pa = "PATCH"@;
    assert(g.len() == 3 && po.len() == 4 && pu.len() == 3 && de.len() == 6 && pa.len() == 5);
    assert(g != pu) by {
        assert(g[0] != pu[0]);
    }
    assert(g != po && g != de && g != pa && po != pu && po != de && po != pa && pu != de && pu
        != pa && de != pa);
    match e.item {
        PathItemRef::Item(pi) => {
            let p = e.path@;
            let a = op_at(p, g, pi.get);
            let b = op_at(p, po, pi.post);
            let c = op_at(p, pu, pi.put);
            let d = op_at(p, de, pi.delete);
            let f = op_at(p, pa, pi.patch);
            let all = a + b + c + d + f;
            assert(path_ops(e) == all);
            assert forall|i: int| 0 <= i < all.len() implies (#[trigger] all[i]).0 == p
                && operation_under(pi, all[i].1) == Some(all[i].2) && (all[i].1 == g || all[i].1
                == po || all[i].1 == pu || all[i].1 == de || all[i].1 == pa) && (method_rank(all[i].1)
                == if i < a.len() {
                0int
            } else if i < a.len() + b.len() {
                1
            } else if i < a.len() + b.len() + c.len() {
                2
            } else if i < a.len() + b.len() + c.len() + d.len() {
                3
            } else {
                4
            }) by {
                if i < a.len() {
                    assert(all[i] == a[i]);
                } else if i < a.len() + b.len() {
                    assert(all[i] == b[i - a.len()]);
                } else if i < a.len() + b.len() + c.len() {
                    assert(all[i] == c[i - a.len() - b.len()]);
                } else if i < a.len() + b.len() + c.len() + d.len() {
                    assert(all[i] == d[i - a.len() - b.len() - c.len()]);
                } else {
                    assert(all[i] == f[i - a.len() - b.len() - c.len() - d.len()]);
                }
            }
            assert forall|i: int, j: int| 0 <= i < j < all.len() implies method_rank(
                #[trigger] all[i].1,
            ) < method_rank(#[trigger] all[j].1) by {
                assert(a.len() <= 1 && b.len() <= 1 && c.len() <= 1 && d.len() <= 1 && f.len()
                    <= 1);
            }
            assert forall|m: Seq<char>| #[trigger]
                operation_under(pi, m) is Some implies exists|i: int|
                0 <= i < all.len() && all[i].1 == m by {
                if m == g {
                    assert(all[0].1 == m);
                } else if m == po {
                    assert(all[a.len() as int].1 == m);
                } else if m == pu {
                    assert(all[(a.len() + b.len()) as int].1 == m);
                } else if m == de {
                    assert(all[(a.len() + b.len() + c.len()) as int].1 == m);
                } else {
                    assert(all[(a.len() + b.len() + c.len() + d.len()) as int].1 == m);
                }
            }
        },
        PathItemRef::Reference(_) => {},
    }
}

/// The operations of a document are those of its paths, path by path in document order.
pub proof fn law_operations_in_document_order(paths: Seq<PathEntry>, e: PathEntry)
    ensures
        operations(Seq::<PathEntry>::empty()).len() == 0,
        operations(paths.push(e)) == operations(paths) + path_ops(e),
{
    assert(paths.push(e).drop_last() =~= paths);
}

} // verus!

verus! {

/// A call goes to the configured base URL, else to the document's first server, else to
/// the tool's path alone; the base loses its trailing slashes and the path follows it.
pub proof fn law_call_url(base: Option<Seq<char>>, servers: Seq<Seq<char>>, path: Seq<char>)
    ensures
        base matches Some(b) ==> url_of(base, servers, path) == trim_end_char(b, '/') + path,
        (base is None && servers.len() > 0) ==> url_of(base, servers, path) == trim_end_char(
            servers[0],
            '/',
        ) + path,
        (base is None && servers.len() == 0) ==> url_of(base, servers, path) == path,
{
    if base is None && servers.len() == 0 {
        assert(Seq::<char>::empty() + path =~= path);
    }
}

/// The method names that tools may carry are exactly "GET", "POST", "PUT", "DELETE" and
/// "PATCH", each standing for its method.
pub proof fn law_method_names(m: Seq<char>)
    ensures
        m == "GET"@ ==> method_of(m) == Some(HttpMethod::Get),
        m == "POST"@ ==> method_of(m) == Some(HttpMethod::Post),
        m == "PUT"@ ==> method_of(m) == Some(HttpMethod::Put),
        m == "DELETE"@ ==> method_of(m) == Some(HttpMethod::Delete),
        m == "PATCH"@ ==> method_of(m) == Some(HttpMethod::Patch),
        method_of(m) is None <==> !(m == "GET"@ || m == "POST"@ || m == "PUT"@ || m == "DELETE"@
            || m == "PATCH"@),
{
    reveal_strlit("GET");
    reveal_strlit("POST");
    reveal_strlit("PUT");
    reveal_strlit("DELETE");
    reveal_strlit("PATCH");
    let g = "GET"@;
    let po = "POST"@;
    let pu = "PUT"@;
    let de = "DELETE"@;
    let pa = "PATCH"@;
    assert(g.len() == 3 && po.len() == 4 && pu.len() == 3 && de.len() == 6 && pa.len() == 5);
    assert(g != pu) by {
        assert(g[0] != pu[0]);
    }
    assert(g != po && g != de && g != pa && po != pu && po != de && po != pa && pu != de && pu
        != pa && de != pa);
}

/// Every call carries `X-API-Key` first where an API key is set, and then the headers of
/// the extra-header setting; no other header.
pub proof fn law_headers(api_key: Option<Seq<char>>, extra: Option<Seq<char>>)
    ensures
        api_key matches Some(k) ==> headers_of(api_key, extra).len() >= 1 && headers_of(
            api_key,
            extra,
        )[0] == ("X-API-Key"@, k) && headers_of(api_key, extra).drop_first() == match extra {
            Some(e) => parse_header_lines(split_on(e, '\n')),
            None => Seq::empty(),
        },
        api_key is None ==> headers_of(api_key, extra) == match extra {
            Some(e) => parse_header_lines(split_on(e, '\n')),
            None => Seq::<(Seq<char>, Seq<char>)>::empty(),
        },
{
    let rest: Seq<(Seq<char>, Seq<char>)> = match extra {
        Some(e) => parse_header_lines(split_on(e, '\n')),
        None => Seq::empty(),
    };
    match api_key {
        Some(k) => {
            assert((seq![("X-API-Key"@, k)] + rest).drop_first() =~= rest);
        },
        None => {
            assert(Seq::<(Seq<char>, Seq<char>)>::empty() + rest =~= rest);
        },
    }
}

/// Whether a line gives a header: it holds a ':' and is not white space alone.
pub open spec fn header_line(l: Seq<char>) -> bool {
    trim_ws(l).len() > 0 && trim_ws(l).contains(':')
}

/// The header a line gives: the trimmed text before its first ':' and the trimmed text
/// after it.
pub open spec fn header_of_line(l: Seq<char>) -> (Seq<char>, Seq<char>) {
    let t = trim_ws(l);
    let i = choose|i: int| is_first_index(t, ':', i);
    (trim_ws(t.take(i)), trim_ws(t.skip(i + 1)))
}

/// The headers of `Name: value` lines are those of the lines that hold a ':' and are not
/// white space alone, one per such line and in the order of the lines; other lines give
/// nothing.
pub proof fn law_header_lines(lines: Seq<Seq<char>>)
    ensures
        parse_header_lines(lines) == lines.filter(|l: Seq<char>| header_line(l)).map_values(
            |l: Seq<char>| header_of_line(l),
        ),
    decreases lines.len(),
{
    reveal(Seq::filter);
    if lines.len() > 0 {
        law_header_lines(lines.drop_last());
        let l = lines.last();
        let t = trim_ws(l);
        let prev = lines.drop_last().filter(|l: Seq<char>| header_line(l));
        if header_line(l) {
            let i = choose|i: int| is_first_index(t, ':', i);
            assert(split_once_at(t, ':') == Some((t.take(i), t.skip(i + 1))));
            assert(prev.push(l).map_values(|l: Seq<char>| header_of_line(l)) =~= prev.map_values(
                |l: Seq<char>| header_of_line(l),
            ).push(header_of_line(l)));
        } else {
            if t.len() > 0 {
                assert(split_once_at(t, ':') is None);
            }
        }
    }
}

} // verus!

verus! {

proof fn lemma_lookup_media_first(s: Seq<(String, MediaType)>, k: Seq<char>, i: int)
    requires
        0 <= i < s.len(),
        s[i].0@ == k,
        forall|j: int| 0 <= j < i ==> s[j].0@ != k,
    ensures
        lookup_media(s, k) == Some(s[i].1),
    decreases i,
{
    if i > 0 {
        lemma_lookup_media_first(s.drop_first(), k, i - 1);
    }
}

proof fn lemma_lookup_media_none(s: Seq<(String, MediaType)>, k: Seq<char>)
    requires
        forall|j: int| 0 <= j < s.len() ==> s[j].0@ != k,
    ensures
        lookup_media(s, k) is None,
    decreases s.len(),
{
    if s.len() > 0 {
        lemma_lookup_media_none(s.drop_first(), k);
    }
}

/// The body schema of an operation written out with a request body is the schema of the
/// body's first "application/json" media type; there is none where the body has no such
/// media type or the media type has no schema.
pub proof fn law_body_schema(op: Operation, b: RequestBody)
    requires
        op.request_body == Some(RequestBodyRef::Item(b)),
    ensures
        forall|i: int|
            0 <= i < b.content@.len() && (#[trigger] b.content@[i]).0@ == "application/json"@ && (
            forall|j: int| 0 <= j < i ==> b.content@[j].0@ != "application/json"@)
                ==> body_schema(op) == match b.content@[i].1.schema {
                Some(js) => Some(js.model()),
                None => None,
            },
        (forall|i: int| 0 <= i < b.content@.len() ==> b.content@[i].0@ != "application/json"@)
            ==> body_schema(op) is None,
{
    assert forall|i: int|
        0 <= i < b.content@.len() && (#[trigger] b.content@[i]).0@ == "application/json"@ && (
        forall|j: int| 0 <= j < i ==> b.content@[j].0@ != "application/json"@) implies body_schema(
        op,
    ) == match b.content@[i].1.schema {
        Some(js) => Some(js.model()),
        None => None,
    } by {
        lemma_lookup_media_first(b.content@, "application/json"@, i);
    }
    if forall|i: int| 0 <= i < b.content@.len() ==> b.content@[i].0@ != "application/json"@ {
        lemma_lookup_media_none(b.content@, "application/json"@);
    }
}

/// An operation without a request body written out has no body schema.
pub proof fn law_no_body_schema(op: Operation)
    requires
        !(op.request_body is Some && op.request_body.unwrap() is Item),
    ensures
        body_schema(op) is None,
{
}

proof fn lemma_merge_required_from(req: Seq<Seq<char>>, items: Seq<JsonModel>, s: Seq<char>)
    requires
        merge_required(req, items).contains(s),
    ensures
        req.contains(s) || items.contains(JsonModel::String(s)),
    decreases items.len(),
{
    if items.len() > 0 {
        let d = items.drop_last();
        let r = merge_required(req, d);
        match items.last() {
            JsonModel::String(t) => {
                if !r.contains(t) && t == s {
                    assert(items[items.len() - 1] == JsonModel::String(s));
                } else if !r.contains(t) {
                    let j = choose|j: int| 0 <= j < r.push(t).len() && r.push(t)[j] == s;
                    assert(r[j] == s);
                    lemma_merge_required_from(req, d, s);
                } else {
                    lemma_merge_required_from(req, d, s);
                }
            },
            _ => {
                lemma_merge_required_from(req, d, s);
            },
        }
        if d.contains(JsonModel::String(s)) {
            let j = choose|j: int| 0 <= j < d.len() && d[j] == JsonModel::String(s);
            assert(items[j] == d[j]);
        }
    }
}

/// Every required name of a tool is the name of a required query, path or header parameter
/// or a string of the request-body schema's "required" array.
pub proof fn law_required_names_origin(op: Operation, s: Seq<char>)
    requires
        schema_parts(op).1.contains(s),
    ensures
        (exists|i: int|
            0 <= i < op.parameters@.len() && #[trigger] sent_parameter(op.parameters@[i]) == Some(
                (s, true),
            )) || (body_schema(op) is Some && member(body_schema(op).unwrap(), "required"@) is Some
            && member(body_schema(op).unwrap(), "required"@).unwrap() is Array && member(
            body_schema(op).unwrap(),
            "required"@,
        ).unwrap()->Array_0.contains(JsonModel::String(s))),
{
    let req = params_parts(op.parameters@).1;
    law_parameter_properties(op.parameters@, s);
    match body_schema(op) {
        Some(js) => match member(js, "required"@) {
            Some(JsonModel::Array(items)) => {
                lemma_merge_required_from(req, items, s);
            },
            _ => {},
        },
        None => {},
    }
}

} // verus!

verus! {

proof fn lemma_split_concat(a: Seq<char>, b: Seq<char>, sep: char)
    ensures
        split_on(a.push(sep) + b, sep) == split_on(a, sep) + split_on(b, sep),
    decreases b.len(),
{
    let s = a.push(sep) + b;
    if b.len() == 0 {
        assert(s =~= a.push(sep));
        assert(s.drop_last() =~= a);
        assert(split_on(b, sep) =~= seq![Seq::<char>::empty()]);
        assert(split_on(a, sep).push(Seq::<char>::empty()) =~= split_on(a, sep) + split_on(b, sep));
    } else {
        let b0 = b.drop_last();
        assert(s.drop_last() =~= a.push(sep) + b0);
        assert(s.last() == b.last());
        lemma_split_concat(a, b0, sep);
        lemma_split_on_len(b0, sep);
        let pa = split_on(a, sep);
        let pb = split_on(b0, sep);
        if b.last() == sep {
            assert((pa + pb).push(Seq::<char>::empty()) =~= pa + pb.push(Seq::<char>::empty()));
        } else {
            let n = (pa + pb).len();
            assert((pa + pb).last() == pb.last());
            assert((pa + pb).update(n - 1, pb.last().push(b.last())) =~= pa + pb.update(
                pb.len() - 1,
                pb.last().push(b.last()),
            ));
        }
    }
}

proof fn lemma_split_without_sep(r: Seq<char>, sep: char)
    requires
        !r.contains(sep),
    ensures
        split_on(r, sep) == seq![r],
    decreases r.len(),
{
    if r.len() == 0 {
        assert(r =~= Seq::<char>::empty());
        assert(split_on(r, sep) =~= seq![r]);
    } else {
        let r0 = r.drop_last();
        assert(!r0.contains(sep)) by {
            if r0.contains(sep) {
                let j = choose|j: int| 0 <= j < r0.len() && r0[j] == sep;
                assert(r[j] == sep);
            }
        }
        lemma_split_without_sep(r0, sep);
        assert(r.last() != sep) by {
            assert(r[r.len() - 1] == r.last());
        }
        assert(r0.push(r.last()) =~= r);
        assert(seq![r0].update(0, r0.push(r.last())) =~= seq![r]);
    }
}

proof fn lemma_first_resource_skips(a: Seq<Seq<char>>, b: Seq<Seq<char>>)
    requires
        forall|j: int| 0 <= j < a.len() ==> a[j].len() == 0 || a[j][0] == '{',
    ensures
        first_resource(a + b) == first_resource(b),
    decreases a.len(),
{
    if a.len() > 0 {
        assert((a + b).drop_first() =~= a.drop_first() + b);
        assert((a + b)[0] == a[0]);
        lemma_first_resource_skips(a.drop_first(), b);
    }
}

/// Pieces before the resource that are empty or templates are skipped, not a stop: after a
/// prefix `q` made only of such pieces, a literal piece `r` is the resource, whatever follows
/// it.
pub proof fn law_resource_after_templates(q: Seq<char>, r: Seq<char>, rest: Seq<char>)
    requires
        forall|j: int|
            0 <= j < split_on(q, '/').len() ==> split_on(q, '/')[j].len() == 0 || split_on(
                q,
                '/',
            )[j][0] == '{',
        r.len() > 0,
        r[0] != '{',
        !r.contains('/'),
    ensures
        resource_of(q.push('/') + r) == r,
        resource_of(q.push('/') + r.push('/') + rest) == r,
{
    lemma_split_concat(q, r, '/');
    lemma_split_without_sep(r, '/');
    lemma_first_resource_skips(split_on(q, '/'), split_on(r, '/'));
    assert(q.push('/') + r.push('/') + rest =~= q.push('/') + (r.push('/') + rest));
    lemma_split_concat(q, r.push('/') + rest, '/');
    lemma_split_concat(r, rest, '/');
    lemma_first_resource_skips(split_on(q, '/'), split_on(r.push('/') + rest, '/'));
    assert((seq![r] + split_on(rest, '/'))[0] == r);
}

/// An operation at "/{x}/r", with `r` a literal piece, has the resource `r`, and so the same
/// base name as the same operation at "/r": a leading template piece never changes the name.
pub proof fn law_template_then_literal(
    x: Seq<char>,
    r: Seq<char>,
    method: Seq<char>,
    op_id: Option<Seq<char>>,
)
    requires
        !x.contains('/'),
        r.len() > 0,
        r[0] != '{',
        !r.contains('/'),
    ensures
        resource_of("/{"@ + x + "}/"@ + r) == r,
        resource_of("/"@ + r) == r,
        base_name(method, "/{"@ + x + "}/"@ + r, op_id) == base_name(method, "/"@ + r, op_id),
{
    reveal_strlit("{");
    reveal_strlit("}");
    reveal_strlit("/{");
    reveal_strlit("}/");
    reveal_strlit("/");
    let t = "{"@ + x + "}"@;
    let q = Seq::<char>::empty().push('/') + t;
    assert(!t.contains('/')) by {
        if t.contains('/') {
            let j = choose|j: int| 0 <= j < t.len() && t[j] == '/';
            if 0 < j < t.len() - 1 {
                assert(x[j - 1] == '/');
                assert(x.contains('/'));
            }
        }
    }
    lemma_split_concat(Seq::<char>::empty(), t, '/');
    lemma_split_without_sep(t, '/');
    assert(split_on(Seq::<char>::empty(), '/') =~= seq![Seq::<char>::empty()]);
    assert(split_on(q, '/') =~= seq![Seq::<char>::empty(), t]);
    assert(t[0] == '{');
    law_resource_after_templates(q, r, Seq::empty());
    assert(q.push('/') + r =~= "/{"@ + x + "}/"@ + r);
    law_resource_after_templates(Seq::<char>::empty(), r, Seq::empty());
    assert(Seq::<char>::empty().push('/') + r =~= "/"@ + r);
}

} // verus!

verus! {

/// No number is left under a flag key of any object, at any depth.
pub open spec fn flags_repaired(v: JsonModel) -> bool
    decreases v,
{
    match v {
        JsonModel::Array(items) => forall|i: int|
            0 <= i < items.len() ==> flags_repaired(#[trigger] items[i]),
        JsonModel::Object(es) => forall|i: int|
            0 <= i < es.len() ==> !(repaired_key(es, (#[trigger] es[i]).0) && es[i].1 is Number)
                && flags_repaired(es[i].1),
        _ => true,
    }
}

/// After the repair no number is left under a flag key anywhere in the document, inside
/// parameter objects as much as anywhere else.
pub proof fn law_fix_leaves_no_numeric_flag(v: JsonModel)
    ensures
        flags_repaired(fixed(v)),
    decreases v,
{
    match v {
        JsonModel::Array(items) => {
            lemma_fixed_items(items);
            let f = fixed_items(items);
            assert forall|i: int| 0 <= i < f.len() implies flags_repaired(#[trigger] f[i]) by {
                law_fix_leaves_no_numeric_flag(items[i]);
            }
        },
        JsonModel::Object(es) => {
            let p = is_parameter_object(es);
            lemma_fixed_entries(es, p);
            let f = fixed_entries(es, p);
            assert forall|k: Seq<char>| repaired_key(f, k) == repaired_key(es, k) by {
                if exists|i: int| 0 <= i < es.len() && es[i].0 == "in"@ {
                    let i = choose|i: int| 0 <= i < es.len() && es[i].0 == "in"@;
                    assert(f[i].0 == "in"@);
                }
                if exists|i: int| 0 <= i < es.len() && es[i].0 == "name"@ {
                    let i = choose|i: int| 0 <= i < es.len() && es[i].0 == "name"@;
                    assert(f[i].0 == "name"@);
                }
                if exists|i: int| 0 <= i < f.len() && f[i].0 == "in"@ {
                    let i = choose|i: int| 0 <= i < f.len() && f[i].0 == "in"@;
                    assert(es[i].0 == "in"@);
                }
                if exists|i: int| 0 <= i < f.len() && f[i].0 == "name"@ {
                    let i = choose|i: int| 0 <= i < f.len() && f[i].0 == "name"@;
                    assert(es[i].0 == "name"@);
                }
            }
            assert forall|k: Seq<char>| flag_key(k, p) == repaired_key(es, k) by {}
            assert forall|i: int| 0 <= i < f.len() implies !(repaired_key(f, (#[trigger] f[i]).0)
                && f[i].1 is Number) && flags_repaired(f[i].1) by {
                let x = es[i].1;
                assert(decreases_to!(es => es[i]));
                law_fix_leaves_no_numeric_flag(x);
                if !(flag_key(es[i].0, p) && x is Number) {
                    assert(fixed(x) is Number ==> x is Number);
                }
            }
        },
        _ => {},
    }
}

} // verus!

verus! {

/// A document with no number under a flag key anywhere is left exactly as it is.
pub proof fn law_fix_keeps_repaired(v: JsonModel)
    requires
        flags_repaired(v),
    ensures
        fixed(v) == v,
    decreases v,
{
    match v {
        JsonModel::Array(items) => {
            lemma_fixed_items(items);
            assert forall|i: int| 0 <= i < items.len() implies #[trigger] fixed_items(items)[i]
                == items[i] by {
                law_fix_keeps_repaired(items[i]);
            }
            assert(fixed_items(items) =~= items);
        },
        JsonModel::Object(es) => {
            let p = is_parameter_object(es);
            lemma_fixed_entries(es, p);
            assert forall|k: Seq<char>| flag_key(k, p) == repaired_key(es, k) by {}
            assert forall|i: int| 0 <= i < es.len() implies #[trigger] fixed_entries(es, p)[i]
                == es[i] by {
                assert(decreases_to!(es => es[i]));
                law_fix_keeps_repaired(es[i].1);
            }
            assert(fixed_entries(es, p) =~= es);
        },
        _ => {},
    }
}

} // verus!

verus! {

proof fn lemma_suffix_after_scheme(scheme: Seq<char>, p: Seq<char>, sfx: Seq<char>)
    requires
        scheme.len() > 0,
        scheme.last() == '/',
        !sfx.contains('/'),
    ensures
        has_suffix(scheme + p, sfx) == has_suffix(p, sfx),
{
    let s = scheme + p;
    if sfx.len() <= p.len() {
        assert(s.skip(s.len() - sfx.len()) =~= p.skip(p.len() - sfx.len()));
    } else if has_suffix(s, sfx) {
        let j = sfx.len() - p.len() - 1;
        assert(s.skip(s.len() - sfx.len())[j] == s[scheme.len() - 1]);
        assert(sfx[j] == '/');
        assert(sfx.contains('/'));
    }
}

/// A document's format follows its name's ending whether it is fetched or read from a file:
/// any name ending in ".yaml" or ".yml" is YAML, and putting "http://" or "https://" in
/// front of a name never changes its format.
pub proof fn law_format_ignores_scheme(p: Seq<char>)
    ensures
        spec_format_of(p + ".yaml"@) is Yaml,
        spec_format_of(p + ".yml"@) is Yaml,
        spec_format_of("https://"@ + p) == spec_format_of(p),
        spec_format_of("http://"@ + p) == spec_format_of(p),
{
    reveal_strlit(".yaml");
    reveal_strlit(".yml");
    reveal_strlit("https://");
    reveal_strlit("http://");
    assert((p + ".yaml"@).skip(p.len() as int) =~= ".yaml"@);
    assert((p + ".yml"@).skip(p.len() as int) =~= ".yml"@);
    assert(!".yaml"@.contains('/')) by {
        if ".yaml"@.contains('/') {
            let j = choose|j: int| 0 <= j < 5 && ".yaml"@[j] == '/';
        }
    }
    assert(!".yml"@.contains('/')) by {
        if ".yml"@.contains('/') {
            let j = choose|j: int| 0 <= j < 4 && ".yml"@[j] == '/';
        }
    }
    lemma_suffix_after_scheme("https://"@, p, ".yaml"@);
    lemma_suffix_after_scheme("https://"@, p, ".yml"@);
    lemma_suffix_after_scheme("http://"@, p, ".yaml"@);
    lemma_suffix_after_scheme("http://"@, p, ".yml"@);
}

} // verus!

verus! {

/// The request planned for a tool call sends its arguments by the tool's method: for a POST,
/// PUT or PATCH tool any argument value but `null` is the body, unchanged, and never a query
/// string; for a GET or DELETE tool a non-empty argument object is the query string and no
/// body is sent.
pub proof fn law_plan_sends_args_by_method(
    config: Config,
    servers: Seq<Seq<char>>,
    tool: Tool,
    args: JsonModel,
)
    ensures
        (tool.method@ == "POST"@ || tool.method@ == "PUT"@ || tool.method@ == "PATCH"@) && !(
        args is Null) ==> plan_of(config, servers, tool, args) == Some(
            PlanModel { args: ArgsModel::Body(args), ..plan_of(config, servers, tool, args).unwrap() },
        ),
        (tool.method@ == "GET"@ || tool.method@ == "DELETE"@) ==> (plan_of(
            config,
            servers,
            tool,
            args,
        ) matches Some(p) && !(p.args is Body) && (p.args is Query <==> (args matches JsonModel::Object(
            es,
        ) && es.len() > 0))),
        plan_of(config, servers, tool, args) matches Some(p) && p.args is Query ==> (tool.method@
            == "GET"@ || tool.method@ == "DELETE"@),
{
    law_method_names(tool.method@);
}

} // verus!

verus! {

/// The input schema of a tool with properties lists under "required" every string of its
/// request-body schema's "required" array, whether or not any parameter is required.
pub proof fn law_tool_lists_body_required(
    path: Seq<char>,
    method: Seq<char>,
    op: Operation,
    earlier: nat,
    k: int,
    s: Seq<char>,
)
    requires
        body_schema(op) matches Some(js) && member(js, "required"@) matches Some(
            JsonModel::Array(items),
        ) && 0 <= k < items.len() && items[k] == JsonModel::String(s),
        member(tool_model(path, method, op, earlier).schema, "properties"@) != Some(
            JsonModel::Object(Seq::empty()),
        ),
    ensures
        member(tool_model(path, method, op, earlier).schema, "required"@) matches Some(
            JsonModel::Array(a),
        ) && a.contains(JsonModel::String(s)),
{
    let parts = schema_parts(op);
    law_body_required_names_kept(op, k, s);
    law_schema_shape(parts.0, parts.1);
    if parts.0.len() == 0 {
        assert(parts.0 =~= Seq::empty());
    }
    let a = member(schema_of(parts.0, parts.1), "required"@).unwrap()->Array_0;
    let j = choose|j: int| 0 <= j < parts.1.len() && parts.1[j] == s;
    assert(a[j] == JsonModel::String(s));
}

} // verus!

verus! {

/// A call is answered as a success exactly for the statuses 200 to 299.
pub proof fn law_success_statuses(status: u16)
    ensures
        is_success(status) <==> 200 <= status < 300,
        is_success(200) && is_success(299) && !is_success(199) && !is_success(300),
{
}

} // verus!
