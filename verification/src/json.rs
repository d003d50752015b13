//! A JSON value of the library's own, its mathematical model, and the repair of
//! numeric flags that some OpenAPI documents write where a boolean belongs.

use vstd::prelude::*;

verus! {

/// A JSON number: its text as the JSON document writes it, and whether its value as a
/// floating-point number differs from zero.
#[derive(Debug)]
pub struct JsonNumber {
    pub text: String,
    pub nonzero: bool,
}

/// A JSON value. An object is a list of entries whose keys are distinct.
#[derive(Debug)]
pub enum JsonValue {
    Null,
    Bool(bool),
    Number(JsonNumber),
    String(String),
    Array(Vec<JsonValue>),
    Object(Vec<(String, JsonValue)>),
}

/// The mathematical model of a JSON value.
pub enum JsonModel {
    Null,
    Bool(bool),
    Number(Seq<char>, bool),
    String(Seq<char>),
    Array(Seq<JsonModel>),
    Object(Seq<(Seq<char>, JsonModel)>),
}

impl JsonValue {
    /// The model of this value.
    pub open spec fn model(self) -> JsonModel
        decreases self,
    {
        match self {
            JsonValue::Null => JsonModel::Null,
            JsonValue::Bool(b) => JsonModel::Bool(b),
            JsonValue::Number(n) => JsonModel::Number(n.text@, n.nonzero),
            JsonValue::String(s) => JsonModel::String(s@),
            JsonValue::Array(items) => JsonModel::Array(item_models(items@)),
            JsonValue::Object(entries) => JsonModel::Object(entry_models(entries@)),
        }
    }
}

/// The models of a sequence of values.
pub open spec fn item_models(s: Seq<JsonValue>) -> Seq<JsonModel>
    decreases s,
{
    if s.len() == 0 {
        Seq::<JsonModel>::empty()
    } else {
        item_models(s.drop_last()).push(s.last().model())
    }
}

/// The models of a sequence of object entries.
pub open spec fn entry_models(s: Seq<(String, JsonValue)>) -> Seq<(Seq<char>, JsonModel)>
    decreases s,
{
    if s.len() == 0 {
        Seq::<(Seq<char>, JsonModel)>::empty()
    } else {
        entry_models(s.drop_last()).push((s.last().0@, s.last().1.model()))
    }
}

pub proof fn lemma_item_models(s: Seq<JsonValue>)
    ensures
        item_models(s).len() == s.len(),
        forall|i: int| 0 <= i < s.len() ==> #[trigger] item_models(s)[i] == s[i].model(),
    decreases s.len(),
{
    if s.len() > 0 {
        lemma_item_models(s.drop_last());
    }
}

pub proof fn lemma_entry_models(s: Seq<(String, JsonValue)>)
    ensures
        entry_models(s).len() == s.len(),
        forall|i: int|
            0 <= i < s.len() ==> #[trigger] entry_models(s)[i] == (s[i].0@, s[i].1.model()),
    decreases s.len(),
{
    if s.len() > 0 {
        lemma_entry_models(s.drop_last());
    }
}

/// Whether some entry has key `k`.
pub open spec fn has_key(es: Seq<(Seq<char>, JsonModel)>, k: Seq<char>) -> bool {
    exists|i: int| 0 <= i < es.len() && es[i].0 == k
}

/// Whether `i` is the first entry with key `k`.
pub open spec fn is_first_key(es: Seq<(Seq<char>, JsonModel)>, k: Seq<char>, i: int) -> bool {
    &&& 0 <= i < es.len()
    &&& es[i].0 == k
    &&& forall|j: int| 0 <= j < i ==> es[j].0 != k
}

/// The value of the first entry with key `k`.
pub open spec fn get_key(es: Seq<(Seq<char>, JsonModel)>, k: Seq<char>) -> Option<JsonModel> {
    if has_key(es, k) {
        Some(es[choose|i: int| is_first_key(es, k, i)].1)
    } else {
        None
    }
}

/// The entries after setting `k` to `v`: the value of the first entry with key `k` is
/// replaced in place where `k` is present, and the entry is added at the end where it is
/// not (an object is a map; the order of its entries carries no meaning).
pub open spec fn put_key(es: Seq<(Seq<char>, JsonModel)>, k: Seq<char>, v: JsonModel) -> Seq<
    (Seq<char>, JsonModel),
> {
    if has_key(es, k) {
        es.update(choose|i: int| is_first_key(es, k, i), (k, v))
    } else {
        es.push((k, v))
    }
}

/// The value under key `k` of a JSON object: none
/// where `v` is not an object.
pub open spec fn member(v: JsonModel, k: Seq<char>) -> Option<JsonModel> {
    match v {
        JsonModel::Object(es) => get_key(es, k),
        _ => None,
    }
}

/// The first position of key `k` among the entries, if any.
pub fn find_key(es: &Vec<(String, JsonValue)>, k: &String) -> (r: Option<usize>)
    ensures
        match r {
            Some(i) => is_first_key(entry_models(es@), k@, i as int)
                && i == choose|j: int| is_first_key(entry_models(es@), k@, j),
            None => !has_key(entry_models(es@), k@),
        },
{
    proof {
        lemma_entry_models(es@);
    }
    let ghost m = entry_models(es@);
    let n = es.len();
    for i in 0..n
        invariant
            n == es@.len() == m.len(),
            m == entry_models(es@),
            forall|j: int| 0 <= j < n ==> #[trigger] m[j] == (es@[j].0@, es@[j].1.model()),
            forall|j: int| 0 <= j < i ==> m[j].0 != k@,
    {
        if es[i].0 == *k {
            assert(is_first_key(m, k@, i as int));
            let ghost c = choose|j: int| is_first_key(m, k@, j);
            assert(c == i) by {
                if c < i {
                    assert(m[c].0 != k@);
                } else if c > i {
                    assert(m[i as int].0 != k@);
                }
            }
            return Some(i);
        }
    }
    None
}

impl JsonValue {
    /// A copy of this value.
    #[verifier::loop_isolation(false)]
    pub fn deep_copy(&self) -> (r: JsonValue)
        ensures
            r.model() == self.model(),
        decreases self,
    {
        match self {
            JsonValue::Null => JsonValue::Null,
            JsonValue::Bool(b) => JsonValue::Bool(*b),
            JsonValue::Number(n) => JsonValue::Number(
                JsonNumber { text: n.text.clone(), nonzero: n.nonzero },
            ),
            JsonValue::String(s) => JsonValue::String(s.clone()),
            JsonValue::Array(items) => {
                let mut out: Vec<JsonValue> = Vec::new();
                let n = items.len();
                for i in 0..n
                    invariant
                        n == items@.len(),
                        item_models(out@) == item_models(items@.take(i as int)),
                {
                    proof {
                        assert(decreases_to!(*items => items[i as int]));
                    }
                    let c = items[i].deep_copy();
                    let ghost prev = out@;
                    out.push(c);
                    assert(items@.take(i + 1).drop_last() =~= items@.take(i as int));
                    assert(out@.drop_last() =~= prev);
                }
                assert(items@.take(n as int) =~= items@);
                JsonValue::Array(out)
            },
            JsonValue::Object(entries) => {
                let mut out: Vec<(String, JsonValue)> = Vec::new();
                let n = entries.len();
                for i in 0..n
                    invariant
                        n == entries@.len(),
                        entry_models(out@) == entry_models(entries@.take(i as int)),
                {
                    let k = entries[i].0.clone();
                    proof {
                        assert(decreases_to!(*entries => entries[i as int]));
                    }
                    let v = entries[i].1.deep_copy();
                    let ghost prev = out@;
                    out.push((k, v));
                    assert(entries@.take(i + 1).drop_last() =~= entries@.take(i as int));
                    assert(out@.drop_last() =~= prev);
                }
                assert(entries@.take(n as int) =~= entries@);
                JsonValue::Object(out)
            },
        }
    }
}


/// Keys whose numeric value is turned into a boolean in a parameter object.
pub open spec fn parameter_flag(k: Seq<char>) -> bool {
    k == "required"@ || k == "deprecated"@
}

/// Keys whose numeric value is turned into a boolean in any other object.
pub open spec fn schema_flag(k: Seq<char>) -> bool {
    ||| k == "deprecated"@
    ||| k == "nullable"@
    ||| k == "readOnly"@
    ||| k == "writeOnly"@
    ||| k == "uniqueItems"@
    ||| k == "exclusiveMinimum"@
    ||| k == "exclusiveMaximum"@
    ||| k == "allowEmptyValue"@
}

/// An object is taken for a parameter object when it has both an "in" and a "name" key.
pub open spec fn is_parameter_object(es: Seq<(Seq<char>, JsonModel)>) -> bool {
    has_key(es, "in"@) && has_key(es, "name"@)
}

pub open spec fn flag_key(k: Seq<char>, parameter: bool) -> bool {
    if parameter {
        parameter_flag(k)
    } else {
        schema_flag(k)
    }
}

/// `v` with every numeric flag turned into a boolean (`false` for zero, `true` otherwise),
/// at every depth.
pub open spec fn fixed(v: JsonModel) -> JsonModel
    decreases v,
{
    match v {
        JsonModel::Array(items) => JsonModel::Array(fixed_items(items)),
        JsonModel::Object(es) => JsonModel::Object(fixed_entries(es, is_parameter_object(es))),
        _ => v,
    }
}

pub open spec fn fixed_items(s: Seq<JsonModel>) -> Seq<JsonModel>
    decreases s,
{
    if s.len() == 0 {
        Seq::<JsonModel>::empty()
    } else {
        fixed_items(s.drop_last()).push(fixed(s.last()))
    }
}

pub open spec fn fixed_entries(es: Seq<(Seq<char>, JsonModel)>, parameter: bool) -> Seq<
    (Seq<char>, JsonModel),
>
    decreases es,
{
    if es.len() == 0 {
        Seq::<(Seq<char>, JsonModel)>::empty()
    } else {
        let k = es.last().0;
        let v = es.last().1;
        fixed_entries(es.drop_last(), parameter).push(
            (
                k,
                if flag_key(k, parameter) && v is Number {
                    JsonModel::Bool(v->1)
                } else {
                    fixed(v)
                },
            ),
        )
    }
}

/// The value that one entry gets from the repair.
pub open spec fn fixed_field(k: Seq<char>, v: JsonModel, parameter: bool) -> JsonModel {
    if flag_key(k, parameter) && v is Number {
        JsonModel::Bool(v->1)
    } else {
        fixed(v)
    }
}

pub proof fn lemma_fixed_items(s: Seq<JsonModel>)
    ensures
        fixed_items(s).len() == s.len(),
        forall|i: int| 0 <= i < s.len() ==> #[trigger] fixed_items(s)[i] == fixed(s[i]),
    decreases s.len(),
{
    if s.len() > 0 {
        lemma_fixed_items(s.drop_last());
    }
}

pub proof fn lemma_fixed_entries(es: Seq<(Seq<char>, JsonModel)>, parameter: bool)
    ensures
        fixed_entries(es, parameter).len() == es.len(),
        forall|i: int|
            0 <= i < es.len() ==> #[trigger] fixed_entries(es, parameter)[i] == (
                es[i].0,
                fixed_field(es[i].0, es[i].1, parameter),
            ),
    decreases es.len(),
{
    if es.len() > 0 {
        lemma_fixed_entries(es.drop_last(), parameter);
    }
}

fn lit(s: &str) -> (r: String)
    ensures
        r@ == s@,
{
    s.to_owned()
}

fn is_flag(k: &String, parameter: bool) -> (r: bool)
    ensures
        r == flag_key(k@, parameter),
{
    if parameter {
        *k == lit("required") || *k == lit("deprecated")
    } else {
        *k == lit("deprecated") || *k == lit("nullable") || *k == lit("readOnly") || *k == lit(
            "writeOnly",
        ) || *k == lit("uniqueItems") || *k == lit("exclusiveMinimum") || *k == lit(
            "exclusiveMaximum",
        ) || *k == lit("allowEmptyValue")
    }
}

/// The repaired copy of `v`.
#[verifier::loop_isolation(false)]
pub fn fixed_copy(v: &JsonValue) -> (r: JsonValue)
    ensures
        r.model() == fixed(v.model()),
    decreases v,
{
    match v {
        JsonValue::Array(items) => {
            let mut out: Vec<JsonValue> = Vec::new();
            let n = items.len();
            for i in 0..n
                invariant
                    n == items@.len(),
                    item_models(out@) == fixed_items(item_models(items@.take(i as int))),
            {
                proof {
                    assert(decreases_to!(*items => items[i as int]));
                }
                let c = fixed_copy(&items[i]);
                let ghost prev = out@;
                out.push(c);
                assert(items@.take(i + 1).drop_last() =~= items@.take(i as int));
                assert(out@.drop_last() =~= prev);
                assert(item_models(items@.take(i + 1)).drop_last() =~= item_models(
                    items@.take(i as int),
                ));
            }
            assert(items@.take(n as int) =~= items@);
            JsonValue::Array(out)
        },
        JsonValue::Object(entries) => {
            let ghost es = entry_models(entries@);
            let has_in = find_key(entries, &lit("in")).is_some();
            let has_name = find_key(entries, &lit("name")).is_some();
            let parameter = has_in && has_name;
            assert(parameter == is_parameter_object(es));
            let mut out: Vec<(String, JsonValue)> = Vec::new();
            let n = entries.len();
            for i in 0..n
                invariant
                    n == entries@.len(),
                    entry_models(out@) == fixed_entries(
                        entry_models(entries@.take(i as int)),
                        parameter,
                    ),
            {
                proof {
                    assert(decreases_to!(*entries => entries[i as int]));
                }
                let k = entries[i].0.clone();
                let fv = match &entries[i].1 {
                    JsonValue::Number(num) => {
                        if is_flag(&k, parameter) {
                            JsonValue::Bool(num.nonzero)
                        } else {
                            fixed_copy(&entries[i].1)
                        }
                    },
                    _ => fixed_copy(&entries[i].1),
                };
                let ghost prev = out@;
                out.push((k, fv));
                assert(entries@.take(i + 1).drop_last() =~= entries@.take(i as int));
                assert(out@.drop_last() =~= prev);
                let ghost cur = entry_models(entries@.take(i + 1));
                assert(cur.drop_last() =~= entry_models(entries@.take(i as int)));
                assert(cur.last() == (k@, entries@[i as int].1.model()));
                assert(fv.model() == fixed_field(k@, entries@[i as int].1.model(), parameter));
                assert(entry_models(out@) =~= fixed_entries(cur, parameter));
            }
            assert(entries@.take(n as int) =~= entries@);
            JsonValue::Object(out)
        },
        JsonValue::Null => JsonValue::Null,
        JsonValue::Bool(b) => JsonValue::Bool(*b),
        JsonValue::Number(num) => JsonValue::Number(
            JsonNumber { text: num.text.clone(), nonzero: num.nonzero },
        ),
        JsonValue::String(s) => JsonValue::String(s.clone()),
    }
}

/// Turns numeric flags into booleans, at every depth: in an object with both an "in" and a
/// "name" key (a parameter) the keys "required" and "deprecated", in any other object the
/// keys "deprecated", "nullable", "readOnly", "writeOnly", "uniqueItems",
/// "exclusiveMinimum", "exclusiveMaximum" and "allowEmptyValue". Zero becomes `false`, any
/// other number `true`; everything else is left as it is.
pub fn fix_value(value: &mut JsonValue)
    ensures
        final(value).model() == fixed(old(value).model()),
{
    let r = fixed_copy(value);
    *value = r;
}


pub proof fn lemma_fixed_entries_keys(es: Seq<(Seq<char>, JsonModel)>, parameter: bool, k: Seq<char>)
    ensures
        has_key(fixed_entries(es, parameter), k) == has_key(es, k),
{
    lemma_fixed_entries(es, parameter);
    let f = fixed_entries(es, parameter);
    if has_key(es, k) {
        let i = choose|i: int| 0 <= i < es.len() && es[i].0 == k;
        assert(f[i].0 == k);
    }
    if has_key(f, k) {
        let i = choose|i: int| 0 <= i < f.len() && f[i].0 == k;
        assert(es[i].0 == k);
    }
}

/// Repairing numeric flags twice gives what repairing them once gives.
pub proof fn lemma_fix_idempotent(v: JsonModel)
    ensures
        fixed(fixed(v)) == fixed(v),
    decreases v,
{
    match v {
        JsonModel::Array(items) => {
            let f = fixed_items(items);
            lemma_fixed_items(items);
            lemma_fixed_items(f);
            assert forall|i: int| 0 <= i < items.len() implies fixed(f[i]) == f[i] by {
                lemma_fix_idempotent(items[i]);
            }
            assert(fixed_items(f) =~= f);
        },
        JsonModel::Object(es) => {
            let p = is_parameter_object(es);
            let f = fixed_entries(es, p);
            lemma_fixed_entries(es, p);
            lemma_fixed_entries_keys(es, p, "in"@);
            lemma_fixed_entries_keys(es, p, "name"@);
            assert(is_parameter_object(f) == p);
            lemma_fixed_entries(f, p);
            assert forall|i: int| 0 <= i < es.len() implies fixed_field(f[i].0, f[i].1, p)
                == f[i].1 by {
                let k = es[i].0;
                let x = es[i].1;
                assert(decreases_to!(es => es[i]));
                lemma_fix_idempotent(x);
                if flag_key(k, p) && x is Number {
                } else {
                    assert(fixed(x) is Number ==> x is Number);
                }
            }
            assert(fixed_entries(f, p) =~= f);
        },
        _ => {},
    }
}

} // verus!
