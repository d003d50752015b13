use openapi_mcp_bridge::json::{JsonNumber, JsonValue};
use openapi_mcp_bridge::openapi::{after_parse, ParseAction, ParseStage};
use openapi_mcp_bridge::openapi::{
    extract_tools, spec_format, spec_source, ApiSpec, MediaType, Operation, Parameter,
    ParameterData, ParameterRef, PathEntry, PathItem, PathItemRef, RequestBody, RequestBodyRef,
    SpecFormat, SpecSource,
};

fn s(x: &str) -> JsonValue {
    JsonValue::String(x.to_string())
}

fn obj(entries: Vec<(&str, JsonValue)>) -> JsonValue {
    JsonValue::Object(entries.into_iter().map(|(k, v)| (k.to_string(), v)).collect())
}

fn same(a: &JsonValue, b: &JsonValue) -> bool {
    match (a, b) {
        (JsonValue::Null, JsonValue::Null) => true,
        (JsonValue::Bool(x), JsonValue::Bool(y)) => x == y,
        (JsonValue::Number(x), JsonValue::Number(y)) => x.text == y.text && x.nonzero == y.nonzero,
        (JsonValue::String(x), JsonValue::String(y)) => x == y,
        (JsonValue::Array(x), JsonValue::Array(y)) => {
            x.len() == y.len() && x.iter().zip(y.iter()).all(|(p, q)| same(p, q))
        }
        (JsonValue::Object(x), JsonValue::Object(y)) => {
            x.len() == y.len()
                && x.iter().zip(y.iter()).all(|(p, q)| p.0 == q.0 && same(&p.1, &q.1))
        }
        _ => false,
    }
}

fn op(id: Option<&str>) -> Operation {
    Operation {
        operation_id: id.map(|x| x.to_string()),
        summary: None,
        description: None,
        parameters: Vec::new(),
        request_body: None,
    }
}

fn empty_item() -> PathItem {
    PathItem { get: None, post: None, put: None, delete: None, patch: None }
}

fn entry(path: &str, item: PathItem) -> PathEntry {
    PathEntry { path: path.to_string(), item: PathItemRef::Item(item) }
}

fn names(spec: &ApiSpec) -> Vec<String> {
    extract_tools(spec).into_iter().map(|t| t.name).collect()
}

#[test]
fn names_keep_method_resource_and_operation() {
    let mut terms_id = empty_item();
    terms_id.get = Some(op(Some("detail")));
    terms_id.put = Some(op(Some("update")));
    terms_id.delete = Some(op(Some("remove")));
    let mut terms = empty_item();
    terms.get = Some(op(Some("page")));
    terms.post = Some(op(Some("create")));
    let mut tree = empty_item();
    tree.get = Some(op(Some("tree")));
    let mut status = empty_item();
    status.patch = Some(op(Some("changeStatus")));
    let spec = ApiSpec {
        servers: Vec::new(),
        paths: vec![
            entry("/terms/{id}", terms_id),
            entry("/terms", terms),
            entry("/categories/tree", tree),
            entry("/terms/{id}/status", status),
        ],
    };
    assert_eq!(
        names(&spec),
        vec![
            "get_terms_detail",
            "put_terms_update",
            "delete_terms_remove",
            "get_terms_page",
            "post_terms_create",
            "get_categories_tree",
            "patch_terms_changestatus",
        ]
    );
}

#[test]
fn methods_come_in_fixed_order() {
    let mut item = empty_item();
    item.patch = Some(op(Some("e")));
    item.delete = Some(op(Some("d")));
    item.put = Some(op(Some("c")));
    item.post = Some(op(Some("b")));
    item.get = Some(op(Some("a")));
    let tools = extract_tools(&ApiSpec { servers: Vec::new(), paths: vec![entry("/x", item)] });
    let methods: Vec<String> = tools.iter().map(|t| t.method.clone()).collect();
    assert_eq!(methods, vec!["GET", "POST", "PUT", "DELETE", "PATCH"]);
    assert!(tools.iter().all(|t| t.path == "/x"));
}

#[test]
fn duplicates_get_numbered_suffixes() {
    let mut a = empty_item();
    a.get = Some(op(Some("detail")));
    let mut b = empty_item();
    b.get = Some(op(Some("detail")));
    let mut c = empty_item();
    c.get = Some(op(Some("detail")));
    let spec = ApiSpec {
        servers: Vec::new(),
        paths: vec![entry("/terms/{id}", a), entry("/terms/{code}", b), entry("/terms", c)],
    };
    assert_eq!(names(&spec), vec!["get_terms_detail", "get_terms_detail_2", "get_terms_detail_3"]);
}

#[test]
fn fallbacks_for_resource_and_operation() {
    let mut root = empty_item();
    root.get = Some(op(None));
    let mut param_only = empty_item();
    param_only.post = Some(op(Some("Make-It")));
    let mut dashed = empty_item();
    dashed.get = Some(op(Some("list-all")));
    let spec = ApiSpec {
        servers: Vec::new(),
        paths: vec![entry("/", root), entry("/{id}", param_only), entry("/My-Items/{x}", dashed)],
    };
    assert_eq!(names(&spec), vec!["get_api_unknown", "post_api_make_it", "get_my_items_list_all"]);
}

#[test]
fn referenced_path_items_give_no_tools() {
    let mut item = empty_item();
    item.get = Some(op(Some("a")));
    let spec = ApiSpec {
        servers: Vec::new(),
        paths: vec![
            PathEntry {
                path: "/ref".to_string(),
                item: PathItemRef::Reference("#/components/pathItems/x".to_string()),
            },
            entry("/a", item),
        ],
    };
    assert_eq!(names(&spec), vec!["get_a_a"]);
}

#[test]
fn description_prefers_summary_then_description() {
    let mut o1 = op(Some("a"));
    o1.summary = Some("Sum".to_string());
    o1.description = Some("Desc".to_string());
    let mut o2 = op(Some("b"));
    o2.description = Some("Desc".to_string());
    let o3 = op(Some("c"));
    let mut item = empty_item();
    item.get = Some(o1);
    item.post = Some(o2);
    item.put = Some(o3);
    let tools = extract_tools(&ApiSpec { servers: Vec::new(), paths: vec![entry("/p/{id}", item)] });
    let d: Vec<String> = tools.iter().map(|t| t.description.clone()).collect();
    assert_eq!(d, vec!["Sum", "Desc", "PUT /p/{id}"]);
}

#[test]
fn operation_without_arguments_has_empty_schema() {
    let mut item = empty_item();
    item.get = Some(op(Some("a")));
    let tools = extract_tools(&ApiSpec { servers: Vec::new(), paths: vec![entry("/a", item)] });
    let expected = obj(vec![("type", s("object")), ("properties", obj(vec![]))]);
    assert!(same(&tools[0].schema, &expected), "{:?}", tools[0].schema);
}

fn data(name: &str, required: bool) -> ParameterData {
    ParameterData { name: name.to_string(), required }
}

#[test]
fn parameters_and_body_make_the_schema() {
    let mut o = op(Some("create"));
    o.parameters = vec![
        ParameterRef::Item(Parameter::Path(data("id", true))),
        ParameterRef::Item(Parameter::Query(data("verbose", false))),
        ParameterRef::Item(Parameter::Cookie(data("session", true))),
        ParameterRef::Reference("#/components/parameters/x".to_string()),
        ParameterRef::Item(Parameter::Header(data("X-Trace", true))),
    ];
    let body_schema = obj(vec![
        ("type", s("object")),
        (
            "properties",
            obj(vec![("name", obj(vec![("type", s("string"))])), ("id", obj(vec![("type", s("integer"))]))]),
        ),
        ("required", JsonValue::Array(vec![s("name"), s("id"), JsonValue::Bool(true)])),
    ]);
    o.request_body = Some(RequestBodyRef::Item(RequestBody {
        content: vec![
            ("text/plain".to_string(), MediaType { schema: Some(obj(vec![("type", s("string"))])) }),
            ("application/json".to_string(), MediaType { schema: Some(body_schema) }),
        ],
    }));
    let mut item = empty_item();
    item.post = Some(o);
    let tools = extract_tools(&ApiSpec { servers: Vec::new(), paths: vec![entry("/things/{id}", item)] });
    let param = |n: &str| {
        obj(vec![("type", s("string")), ("description", s(&format!("Parameter {}", n)))])
    };
    let expected = obj(vec![
        ("type", s("object")),
        (
            "properties",
            obj(vec![
                ("id", obj(vec![("type", s("integer"))])),
                ("verbose", param("verbose")),
                ("X-Trace", param("X-Trace")),
                ("name", obj(vec![("type", s("string"))])),
            ]),
        ),
        ("required", JsonValue::Array(vec![s("id"), s("X-Trace"), s("name")])),
    ]);
    assert_eq!(tools[0].name, "post_things_create");
    assert!(same(&tools[0].schema, &expected), "{:?}", tools[0].schema);
}

#[test]
fn required_without_properties_is_dropped() {
    let mut o = op(Some("x"));
    o.request_body = Some(RequestBodyRef::Item(RequestBody {
        content: vec![(
            "application/json".to_string(),
            MediaType {
                schema: Some(obj(vec![("required", JsonValue::Array(vec![s("a")]))])),
            },
        )],
    }));
    let mut item = empty_item();
    item.put = Some(o);
    let tools = extract_tools(&ApiSpec { servers: Vec::new(), paths: vec![entry("/x", item)] });
    let expected = obj(vec![("type", s("object")), ("properties", obj(vec![]))]);
    assert!(same(&tools[0].schema, &expected));
}

#[test]
fn repeated_required_parameters_are_listed_again() {
    let mut o = op(Some("x"));
    o.parameters = vec![
        ParameterRef::Item(Parameter::Query(data("q", true))),
        ParameterRef::Item(Parameter::Header(data("q", true))),
    ];
    let mut item = empty_item();
    item.get = Some(o);
    let tools = extract_tools(&ApiSpec { servers: Vec::new(), paths: vec![entry("/x", item)] });
    let expected = obj(vec![
        ("type", s("object")),
        (
            "properties",
            obj(vec![("q", obj(vec![("type", s("string")), ("description", s("Parameter q"))]))]),
        ),
        ("required", JsonValue::Array(vec![s("q"), s("q")])),
    ]);
    assert!(same(&tools[0].schema, &expected), "{:?}", tools[0].schema);
}

#[test]
fn numbers_in_schemas_are_kept() {
    let mut o = op(Some("x"));
    let n = JsonValue::Number(JsonNumber { text: "3".to_string(), nonzero: true });
    o.request_body = Some(RequestBodyRef::Item(RequestBody {
        content: vec![(
            "application/json".to_string(),
            MediaType { schema: Some(obj(vec![("properties", obj(vec![("n", n)]))])) },
        )],
    }));
    let mut item = empty_item();
    item.post = Some(o);
    let tools = extract_tools(&ApiSpec { servers: Vec::new(), paths: vec![entry("/x", item)] });
    let expected = obj(vec![
        ("type", s("object")),
        (
            "properties",
            obj(vec![("n", JsonValue::Number(JsonNumber { text: "3".to_string(), nonzero: true }))]),
        ),
    ]);
    assert!(same(&tools[0].schema, &expected));
}

#[test]
fn where_and_how_the_document_is_read() {
    assert!(matches!(spec_source("https://api.example.com/openapi.json"), SpecSource::Remote));
    assert!(matches!(spec_source("http://localhost/openapi.json"), SpecSource::Remote));
    assert!(matches!(spec_source("./openapi.json"), SpecSource::File));
    assert!(matches!(spec_format("/path/spec.yaml"), SpecFormat::Yaml));
    assert!(matches!(spec_format("spec.yml"), SpecFormat::Yaml));
    assert!(matches!(spec_format("spec.json"), SpecFormat::Json));
    assert!(matches!(spec_format("https://x/openapi"), SpecFormat::Json));
}

#[test]
fn lowercasing_is_unicode_aware() {
    let mut item = empty_item();
    item.get = Some(op(Some("ÜBER")));
    assert_eq!(names(&ApiSpec { servers: Vec::new(), paths: vec![entry("/ÄPFEL", item)] }), vec!["get_äpfel_über"]);
}

#[test]
fn suffix_collision_when_a_base_name_looks_numbered() {
    // The names stay distinct only when no base name is another one with "_<n>" appended;
    // here "get_a_b_2" is such a base name, and two tools end up with the same name.
    let mut first = empty_item();
    first.get = Some(op(Some("b")));
    let mut second = empty_item();
    second.get = Some(op(Some("b")));
    let mut third = empty_item();
    third.get = Some(op(Some("b_2")));
    let spec = ApiSpec {
        servers: Vec::new(),
        paths: vec![entry("/a", first), entry("/a/{x}", second), entry("/a/y", third)],
    };
    assert_eq!(names(&spec), vec!["get_a_b", "get_a_b_2", "get_a_b_2"]);
}

#[test]
fn one_tool_per_operation() {
    let mut a = empty_item();
    a.get = Some(op(Some("x")));
    a.delete = Some(op(Some("y")));
    let mut b = empty_item();
    b.patch = Some(op(Some("z")));
    let spec = ApiSpec { servers: Vec::new(), paths: vec![entry("/a", a), entry("/b", empty_item()), entry("/c", b)] };
    let tools = extract_tools(&spec);
    let sites: Vec<(String, String)> =
        tools.iter().map(|t| (t.path.clone(), t.method.clone())).collect();
    assert_eq!(
        sites,
        vec![
            ("/a".to_string(), "GET".to_string()),
            ("/a".to_string(), "DELETE".to_string()),
            ("/c".to_string(), "PATCH".to_string()),
        ]
    );
}

#[test]
fn parse_decisions() {
    assert!(matches!(after_parse(&SpecFormat::Json, &ParseStage::Direct, true), ParseAction::Accept));
    assert!(matches!(after_parse(&SpecFormat::Json, &ParseStage::Direct, false), ParseAction::RepairAndRetry));
    assert!(matches!(after_parse(&SpecFormat::Json, &ParseStage::Repaired, true), ParseAction::Accept));
    assert!(matches!(after_parse(&SpecFormat::Json, &ParseStage::Repaired, false), ParseAction::Fail));
    assert!(matches!(after_parse(&SpecFormat::Yaml, &ParseStage::Direct, false), ParseAction::Fail));
    assert!(matches!(after_parse(&SpecFormat::Yaml, &ParseStage::Direct, true), ParseAction::Accept));
}
