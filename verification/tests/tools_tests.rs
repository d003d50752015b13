use openapi_mcp_bridge::config::Config;
use openapi_mcp_bridge::handler::{call_outcome, find_tool, input_schema};
use openapi_mcp_bridge::json::JsonValue;
use openapi_mcp_bridge::state::Tool;
use openapi_mcp_bridge::tools::{
    finish_response, parse_headers, plan_request, ArgsPlacement, ExecuteError, HttpMethod,
};

fn config(base: Option<&str>, token: Option<&str>, key: Option<&str>, extra: Option<&str>) -> Config {
    Config {
        spec_path: "spec.json".to_string(),
        base_url: base.map(|x| x.to_string()),
        auth_token: token.map(|x| x.to_string()),
        api_key: key.map(|x| x.to_string()),
        skills_path: None,
        extra_headers: extra.map(|x| x.to_string()),
    }
}

fn tool(name: &str, method: &str, path: &str) -> Tool {
    Tool {
        name: name.to_string(),
        description: String::new(),
        path: path.to_string(),
        method: method.to_string(),
        schema: JsonValue::Object(vec![("type".to_string(), JsonValue::String("object".to_string()))]),
    }
}

fn args(entries: Vec<(&str, &str)>) -> JsonValue {
    JsonValue::Object(
        entries
            .into_iter()
            .map(|(k, v)| (k.to_string(), JsonValue::String(v.to_string())))
            .collect(),
    )
}

#[test]
fn url_joins_base_and_path() {
    let c = config(Some("https://api.example.com/v1//"), None, None, None);
    let p = plan_request(&c, &Vec::new(), &tool("t", "GET", "/users"), JsonValue::Null).ok().unwrap();
    assert_eq!(p.url, "https://api.example.com/v1/users");
    let c = config(None, None, None, None);
    let p = plan_request(&c, &Vec::new(), &tool("t", "GET", "/users"), JsonValue::Null).ok().unwrap();
    assert_eq!(p.url, "/users");
}

#[test]
fn authentication_and_extra_headers() {
    let c = config(
        Some("http://h"),
        Some("SECRET-REDACTED"),
        Some("k-123"),
        Some("  Accept : application/json \n\n bad line \nX-Two:a:b\n:empty-name"),
    );
    let p = plan_request(&c, &Vec::new(), &tool("t", "POST", "/x"), JsonValue::Null).ok().unwrap();
    assert_eq!(p.bearer_token.as_deref(), Some("SECRET-REDACTED"));
    assert_eq!(
        p.headers,
        vec![
            ("X-API-Key".to_string(), "k-123".to_string()),
            ("Accept".to_string(), "application/json".to_string()),
            ("X-Two".to_string(), "a:b".to_string()),
            ("".to_string(), "empty-name".to_string()),
        ]
    );
}

#[test]
fn header_lines_are_trimmed_with_unicode_white_space() {
    let h = parse_headers(&"\u{3000}Name\t:\u{a0}v \r".to_string());
    assert_eq!(h, vec![("Name".to_string(), "v".to_string())]);
    assert!(parse_headers(&"".to_string()).is_empty());
}

#[test]
fn get_and_delete_send_a_query() {
    let c = config(None, None, None, None);
    for m in ["GET", "DELETE"] {
        let p = plan_request(&c, &Vec::new(), &tool("t", m, "/x"), args(vec![("q", "1")])).ok().unwrap();
        match p.args {
            ArgsPlacement::Query(es) => {
                assert_eq!(es.len(), 1);
                assert_eq!(es[0].0, "q");
            }
            _ => panic!("expected a query"),
        }
        let p = plan_request(&c, &Vec::new(), &tool("t", m, "/x"), args(vec![])).ok().unwrap();
        assert!(matches!(p.args, ArgsPlacement::Omitted));
        let p = plan_request(&c, &Vec::new(), &tool("t", m, "/x"), JsonValue::Bool(true)).ok().unwrap();
        assert!(matches!(p.args, ArgsPlacement::Omitted));
    }
}

#[test]
fn post_put_patch_send_a_body() {
    let c = config(None, None, None, None);
    for (m, method) in [("POST", HttpMethod::Post), ("PUT", HttpMethod::Put), ("PATCH", HttpMethod::Patch)] {
        let p = plan_request(&c, &Vec::new(), &tool("t", m, "/x"), args(vec![])).ok().unwrap();
        assert_eq!(p.method, method);
        assert!(matches!(p.args, ArgsPlacement::Body(JsonValue::Object(_))));
        let p = plan_request(&c, &Vec::new(), &tool("t", m, "/x"), JsonValue::Null).ok().unwrap();
        assert!(matches!(p.args, ArgsPlacement::Omitted));
    }
}

#[test]
fn unsupported_method_is_an_error() {
    let c = config(None, None, None, None);
    match plan_request(&c, &Vec::new(), &tool("t", "get", "/x"), JsonValue::Null) {
        Err(e) => {
            assert!(matches!(e, ExecuteError::UnsupportedMethod(ref m) if m == "get"));
            assert_eq!(e.message(), "Unsupported method: get");
        }
        Ok(_) => panic!("lowercase method must be refused"),
    }
    assert!(plan_request(&c, &Vec::new(), &tool("t", "HEAD", "/x"), JsonValue::Null).is_err());
}

#[test]
fn responses() {
    let e = finish_response(404, "404 Not Found".to_string(), "nope".to_string(), None);
    match e {
        Err(err) => assert_eq!(err.message(), "API error 404 Not Found: nope"),
        Ok(_) => panic!("404 is an error"),
    }
    assert!(finish_response(199, "199".to_string(), String::new(), None).is_err());
    assert!(finish_response(300, "300".to_string(), String::new(), None).is_err());
    match finish_response(200, "200 OK".to_string(), "plain".to_string(), None) {
        Ok(JsonValue::String(s)) => assert_eq!(s, "plain"),
        _ => panic!("text body becomes a string"),
    }
    match finish_response(299, "299".to_string(), "true".to_string(), Some(JsonValue::Bool(true))) {
        Ok(JsonValue::Bool(true)) => {}
        _ => panic!("JSON body is kept"),
    }
}

#[test]
fn tools_are_found_by_name() {
    let tools = vec![tool("a", "GET", "/1"), tool("b", "GET", "/2"), tool("b", "POST", "/3")];
    let t = find_tool(&tools, &"b".to_string()).unwrap();
    assert_eq!(t.path, "/2");
    assert!(find_tool(&tools, &"c".to_string()).is_none());
}

#[test]
fn call_outcomes() {
    let ok = call_outcome(Ok("{\"a\":1}".to_string()));
    assert_eq!(ok.text, "{\"a\":1}");
    assert!(!ok.is_error);
    let err = call_outcome(Err("API error 500: boom".to_string()));
    assert_eq!(err.text, "Error: API error 500: boom");
    assert!(err.is_error);
}

#[test]
fn input_schema_of_objects_only() {
    let t = tool("a", "GET", "/");
    assert_eq!(input_schema(&t.schema).len(), 1);
    assert!(input_schema(&JsonValue::Null).is_empty());
}

#[test]
fn first_server_is_the_base_url_when_none_is_configured() {
    let servers = vec!["https://api.example.com/v1/".to_string(), "https://backup.example.com".to_string()];
    let c = config(None, None, None, None);
    let p = plan_request(&c, &servers, &tool("t", "GET", "/users"), JsonValue::Null).ok().unwrap();
    assert_eq!(p.url, "https://api.example.com/v1/users");
    let c = config(Some("http://override/"), None, None, None);
    let p = plan_request(&c, &servers, &tool("t", "GET", "/users"), JsonValue::Null).ok().unwrap();
    assert_eq!(p.url, "http://override/users");
}
