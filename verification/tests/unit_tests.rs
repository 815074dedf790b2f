use testkit::expr::parse_expression;
use testkit::json::{json_to_string, JsonValue};
use testkit::jsonparse::parse_json;
use testkit::paths::{find_all_jsonpaths, get_var_step, select_first};
use testkit::scan::{get_env_variable_paths, get_vars, interpolate_vars};
use testkit::strmap::StrMap;

#[test]
fn scans_find_placeholders() {
    let v = get_vars("a {{todoId}} b {{x_1}} {{bad name}} c");
    assert_eq!(v, vec!["{{todoId}}".to_string(), "{{x_1}}".to_string()]);
    let e = get_env_variable_paths("u=$.env.USER_NAME p=$.env._T2 none=$.env.9x");
    assert_eq!(e, vec!["$.env.USER_NAME".to_string(), "$.env._T2".to_string()]);
}

#[test]
fn interpolation_renders_values() {
    let mut vars: StrMap<JsonValue> = StrMap::new();
    vars.insert("name".to_string(), JsonValue::Str("gym".to_string()));
    vars.insert("id".to_string(), JsonValue::Int(42));
    let (out, missing) = interpolate_vars("go to {{name}} #{{id}} {{none}}", &vars);
    assert_eq!(out, "go to gym #42 {{none}}");
    assert_eq!(missing, vec!["{{none}}".to_string()]);
}

#[test]
fn interpolation_is_idempotent_once_nothing_matches() {
    let vars: StrMap<JsonValue> = StrMap::new();
    let s = "no {{match}} here $.env.NOPE";
    let (once, _) = interpolate_vars(s, &vars);
    let (twice, _) = interpolate_vars(once.as_str(), &vars);
    assert_eq!(once, s);
    assert_eq!(twice, once);
}

#[test]
fn jsonpath_tokens_are_found() {
    let ps = find_all_jsonpaths("$.resp.status == 201 && $.resp.json.id > 0 || x");
    assert_eq!(
        ps,
        vec!["$.resp.status".to_string(), "$.resp.json.id".to_string()]
    );
}

#[test]
fn step_references_resolve_without_panicking() {
    assert_eq!(get_var_step("$.steps[2].id", 0), Some(2));
    assert_eq!(get_var_step("$.steps[-1].id", 3), Some(2));
    // a negative reference past the first step fails at decode time
    assert_eq!(get_var_step("$.steps[-1].id", 0), None);
    assert_eq!(get_var_step("no brackets", 5), None);
    assert_eq!(get_var_step("[junk]", 5), None);
}

#[test]
fn expressions_evaluate() {
    assert_eq!(parse_expression("5 + 5 == 10"), Some(true));
    assert_eq!(parse_expression("2 * 3 - 1 == 5 && true"), Some(true));
    assert_eq!(parse_expression("\"a\" == \"b\""), Some(false));
    assert_eq!(parse_expression("\"ab\" == \"a\" + \"b\""), Some(true));
    assert_eq!(parse_expression("!(1 < 2) || 4 / 2 == 2"), Some(true));
    assert_eq!(parse_expression("-3 < 0"), Some(true));
    // a non-boolean result is a failure, not a value
    assert_eq!(parse_expression("1 + 1"), None);
    // division by zero fails rather than panics
    assert_eq!(parse_expression("1 / 0 == 0"), None);
    assert_eq!(parse_expression("nonsense"), None);
}

#[test]
fn json_round_trips_through_text() {
    let v = JsonValue::Obj(vec![
        ("a".to_string(), JsonValue::Int(-7)),
        (
            "b".to_string(),
            JsonValue::Arr(vec![
                JsonValue::Null,
                JsonValue::Bool(true),
                JsonValue::Str("x \"y\"\n".to_string()),
            ]),
        ),
        ("c".to_string(), JsonValue::NumText("1.5e3".to_string())),
    ]);
    let text = json_to_string(&v);
    assert_eq!(text, "{\"a\":-7,\"b\":[null,true,\"x \\\"y\\\"\\n\"],\"c\":1.5e3}");
    let back = parse_json(text.as_str()).unwrap();
    assert_eq!(json_to_string(&back), text);
}

#[test]
fn json_parser_accepts_and_rejects() {
    assert!(parse_json("  {\"k\": [1, 2.5, \"s\"], \"t\": true}  ").is_some());
    assert!(parse_json("{\"k\": }").is_none());
    assert!(parse_json("[1,]").is_none());
    assert!(parse_json("01").is_none());
    assert!(parse_json("9223372036854775807").is_some());
    // an integer beyond 64 bits keeps its literal text
    let big = parse_json("92233720368547758089").unwrap();
    assert_eq!(json_to_string(&big), "92233720368547758089");
}

#[test]
fn selection_walks_names_and_indexes() {
    let v = parse_json(r#"{"resp":{"json":{"tasks":[{"id":4},{"id":9}]}}}"#).unwrap();
    match select_first(&v, "$.resp.json.tasks[1].id") {
        Ok(Some(x)) => assert_eq!(json_to_string(x), "9"),
        _ => panic!("expected a selected value"),
    }
    assert!(matches!(select_first(&v, "$.resp.json.nope"), Ok(None)));
    assert!(select_first(&v, "not a path").is_err());
}

#[test]
fn report_shows_label_fragment_and_advice() {
    let e = testkit::model::AssertionError {
        advice: Some("check the path".to_string()),
        src_label: "file.tk.yaml".to_string(),
        src_text: "$.resp.json.x == 5".to_string(),
        span_start: 0,
        span_len: 13,
    };
    let r = testkit::report::report_error(&e);
    assert!(r.contains("file.tk.yaml"));
    assert!(r.contains("$.resp.json.x == 5"));
    assert!(r.contains("^^^^^^^^^^^^^"));
    assert!(r.contains("help: check the path"));
}
