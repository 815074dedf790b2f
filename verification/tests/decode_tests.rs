use testkit::decode::{decode_plan_json, decode_plan_yaml, plan_to_json_text};
use testkit::model::{Assert, HttpMethod};

#[test]
fn decodes_methods_titles_and_asserts() {
    let doc = r#"[
      {"title": "create", "POST": "http://a/todos",
       "headers": {"Content-Type": "application/json"},
       "json": {"task": "hit the gym"},
       "asserts": [{"ok": "$.resp.status == 201"}, {"number": "$.resp.json.id"}],
       "exports": {"todoId": "$.resp.json.id"}}
    ]"#;
    let items = decode_plan_json(doc).unwrap();
    assert_eq!(items.len(), 1);
    let it = &items[0];
    assert_eq!(it.title, Some("create".to_string()));
    match &it.request.http_method {
        HttpMethod::POST(u) => assert_eq!(u, "http://a/todos"),
        _ => panic!("expected POST"),
    }
    let asserts = it.asserts.as_ref().unwrap();
    assert!(matches!(&asserts[0], Assert::IsOk(e) if e == "$.resp.status == 201"));
    assert!(matches!(&asserts[1], Assert::IsNumber(e) if e == "$.resp.json.id"));
    let exports = it.exports.as_ref().unwrap();
    assert_eq!(exports[0].0, "todoId");
    assert_eq!(exports[0].1, "$.resp.json.id");
}

#[test]
fn unknown_assert_kind_is_a_decode_error() {
    let doc = r#"[{"GET": "http://a", "asserts": [{"sparkles": "$.resp.json.id"}]}]"#;
    assert!(decode_plan_json(doc).is_err());
}

#[test]
fn missing_method_is_a_decode_error() {
    assert!(decode_plan_json(r#"[{"title": "no method"}]"#).is_err());
    assert!(decode_plan_json(r#"[{"GET": "http://a", "POST": "http://b"}]"#).is_err());
    assert!(decode_plan_json(r#"[{"PATCH": "http://a"}]"#).is_err());
}

#[test]
fn reencoding_and_redecoding_is_stable() {
    let doc = r#"[
      {"title": "one", "POST": "http://a/todos", "dump": true,
       "headers": {"A": "1", "B": "2"},
       "json": {"k": [1, null, "s"]},
       "asserts": [{"empty": "$.resp.json.e"}, {"notEmpty": "$.resp.json.n"},
                   {"date": "$.resp.json.d %Y-%m-%d"}],
       "exports": {"x": "$.resp.json.k"}},
      {"DELETE": "http://a/todos/9"}
    ]"#;
    let p1 = decode_plan_json(doc).unwrap();
    let t1 = plan_to_json_text(&p1);
    let p2 = decode_plan_json(t1.as_str()).unwrap();
    let t2 = plan_to_json_text(&p2);
    assert_eq!(t1, t2);
}

#[test]
fn yaml_and_json_decode_to_the_same_plan() {
    let yaml = "
- title: create
  POST: http://a/todos
  json:
    task: hit the gym
  asserts:
    - ok: $.resp.status == 201
";
    let json = r#"[{"title": "create", "POST": "http://a/todos",
                    "json": {"task": "hit the gym"},
                    "asserts": [{"ok": "$.resp.status == 201"}]}]"#;
    let a = decode_plan_yaml(yaml).unwrap();
    let b = decode_plan_json(json).unwrap();
    assert_eq!(plan_to_json_text(&a), plan_to_json_text(&b));
}

#[test]
fn malformed_documents_are_parse_errors() {
    assert!(decode_plan_json("{not json").is_err());
    assert!(decode_plan_json(r#"{"GET": "x"}"#).is_err());
    assert!(decode_plan_yaml(": bad\n  - yaml: [").is_err());
}
