use testkit::engine::{run_plan_recorded, StepOutcome};
use testkit::model::TestContext;
use testkit::strmap::StrMap;

fn ctx() -> TestContext {
    TestContext {
        plan: Some("plan".to_string()),
        step: Some("step_name".to_string()),
        step_index: 0,
        path: ".".to_string(),
        file: "file.tk.yaml".to_string(),
        file_source: "file source".to_string(),
        should_log: false,
    }
}

fn ok_json(status: u16, body: &str) -> StepOutcome {
    StepOutcome::Response {
        status,
        headers: vec![(
            "content-type".to_string(),
            vec!["application/json".to_string()],
        )],
        body: body.to_string(),
    }
}

#[test]
fn test_json_parse() {
    let val = r#"[
        {"GET":"https://6098f32599011f001713fc6e.mockapi.io/mail",
        "asserts":null,"exports":null,
        "headers":null,"json":null,"params":null,
        "raw":null,"title":"Simple Test 1"
        }]"#;
    let resp = run_plan_recorded(
        ctx(),
        val,
        false,
        None,
        None,
        StrMap::new(),
        vec![ok_json(200, "{}")],
    );
    assert!(resp.is_ok());
    let results = resp.unwrap();
    assert_eq!(results.len(), 1);
    assert_eq!(results[0].step_name, Some("Simple Test 1".to_string()));
}

fn kitchen_sink_yaml() -> String {
    r#"
---
 - title: step1
   POST: http://server/todos
   headers:
     Content-Type: application/json
   json:
     task: hit the gym
   asserts:
     - ok: $.resp.json.task == "hit the gym"
     - ok: $.resp.status == 201
     - number: $.resp.json.id
     - string: $.resp.json.task
     - boolean: $.resp.json.completed
   exports:
     todoResp: $.resp.json.resp_string
 - GET: http://server/todo_get
   json:
     req_string: $.outputs.todoResp
   asserts:
     - ok: $.resp.status == 200
     - array: $.resp.json.tasks
     - ok: $.resp.json.tasks[0].task == "task one"
     - notEmpty: $.resp.json.tasks[0].task
     - notEmpty: $.resp.json.tasks
     - number: $.resp.json.tasks[1].id
     - empty: $.resp.json.empty_str
     - empty: $.resp.json.empty_arr
   exports:
     todoId: $.resp.json.tasks[0].id
 - PUT: http://server/todos/{{todoId}}
   asserts:
     - ok: $.resp.json.completed
     - ok: $.resp.json.id == {{todoId}}
 - DELETE: http://server/todos
   asserts:
     - ok: $.resp.json.id == {{todoId}}
     - boolean: $.resp.json.completed
     - ok: $.resp.json.task == "task one"
"#
    .to_string()
}

fn kitchen_sink_transcript() -> Vec<StepOutcome> {
    vec![
        ok_json(201, r#"{"task":"hit the gym","completed":false,"id":1}"#),
        ok_json(
            200,
            r#"{"tasks":[{"task":"task one","completed":false,"id":1},{"task":"task two","completed":false,"id":2}],"empty_str":"","empty_arr":[],"null_val":null}"#,
        ),
        ok_json(200, r#"{"task":"task one","completed":true,"id":1}"#),
        ok_json(200, r#"{"task":"task one","completed":true,"id":1}"#),
    ]
}

#[test]
fn test_yaml_kitchen_sink() {
    let resp = run_plan_recorded(
        ctx(),
        kitchen_sink_yaml().as_str(),
        true,
        None,
        None,
        StrMap::new(),
        kitchen_sink_transcript(),
    );
    assert!(resp.is_ok());
    let results = resp.unwrap();
    assert_eq!(results.len(), 4);
    for r in &results {
        assert!(r.step_error.is_none());
        for a in &r.assert_results {
            match a {
                Ok(b) => assert!(*b, "assertion false in step {}", r.step_index),
                Err(_) => panic!("assertion error in step {}", r.step_index),
            }
        }
    }
}

#[test]
fn yaml_and_json_runs_agree() {
    let yaml = kitchen_sink_yaml();
    let r1 = run_plan_recorded(
        ctx(),
        yaml.as_str(),
        true,
        None,
        None,
        StrMap::new(),
        kitchen_sink_transcript(),
    )
    .unwrap();
    // the same plan, written as JSON by the engine's own encoder
    let items = testkit::decode::decode_plan_yaml(yaml.as_str()).unwrap();
    let json_text = testkit::decode::plan_to_json_text(&items);
    let r2 = run_plan_recorded(
        ctx(),
        json_text.as_str(),
        false,
        None,
        None,
        StrMap::new(),
        kitchen_sink_transcript(),
    )
    .unwrap();
    assert_eq!(r1.len(), r2.len());
    for (a, b) in r1.iter().zip(r2.iter()) {
        assert_eq!(a.step_name, b.step_name);
        assert_eq!(a.step_index, b.step_index);
        assert_eq!(a.step_error, b.step_error);
        assert_eq!(a.step_log, b.step_log);
        assert_eq!(a.assert_results.len(), b.assert_results.len());
        for (x, y) in a.assert_results.iter().zip(b.assert_results.iter()) {
            match (x, y) {
                (Ok(p), Ok(q)) => assert_eq!(p, q),
                (Err(_), Err(_)) => {}
                _ => panic!("outcomes differ"),
            }
        }
    }
}

#[test]
fn empty_plan_gives_empty_results() {
    let resp = run_plan_recorded(ctx(), "[]", false, None, None, StrMap::new(), vec![]);
    let results = resp.unwrap();
    assert_eq!(results.len(), 0);
}

#[test]
fn step_without_asserts_still_exports() {
    let plan = r#"[
      {"GET": "http://a/x", "exports": {"sid": "$.resp.json.id"}},
      {"GET": "http://a/y/{{sid}}", "asserts": [{"ok": "{{sid}} == 7"}]}
    ]"#;
    let resp = run_plan_recorded(
        ctx(),
        plan,
        false,
        None,
        None,
        StrMap::new(),
        vec![ok_json(200, r#"{"id":7}"#), ok_json(200, "{}")],
    );
    let results = resp.unwrap();
    assert_eq!(results.len(), 2);
    assert_eq!(results[0].assert_results.len(), 0);
    assert!(matches!(results[1].assert_results[0], Ok(true)));
}

#[test]
fn exports_not_visible_to_own_step() {
    let plan = r#"[
      {"GET": "http://a/x",
       "asserts": [{"ok": "{{sid}} == 7"}],
       "exports": {"sid": "$.resp.json.id"}}
    ]"#;
    let resp = run_plan_recorded(
        ctx(),
        plan,
        false,
        None,
        None,
        StrMap::new(),
        vec![ok_json(200, r#"{"id":7}"#)],
    );
    let results = resp.unwrap();
    // the export is committed only at the step boundary, so the step's own
    // assertion cannot resolve it
    assert!(results[0].assert_results[0].is_err());
}

#[test]
fn date_parse_success_then_failure() {
    let plan = r#"[{"GET": "http://a/x", "asserts": [{"date": "$.resp.json.when %Y-%m-%d"}]}]"#;
    let body = r#"{"when":"2024-01-05"}"#;
    let results = run_plan_recorded(
        ctx(),
        plan,
        false,
        None,
        None,
        StrMap::new(),
        vec![ok_json(200, body)],
    )
    .unwrap();
    assert!(matches!(results[0].assert_results[0], Ok(true)));

    let plan2 = r#"[{"GET": "http://a/x", "asserts": [{"date": "$.resp.json.when %Y/%m/%d"}]}]"#;
    let results2 = run_plan_recorded(
        ctx(),
        plan2,
        false,
        None,
        None,
        StrMap::new(),
        vec![ok_json(200, body)],
    )
    .unwrap();
    match &results2[0].assert_results[0] {
        Err(e) => {
            let advice = e.advice.as_ref().unwrap();
            assert!(advice.starts_with("Error parsing date: "));
        }
        Ok(_) => panic!("expected a date parse error"),
    }
}

#[test]
fn missing_path_underlines_the_fragment() {
    let plan = r#"[{"GET": "http://a/x", "asserts": [{"ok": "$.resp.json.nonexistent == 5"}]}]"#;
    let results = run_plan_recorded(
        ctx(),
        plan,
        false,
        None,
        None,
        StrMap::new(),
        vec![ok_json(200, r#"{"id":1}"#)],
    )
    .unwrap();
    assert_eq!(results.len(), 1);
    match &results[0].assert_results[0] {
        Err(e) => {
            assert_eq!(e.src_text, "$.resp.json.nonexistent == 5");
            assert_eq!(e.span_start, 0);
            assert_eq!(e.span_len, "$.resp.json.nonexistent".chars().count());
            let advice = e.advice.as_ref().unwrap();
            assert!(advice.contains("$.resp.json.nonexistent"));
            // the boxed report in the step log underlines the fragment
            assert!(results[0].step_log.contains("^^^"));
        }
        Ok(_) => panic!("expected an assertion error"),
    }
}

#[test]
fn header_export_flows_into_next_url() {
    let plan = r#"[
      {"POST": "http://a/todos", "exports": {"loc": "$.res.header.Location"}},
      {"GET": "http://a{{loc}}", "asserts": [{"ok": "$.resp.status == 200"}]}
    ]"#;
    let transcript = vec![
        StepOutcome::Response {
            status: 201,
            headers: vec![("Location".to_string(), vec!["/todos/42".to_string()])],
            body: "{}".to_string(),
        },
        ok_json(200, "{}"),
    ];
    let results = run_plan_recorded(
        ctx(),
        plan,
        false,
        None,
        None,
        StrMap::new(),
        transcript,
    )
    .unwrap();
    assert_eq!(results.len(), 2);
    assert!(matches!(results[1].assert_results[0], Ok(true)));
    // the interpolated URL carried the exported literal
    let vars_check = run_plan_recorded(
        ctx(),
        r#"[{"GET": "http://a/x", "asserts": [{"ok": "\"{{loc}}\" == \"/todos/42\""}]}]"#,
        false,
        None,
        Some(vec![testkit::model::ConfigVariable {
            variable_name: "loc".to_string(),
            variable_value: "/todos/42".to_string(),
        }]),
        StrMap::new(),
        vec![ok_json(200, "{}")],
    )
    .unwrap();
    assert!(matches!(vars_check[0].assert_results[0], Ok(true)));
}

#[test]
fn transport_failure_is_isolated() {
    let plan = r#"[
      {"GET": "http://unreachable.invalid/x", "asserts": [{"ok": "$.resp.status == 200"}]},
      {"GET": "http://a/y", "asserts": [{"ok": "$.resp.status == 200"}]}
    ]"#;
    let transcript = vec![
        StepOutcome::TransportFail("connection refused".to_string()),
        ok_json(200, "{}"),
    ];
    let results = run_plan_recorded(
        ctx(),
        plan,
        false,
        None,
        None,
        StrMap::new(),
        transcript,
    )
    .unwrap();
    assert_eq!(results.len(), 2);
    let e = results[0].step_error.as_ref().unwrap();
    assert_eq!(e, "Error sending request: connection refused");
    assert_eq!(results[0].assert_results.len(), 0);
    assert!(results[1].step_error.is_none());
    assert!(matches!(results[1].assert_results[0], Ok(true)));
}

#[test]
fn unset_env_placeholder_stays_and_is_logged() {
    let plan = r#"[{"GET": "http://a/x", "headers": {"X-Token": "$.env.TESTKIT_UNSET_VAR"}}]"#;
    let results = run_plan_recorded(
        ctx(),
        plan,
        false,
        None,
        None,
        StrMap::new(),
        vec![ok_json(200, "{}")],
    )
    .unwrap();
    assert!(results[0]
        .step_log
        .contains("Error getting environment variable $.env.TESTKIT_UNSET_VAR"));
}

#[test]
fn env_value_substitutes_into_header() {
    let plan = r#"[{"GET": "http://a/x", "asserts": [{"ok": "\"$.env.TK_BASE\" == \"prod\""}]}]"#;
    let mut env: StrMap<String> = StrMap::new();
    env.insert("TK_BASE".to_string(), "prod".to_string());
    let results = run_plan_recorded(
        ctx(),
        plan,
        false,
        None,
        None,
        env,
        vec![ok_json(200, "{}")],
    )
    .unwrap();
    assert!(matches!(results[0].assert_results[0], Ok(true)));
}

#[test]
fn collection_id_recorded_on_request() {
    let plan = r#"[{"GET": "http://a/x"}]"#;
    let results = run_plan_recorded(
        ctx(),
        plan,
        false,
        Some("col-7".to_string()),
        None,
        StrMap::new(),
        vec![ok_json(200, "{}")],
    )
    .unwrap();
    let hs = results[0].request.req.headers.as_ref().unwrap();
    assert!(hs
        .iter()
        .any(|h| h.name == "X-Testkit-Collection-ID" && h.value == "col-7"));
}

#[test]
fn bad_body_after_interpolation_is_recorded() {
    // the substituted value carries a raw quote, so step 1's body text no
    // longer parses as JSON; the failure lands on that step's record and
    // the next step still runs
    let plan = r#"[
      {"POST": "http://a/x", "json": {"t": "{{v}}"}},
      {"GET": "http://a/y", "asserts": [{"ok": "$.resp.status == 200"}]}
    ]"#;
    let results = run_plan_recorded(
        ctx(),
        plan,
        false,
        None,
        Some(vec![testkit::model::ConfigVariable {
            variable_name: "v".to_string(),
            variable_value: "a\"b".to_string(),
        }]),
        StrMap::new(),
        vec![ok_json(200, "{}"), ok_json(200, "{}")],
    )
    .unwrap();
    assert_eq!(results.len(), 2);
    assert_eq!(
        results[0].step_error,
        Some("step body is not valid JSON after interpolation".to_string())
    );
    assert_eq!(results[0].assert_results.len(), 0);
    assert!(results[1].step_error.is_none());
    assert!(matches!(results[1].assert_results[0], Ok(true)));
}

#[test]
fn results_serialize_with_stable_field_names() {
    let plan = r#"[{"GET": "http://a/x", "asserts": [{"ok": "$.resp.status == 200"}]}]"#;
    let results = run_plan_recorded(
        ctx(),
        plan,
        false,
        None,
        None,
        StrMap::new(),
        vec![ok_json(200, "{}")],
    )
    .unwrap();
    let text = testkit::engine::results_to_json_text(&results);
    assert!(text.starts_with("[{\"stepName\":null,\"stepIndex\":0,\"assertResults\":[{\"Ok\":true}],"));
    assert!(text.contains("\"request\":{\"req\":{\"GET\":\"http://a/x\""));
    assert!(text.contains("\"stepLog\":"));
    assert!(text.contains("\"stepError\":null"));
}

#[test]
fn typed_kinds_cover_null_exists_and_decimals() {
    let plan = r#"[{"GET": "http://a/x", "asserts": [
        {"null": "$.resp.json.gone"},
        {"exists": "$.resp.json.rate"},
        {"number": "$.resp.json.rate"},
        {"string": "$.resp.json.rate"}
    ]}]"#;
    let results = run_plan_recorded(
        ctx(),
        plan,
        false,
        None,
        None,
        StrMap::new(),
        vec![ok_json(200, r#"{"gone":null,"rate":1.5}"#)],
    )
    .unwrap();
    assert!(matches!(results[0].assert_results[0], Ok(true)));
    assert!(matches!(results[0].assert_results[1], Ok(true)));
    // a decimal is still a number, but not a string
    assert!(matches!(results[0].assert_results[2], Ok(true)));
    assert!(matches!(results[0].assert_results[3], Ok(false)));
}

#[test]
fn dump_flag_emits_the_context() {
    let plan = r#"[{"GET": "http://a/x", "dump": true}]"#;
    let results = run_plan_recorded(
        ctx(),
        plan,
        false,
        None,
        None,
        StrMap::new(),
        vec![ok_json(200, r#"{"id":3}"#)],
    )
    .unwrap();
    let log = &results[0].step_log;
    assert!(log.contains("DUMP jsonpath request response context:"));
    assert!(log.contains("\"status\":200"));
    assert!(log.contains("\"id\":3"));
}

#[test]
fn expression_overflow_is_an_error_not_a_panic() {
    let plan = r#"[{"GET": "http://a/x", "asserts": [
        {"ok": "9223372036854775807 + 1 == 0"},
        {"ok": "$.resp.status >= 200 && $.resp.status < 300"}
    ]}]"#;
    let results = run_plan_recorded(
        ctx(),
        plan,
        false,
        None,
        None,
        StrMap::new(),
        vec![ok_json(204, "{}")],
    )
    .unwrap();
    assert!(results[0].assert_results[0].is_err());
    assert!(matches!(results[0].assert_results[1], Ok(true)));
}

#[test]
fn header_export_folds_ascii_case() {
    let plan = r#"[
      {"POST": "http://a/todos", "exports": {"loc": "$.res.header.Location"}},
      {"GET": "http://a{{loc}}", "asserts": [{"ok": "\"{{loc}}\" == \"/todos/42\""}]}
    ]"#;
    // the transport hands names lowercased, as HTTP clients normalize them
    let transcript = vec![
        StepOutcome::Response {
            status: 201,
            headers: vec![("location".to_string(), vec!["/todos/42".to_string()])],
            body: "{}".to_string(),
        },
        ok_json(200, "{}"),
    ];
    let results = run_plan_recorded(
        ctx(),
        plan,
        false,
        None,
        None,
        StrMap::new(),
        transcript,
    )
    .unwrap();
    assert!(matches!(results[1].assert_results[0], Ok(true)));
}

#[test]
fn failed_evaluation_advice_quotes_the_normalized_expression() {
    // the path resolves, but the substituted expression is not boolean
    let plan = r#"[{"GET": "http://a/x", "asserts": [{"ok": "$.resp.json.id + 1"}]}]"#;
    let results = run_plan_recorded(
        ctx(),
        plan,
        false,
        None,
        None,
        StrMap::new(),
        vec![ok_json(200, r#"{"id":4}"#)],
    )
    .unwrap();
    match &results[0].assert_results[0] {
        Err(e) => {
            let advice = e.advice.as_ref().unwrap();
            assert_eq!(advice, "Comparison expression could not be evaluated: 4 + 1");
        }
        Ok(_) => panic!("expected an assertion error"),
    }
}

#[test]
fn unresolved_url_placeholders_are_logged() {
    let plan = r#"[{"GET": "http://a/{{missing}}/$.env.NOT_SET_ANYWHERE"}]"#;
    let results = run_plan_recorded(
        ctx(),
        plan,
        false,
        None,
        None,
        StrMap::new(),
        vec![ok_json(200, "{}")],
    )
    .unwrap();
    let log = &results[0].step_log;
    assert!(log.contains("Export not found: {{missing}}"));
    assert!(log.contains(
        "Error getting environment variable $.env.NOT_SET_ANYWHERE: environment variable not found"
    ));
}

#[test]
fn reports_are_wrapped_to_eighty_columns() {
    let long_tail = "x".repeat(300);
    let e = testkit::model::AssertionError {
        advice: Some(format!("advice {}", long_tail)),
        src_label: "file.tk.yaml".to_string(),
        src_text: format!("$.resp.json.a == \"{}\"", long_tail),
        span_start: 0,
        span_len: 13,
    };
    let r = testkit::report::report_error(&e);
    for line in r.lines() {
        assert!(line.chars().count() <= 80, "line exceeds 80 columns: {}", line);
    }
    assert!(r.contains("file.tk.yaml"));
    assert!(r.contains("^^^^^^^^^^^^^"));
}

#[test]
fn export_with_missing_path_is_logged_and_harmless() {
    let plan = r#"[{"GET": "http://a/x", "exports": {"gone": "$.resp.json.nope"}},
                   {"GET": "http://a/y", "asserts": [{"ok": "{{gone}} == 1"}]}]"#;
    let results = run_plan_recorded(
        ctx(),
        plan,
        false,
        None,
        None,
        StrMap::new(),
        vec![ok_json(200, r#"{"id":1}"#), ok_json(200, "{}")],
    )
    .unwrap();
    // the miss is logged on the step, nothing fails, nothing is stored
    assert!(results[0]
        .step_log
        .contains("Error getting export value: the export path selected no value"));
    assert!(results[0].step_error.is_none());
    assert!(results[1].assert_results[0].is_err());
}

#[test]
fn unset_env_in_ok_expression_is_logged() {
    let plan =
        r#"[{"GET": "http://a/x", "asserts": [{"ok": "\"$.env.TK_NOT_SET\" == \"x\""}]}]"#;
    let results = run_plan_recorded(
        ctx(),
        plan,
        false,
        None,
        None,
        StrMap::new(),
        vec![ok_json(200, "{}")],
    )
    .unwrap();
    // the reference stays in the text (the comparison is false, not an
    // error) and the miss is logged before the outcome line
    assert!(matches!(results[0].assert_results[0], Ok(false)));
    assert!(results[0].step_log.contains(
        "Error getting environment variable $.env.TK_NOT_SET: environment variable not found"
    ));
}
