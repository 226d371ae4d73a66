use cmdprobe::checks::{
    check_stdout, default_retries, CheckCommand, CheckConfig, CheckStage, Operation,
    StdoutMatcher,
};
use cmdprobe::json::{compare, json_eq, scalar_text, JsonValue};
use cmdprobe::runner::{
    all_passed, check_metric, probe_metric, stage_metric, ActionRequest, SuiteRunner,
};
use cmdprobe::subst::{format_nested_variables, format_variables, Backreference, Store};

fn jstr(s: &str) -> JsonValue {
    JsonValue::Text(s.to_string())
}

fn jint(n: i64) -> JsonValue {
    JsonValue::Int(n)
}

fn jarr(items: Vec<JsonValue>) -> JsonValue {
    JsonValue::Array(items)
}

fn jobj(entries: Vec<(&str, JsonValue)>) -> JsonValue {
    JsonValue::Object(entries.into_iter().map(|(k, v)| (k.to_string(), v)).collect())
}

fn shell_stage(name: &str, command: &str, retries: u32, matchers: Vec<StdoutMatcher>) -> CheckStage {
    CheckStage {
        name: name.to_string(),
        max_retries: retries,
        delay_before: None,
        delay_after: None,
        check: CheckCommand::Shell(command.to_string()),
        matchers,
    }
}

fn exact(expected: &str) -> StdoutMatcher {
    StdoutMatcher::Exact { exact: expected.to_string() }
}

fn get_str(store: &Store, key: Backreference) -> Option<String> {
    store.get(&key).cloned()
}

#[test]
fn subset_json_value_can_be_compared() {
    let a = jobj(vec![("hello", jstr("world"))]);
    let b = jobj(vec![("hello", jstr("world")), ("foo", jstr("bar"))]);
    assert!(compare(&a, &b))
}

#[test]
fn substitution_on_empty_store_is_identity() {
    let store = Store::new();
    for s in ["", "plain", "{{ name }}", "{{0}} and {{ 1 }}", "{ not a placeholder }"] {
        assert_eq!(format_variables(s, &store), s);
    }
}

#[test]
fn substitution_is_deterministic() {
    let mut store = Store::new();
    store.insert(Backreference::Named("name".to_string()), "Ada".to_string());
    store.insert(Backreference::Numbered(0), "zero".to_string());
    let template = "hello {{ name }}, {{0}}, {{ unknown }}";
    let first = format_variables(template, &store);
    let second = format_variables(template, &store);
    assert_eq!(first, second);
    assert_eq!(first, "hello Ada, zero, {{ unknown }}");
}

#[test]
fn substitution_replaces_named_and_numbered_keys() {
    let mut store = Store::new();
    store.insert(Backreference::Named("token".to_string()), "abc".to_string());
    store.insert(Backreference::Numbered(1), "42".to_string());
    assert_eq!(format_variables("x={{ token }}", &store), "x=abc");
    assert_eq!(format_variables("x={{token}}", &store), "x=abc");
    assert_eq!(format_variables("x={{  token  }}", &store), "x=abc");
    assert_eq!(format_variables("n={{ 1 }} m={{1}}", &store), "n=42 m=42");
    assert_eq!(format_variables("{{ other }}", &store), "{{ other }}");
}

#[test]
fn substitution_overwrites_on_repeated_insert() {
    let mut store = Store::new();
    store.insert(Backreference::Named("k".to_string()), "one".to_string());
    store.insert(Backreference::Named("k".to_string()), "two".to_string());
    assert_eq!(store.len(), 1);
    assert_eq!(format_variables("{{ k }}", &store), "two");
    assert_eq!(get_str(&store, Backreference::Named("k".to_string())), Some("two".to_string()));
}

#[test]
fn nested_substitution_walks_arrays_and_objects() {
    let mut store = Store::new();
    store.insert(Backreference::Named("who".to_string()), "world".to_string());
    let v = jobj(vec![
        ("greeting", jstr("hello {{ who }}")),
        ("data", jarr(vec![jstr("{{ who }}"), jint(7), JsonValue::Null, JsonValue::Bool(true)])),
    ]);
    let expected = jobj(vec![
        ("greeting", jstr("hello world")),
        ("data", jarr(vec![jstr("world"), jint(7), JsonValue::Null, JsonValue::Bool(true)])),
    ]);
    let got = format_nested_variables(&v, &store);
    assert!(json_eq(&got, &expected));
}

#[test]
fn subset_is_reflexive_on_sample_documents() {
    let samples = vec![
        JsonValue::Null,
        JsonValue::Bool(false),
        jint(-3),
        jstr("x"),
        jarr(vec![jint(1), jstr("two"), jarr(vec![])]),
        jobj(vec![("a", jint(1)), ("b", jobj(vec![("c", JsonValue::Null)]))]),
    ];
    for v in &samples {
        assert!(compare(v, v));
    }
}

#[test]
fn subset_array_length_rule() {
    let longer = jarr(vec![jint(1), jint(2), jint(3)]);
    let shorter = jarr(vec![jint(1), jint(2)]);
    assert!(!compare(&longer, &shorter));
    assert!(compare(&shorter, &longer));
}

#[test]
fn subset_object_extra_key_tolerance() {
    let small = jobj(vec![("a", jint(1))]);
    let big = jobj(vec![("a", jint(1)), ("b", jint(2))]);
    assert!(compare(&small, &big));
    assert!(!compare(&big, &small));
}

#[test]
fn subset_rejects_mismatched_kinds() {
    assert!(!compare(&jint(1), &jstr("1")));
    assert!(!compare(&JsonValue::Null, &JsonValue::Bool(false)));
    assert!(!compare(&jarr(vec![]), &jobj(vec![])));
    assert!(!compare(&jint(1), &jint(2)));
}

#[test]
fn regex_capture_propagation() {
    let stage = shell_stage(
        "capture",
        "true",
        1,
        vec![StdoutMatcher::Regex { regex: "id=(?P<id>\\d+)".to_string() }],
    );
    let mut store = Store::new();
    let matched = check_stdout(&stage, "suite", "id=42", &mut store);
    assert!(matched);
    assert_eq!(get_str(&store, Backreference::Named("id".to_string())), Some("42".to_string()));
    assert_eq!(get_str(&store, Backreference::Numbered(0)), Some("id=42".to_string()));
    assert_eq!(get_str(&store, Backreference::Numbered(1)), Some("42".to_string()));
}

#[test]
fn regex_no_match_fails_without_crashing() {
    let stage = shell_stage(
        "nomatch",
        "true",
        1,
        vec![StdoutMatcher::Regex { regex: "^\\d+$".to_string() }],
    );
    let mut store = Store::new();
    assert!(!check_stdout(&stage, "suite", "letters", &mut store));
    assert_eq!(store.len(), 0);
}

#[test]
fn invalid_regex_after_substitution_fails_matcher() {
    let stage = shell_stage(
        "badregex",
        "true",
        1,
        vec![StdoutMatcher::Regex { regex: "(".to_string() }],
    );
    let mut store = Store::new();
    assert!(!check_stdout(&stage, "suite", "anything", &mut store));
}

#[test]
fn regex_pattern_uses_earlier_captures() {
    let mut store = Store::new();
    store.insert(Backreference::Named("id".to_string()), "42".to_string());
    let stage = shell_stage(
        "backref",
        "true",
        1,
        vec![StdoutMatcher::Regex { regex: "^value={{ id }}$".to_string() }],
    );
    assert!(check_stdout(&stage, "suite", "value=42", &mut store));
}

#[test]
fn exact_matcher_trims_output() {
    let stage = shell_stage("exact", "true", 1, vec![exact("hello")]);
    let mut store = Store::new();
    assert!(check_stdout(&stage, "suite", "  hello\n", &mut store));
    assert!(!check_stdout(&stage, "suite", "hello!", &mut store));
    assert!(!check_stdout(&stage, "suite", "he llo", &mut store));
}

#[test]
fn json_matcher_rejects_invalid_json() {
    let stage = shell_stage(
        "badjson",
        "true",
        1,
        vec![StdoutMatcher::Json { json: Some(jobj(vec![])), save: None }],
    );
    let mut store = Store::new();
    assert!(!check_stdout(&stage, "suite", "not json", &mut store));
}

#[test]
fn json_matcher_checks_subset_of_parsed_output() {
    let stage = shell_stage(
        "subset",
        "true",
        1,
        vec![StdoutMatcher::Json { json: Some(jobj(vec![("a", jint(1))])), save: None }],
    );
    let mut store = Store::new();
    assert!(check_stdout(&stage, "suite", "{\"a\": 1, \"b\": 2}", &mut store));
    assert!(!check_stdout(&stage, "suite", "{\"a\": 2}", &mut store));
    assert!(!check_stdout(&stage, "suite", "{\"b\": 1}", &mut store));
}

#[test]
fn json_matcher_substitutes_expected_document() {
    let mut store = Store::new();
    store.insert(Backreference::Named("who".to_string()), "world".to_string());
    let stage = shell_stage(
        "subst",
        "true",
        1,
        vec![StdoutMatcher::Json {
            json: Some(jobj(vec![("greeting", jstr("hello {{ who }}"))])),
            save: None,
        }],
    );
    assert!(check_stdout(&stage, "suite", "{\"greeting\": \"hello world\"}", &mut store));
}

#[test]
fn json_matcher_without_expected_document_passes_on_parse() {
    let stage = shell_stage(
        "extractonly",
        "true",
        1,
        vec![StdoutMatcher::Json { json: None, save: None }],
    );
    let mut store = Store::new();
    assert!(check_stdout(&stage, "suite", "{\"anything\": 1}", &mut store));
    assert!(!check_stdout(&stage, "suite", "", &mut store));
}

#[test]
fn json_matcher_extracts_scalars_as_text() {
    let stage = shell_stage(
        "extract",
        "true",
        1,
        vec![StdoutMatcher::Json {
            json: None,
            save: Some(vec![
                ("num".to_string(), "a".to_string()),
                ("flag".to_string(), "b".to_string()),
                ("nothing".to_string(), "c".to_string()),
                ("word".to_string(), "d".to_string()),
            ]),
        }],
    );
    let mut store = Store::new();
    let out = "{\"a\": -7, \"b\": true, \"c\": null, \"d\": \"hi\"}";
    assert!(check_stdout(&stage, "suite", out, &mut store));
    assert_eq!(get_str(&store, Backreference::Named("num".to_string())), Some("-7".to_string()));
    assert_eq!(get_str(&store, Backreference::Named("flag".to_string())), Some("true".to_string()));
    assert_eq!(
        get_str(&store, Backreference::Named("nothing".to_string())),
        Some("null".to_string())
    );
    assert_eq!(get_str(&store, Backreference::Named("word".to_string())), Some("hi".to_string()));
}

#[test]
fn json_matcher_fails_on_non_scalar_extraction() {
    let stage = shell_stage(
        "badextract",
        "true",
        1,
        vec![StdoutMatcher::Json {
            json: None,
            save: Some(vec![("bad".to_string(), "a".to_string())]),
        }],
    );
    let mut store = Store::new();
    assert!(!check_stdout(&stage, "suite", "{\"a\": [1, 2]}", &mut store));
}

#[test]
fn all_matchers_run_even_after_a_failure() {
    let stage = shell_stage(
        "both",
        "true",
        1,
        vec![
            exact("something else"),
            StdoutMatcher::Regex { regex: "id=(?P<id>\\d+)".to_string() },
        ],
    );
    let mut store = Store::new();
    assert!(!check_stdout(&stage, "suite", "id=7", &mut store));
    assert_eq!(get_str(&store, Backreference::Named("id".to_string())), Some("7".to_string()));
}

#[test]
fn jmespath_matcher_compares_with_all_operations() {
    let mut store = Store::new();
    let out = "{\"n\": 5, \"s\": \"txt\"}";
    let cases = vec![
        (Operation::Eq, jint(5), true),
        (Operation::Eq, jint(4), false),
        (Operation::Ne, jint(4), true),
        (Operation::Ne, jint(5), false),
        (Operation::Gt, jint(4), true),
        (Operation::Gt, jint(5), false),
        (Operation::Ge, jint(5), true),
        (Operation::Ge, jint(6), false),
        (Operation::Lt, jint(6), true),
        (Operation::Lt, jint(5), false),
        (Operation::Le, jint(5), true),
        (Operation::Le, jint(4), false),
    ];
    for (op, value, expected) in cases {
        let stage = shell_stage(
            "jmes",
            "true",
            1,
            vec![StdoutMatcher::JmesPath { jmespath: "n".to_string(), operation: op, value }],
        );
        assert_eq!(check_stdout(&stage, "suite", out, &mut store), expected);
    }
    let eq_str = shell_stage(
        "jmesstr",
        "true",
        1,
        vec![StdoutMatcher::JmesPath {
            jmespath: "s".to_string(),
            operation: Operation::Eq,
            value: jstr("txt"),
        }],
    );
    assert!(check_stdout(&eq_str, "suite", out, &mut store));
    let gt_str = shell_stage(
        "jmesbad",
        "true",
        1,
        vec![StdoutMatcher::JmesPath {
            jmespath: "s".to_string(),
            operation: Operation::Gt,
            value: jint(1),
        }],
    );
    assert!(!check_stdout(&gt_str, "suite", out, &mut store));
    let bad_expr = shell_stage(
        "jmeserr",
        "true",
        1,
        vec![StdoutMatcher::JmesPath {
            jmespath: "!!!".to_string(),
            operation: Operation::Eq,
            value: jint(1),
        }],
    );
    assert!(!check_stdout(&bad_expr, "suite", out, &mut store));
}

#[test]
fn scalar_text_forms() {
    assert_eq!(scalar_text(&JsonValue::Null), Some("null".to_string()));
    assert_eq!(scalar_text(&JsonValue::Bool(true)), Some("true".to_string()));
    assert_eq!(scalar_text(&JsonValue::Bool(false)), Some("false".to_string()));
    assert_eq!(scalar_text(&jint(0)), Some("0".to_string()));
    assert_eq!(scalar_text(&jint(9007)), Some("9007".to_string()));
    assert_eq!(scalar_text(&jint(-15)), Some("-15".to_string()));
    assert_eq!(scalar_text(&jint(i64::MAX)), Some("9223372036854775807".to_string()));
    assert_eq!(scalar_text(&jint(i64::MIN)), Some("-9223372036854775808".to_string()));
    assert_eq!(scalar_text(&jstr("x")), Some("x".to_string()));
    assert_eq!(scalar_text(&jarr(vec![])), None);
    assert_eq!(scalar_text(&jobj(vec![])), None);
}

#[test]
fn default_retry_count_is_one() {
    assert_eq!(default_retries(), 1);
}

#[test]
fn retry_termination_records_all_attempts() {
    let suite = CheckConfig {
        test_name: "retries".to_string(),
        stages: vec![shell_stage("always-fails", "false", 3, vec![exact("never")])],
    };
    let mut runner = SuiteRunner::new(suite);
    let mut attempts = 0;
    while !runner.finished() {
        assert!(runner.current_request().is_some());
        runner.feed(Err("command failed".to_string()));
        attempts += 1;
        assert!(attempts <= 3);
    }
    assert_eq!(attempts, 3);
    assert_eq!(runner.results.len(), 1);
    assert!(!runner.results[0].passed);
    assert_eq!(runner.results[0].attempts, 3);
    assert!(!runner.suite_passed());
}

#[test]
fn stage_short_circuits_on_first_match() {
    let suite = CheckConfig {
        test_name: "shortcircuit".to_string(),
        stages: vec![shell_stage("matches-at-once", "echo ok", 5, vec![exact("ok")])],
    };
    let mut runner = SuiteRunner::new(suite);
    runner.feed(Ok("ok\n".to_string()));
    assert!(runner.finished());
    assert_eq!(runner.results.len(), 1);
    assert!(runner.results[0].passed);
    assert_eq!(runner.results[0].attempts, 1);
    assert!(runner.suite_passed());
}

#[test]
fn suite_continues_after_a_failed_stage() {
    let suite = CheckConfig {
        test_name: "continues".to_string(),
        stages: vec![
            shell_stage("one", "echo a", 1, vec![exact("a")]),
            shell_stage("two", "echo b", 1, vec![exact("not-b")]),
            shell_stage("three", "echo c", 1, vec![exact("c")]),
        ],
    };
    let mut runner = SuiteRunner::new(suite);
    let outputs = ["a", "b", "c"];
    let mut executed = 0;
    while !runner.finished() {
        assert!(runner.current_request().is_some());
        runner.feed(Ok(outputs[runner.stage_idx].to_string()));
        executed += 1;
    }
    assert_eq!(executed, 3);
    assert_eq!(runner.results.len(), 3);
    assert!(runner.results[0].passed);
    assert!(!runner.results[1].passed);
    assert!(runner.results[2].passed);
    assert_eq!(runner.passed_stages(), 2);
    assert!(!runner.suite_passed());
}

#[test]
fn login_suite_passes_end_to_end() {
    let suite = CheckConfig {
        test_name: "login".to_string(),
        stages: vec![
            shell_stage(
                "fetch-token",
                "echo '{\"token\":\"abc\"}'",
                1,
                vec![StdoutMatcher::Json {
                    json: None,
                    save: Some(vec![("token".to_string(), "token".to_string())]),
                }],
            ),
            shell_stage("use-token", "echo {{ token }}", 1, vec![exact("abc")]),
        ],
    };
    let mut runner = SuiteRunner::new(suite);

    let first = runner.current_request().unwrap();
    match first.command {
        CheckCommand::Shell(c) => assert_eq!(c, "echo '{\"token\":\"abc\"}'"),
        _ => panic!("expected a shell action"),
    }
    runner.feed(Ok("{\"token\":\"abc\"}\n".to_string()));

    let second = runner.current_request().unwrap();
    match second.command {
        CheckCommand::Shell(c) => assert_eq!(c, "echo abc"),
        _ => panic!("expected a shell action"),
    }
    runner.feed(Ok("abc\n".to_string()));

    assert!(runner.finished());
    assert!(runner.suite_passed());
    assert_eq!(runner.passed_stages(), 2);
}

#[test]
fn http_request_fields_are_substituted() {
    let mut stage = shell_stage("http", "unused", 1, vec![exact("ok")]);
    stage.check = CheckCommand::HttpRequest {
        url: "http://example.test/items/{{ id }}".to_string(),
        headers: vec![("x-request-{{ id }}".to_string(), "token {{ token }}".to_string())],
        method: "GET".to_string(),
    };
    let suite = CheckConfig { test_name: "http".to_string(), stages: vec![stage] };
    let mut runner = SuiteRunner::new(suite);
    runner.store.insert(Backreference::Named("id".to_string()), "7".to_string());
    runner.store.insert(Backreference::Named("token".to_string()), "abc".to_string());
    let req: ActionRequest = runner.current_request().unwrap();
    match req.command {
        CheckCommand::HttpRequest { url, headers, method } => {
            assert_eq!(url, "http://example.test/items/7");
            assert_eq!(method, "GET");
            assert_eq!(headers, vec![("x-request-7".to_string(), "token abc".to_string())]);
        },
        _ => panic!("expected an HTTP action"),
    }
}

#[test]
fn delays_are_reported_with_the_request() {
    let mut stage = shell_stage("slow", "echo hi", 1, vec![exact("hi")]);
    stage.delay_before = Some(2);
    stage.delay_after = Some(1);
    let suite = CheckConfig { test_name: "delays".to_string(), stages: vec![stage] };
    let runner = SuiteRunner::new(suite);
    let req = runner.current_request().unwrap();
    assert_eq!(req.delay_before, Some(2));
    assert_eq!(req.delay_after, Some(1));
}

#[test]
fn metric_events_carry_names_and_tags() {
    let suite_name = "checks".to_string();
    let passed = cmdprobe::runner::StageResult {
        name: "first".to_string(),
        passed: true,
        attempts: 1,
    };
    let failed = cmdprobe::runner::StageResult {
        name: "second".to_string(),
        passed: false,
        attempts: 2,
    };
    let e1 = stage_metric(&suite_name, &passed);
    assert_eq!(e1.key, "stage.passed");
    assert_eq!(
        e1.tags,
        vec![
            ("test_name".to_string(), "checks".to_string()),
            ("stage".to_string(), "first".to_string())
        ]
    );
    let e2 = stage_metric(&suite_name, &failed);
    assert_eq!(e2.key, "stage.failed");
    let e3 = check_metric(&suite_name, true);
    assert_eq!(e3.key, "check.passed");
    assert_eq!(e3.tags, vec![("test_name".to_string(), "checks".to_string())]);
    assert_eq!(check_metric(&suite_name, false).key, "check.failed");
    assert_eq!(probe_metric(true).key, "probe.passed");
    assert_eq!(probe_metric(false).key, "probe.failed");
    assert!(probe_metric(true).tags.is_empty());
}

#[test]
fn probe_passes_only_when_every_suite_passed() {
    assert!(all_passed(&vec![]));
    assert!(all_passed(&vec![true, true]));
    assert!(!all_passed(&vec![true, false, true]));
}
