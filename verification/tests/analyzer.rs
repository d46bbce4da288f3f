use intent_probe::llm::analyzer::{
    convert_to_intent_parameters, extract_intent_context, find_source_file,
    generate_basic_params, interpret_reply, is_known_flag, parameter_from_fields,
    parse_llm_response, synthesize_default, validate_adb_command, validate_param_value,
    InferenceError, IntentParameter, SourceFile,
};
use intent_probe::llm::config::{
    choose_model, model_by_name, model_by_number, model_labels, LLMConfig, ModelEntry,
};
use intent_probe::utils::device::{installed_packages, split_lines};
use intent_probe::manifest::component::Component;
use intent_probe::utils::source::SourceNotFound;

fn texts(items: &[&str]) -> Vec<String> {
    items.iter().map(|s| s.to_string()).collect()
}

fn component(name: &str, package: &str) -> Component {
    Component::new(
        name.to_string(),
        package.to_string(),
        "activity".to_string(),
        true,
        String::new(),
        String::new(),
        0,
        name.to_string(),
        vec![],
        vec![],
        vec![],
        vec![],
        vec![],
        vec![],
        vec![],
        vec![],
        None,
        None,
    )
}

fn param(name: &str, param_type: &str, value: &str, flag: &str) -> IntentParameter {
    IntentParameter {
        name: name.to_string(),
        param_type: param_type.to_string(),
        value: value.to_string(),
        flag: flag.to_string(),
    }
}

fn fields(p: &IntentParameter) -> (&str, &str, &str, &str) {
    (p.name.as_str(), p.param_type.as_str(), p.value.as_str(), p.flag.as_str())
}

fn numbered(count: usize) -> Vec<String> {
    (0..count).map(|i| format!("line {}", i)).collect()
}

#[test]
fn context_of_lines_without_intent_code_is_empty() {
    assert_eq!(extract_intent_context(&numbered(20)), "");
    assert_eq!(extract_intent_context(&[]), "");
    assert_eq!(extract_intent_context(&texts(&["int x = 1;", "{", "}"])), "");
}

#[test]
fn context_takes_five_lines_before_and_runs_to_the_end_of_an_open_block() {
    let mut lines = numbered(12);
    lines[8] = "String a = intent.getStringExtra(\"a\");".to_string();
    let expected = [
        "line 3",
        "line 4",
        "line 5",
        "line 6",
        "line 7",
        "String a = intent.getStringExtra(\"a\");",
        "line 9",
        "line 10",
        "line 11",
    ]
    .join("\n");
    assert_eq!(extract_intent_context(&lines), expected);
}

#[test]
fn context_takes_six_lines_after_the_block_closes() {
    let mut lines = numbered(30);
    lines[2] = "if (getIntent().getAction() != null) {".to_string();
    lines[4] = "}".to_string();
    let expected = [
        "line 0",
        "line 1",
        "if (getIntent().getAction() != null) {",
        "line 3",
        "}",
        "line 5",
        "line 6",
        "line 7",
        "line 8",
        "line 9",
        "line 10",
    ]
    .join("\n");
    assert_eq!(extract_intent_context(&lines), expected);
}

#[test]
fn context_closes_on_a_line_that_opens_and_closes() {
    let mut lines = numbered(10);
    lines[0] = "void f() { setData(null); }".to_string();
    let expected = [
        "void f() { setData(null); }",
        "line 1",
        "line 2",
        "line 3",
        "line 4",
        "line 5",
        "line 6",
    ]
    .join("\n");
    assert_eq!(extract_intent_context(&lines), expected);
}

#[test]
fn context_never_repeats_a_line() {
    let lines = texts(&[
        "x",
        "intent.getData();",
        "x",
        "intent.getData();",
        "y",
        "x",
    ]);
    assert_eq!(extract_intent_context(&lines), "x\nintent.getData();\ny");
    let context = extract_intent_context(&lines);
    let mut seen: Vec<&str> = Vec::new();
    for line in context.split('\n') {
        assert!(!seen.contains(&line));
        seen.push(line);
    }
}

#[test]
fn context_is_the_same_for_the_same_lines() {
    let mut lines = numbered(40);
    lines[10] = "intent.putExtra(\"k\", 1) {".to_string();
    lines[20] = "}".to_string();
    lines[30] = "bundle = getBundle();".to_string();
    let copy = lines.clone();
    assert_eq!(extract_intent_context(&lines), extract_intent_context(&copy));
}

#[test]
fn context_knows_the_word_intent_only_with_a_verb() {
    assert_eq!(extract_intent_context(&texts(&["// handle the intent here"])), "");
    assert_eq!(extract_intent_context(&texts(&["intent.has(x)"])), "intent.has(x)");
    assert_eq!(extract_intent_context(&texts(&["x = intent; y.add(1)"])), "x = intent; y.add(1)");
    assert_eq!(extract_intent_context(&texts(&["Intent.get()"])), "");
    assert_eq!(extract_intent_context(&texts(&["normalize()"])), "normalize()");
}

#[test]
fn context_restarts_the_depth_at_every_relevant_line() {
    let lines = texts(&[
        "a {",
        "getAction() {",
        "getType() {",
        "}",
        "t1",
        "t2",
        "t3",
        "t4",
        "t5",
        "t6",
        "t7",
    ]);
    let expected = "a {\ngetAction() {\ngetType() {\n}\nt1\nt2\nt3\nt4\nt5\nt6";
    assert_eq!(extract_intent_context(&lines), expected);
}

#[test]
fn known_flags_are_the_six() {
    for flag in ["-a", "-c", "-d", "-t", "-e", "-f"] {
        assert!(is_known_flag(flag));
    }
    for flag in ["", "-x", "-A", "a", "--es", "-e "] {
        assert!(!is_known_flag(flag));
    }
}

#[test]
fn defaults_by_flag() {
    assert_eq!(synthesize_default("-a", "VIEW", "String"), "android.intent.action.VIEW");
    assert_eq!(synthesize_default("-c", "DEFAULT", "String"), "android.intent.category.DEFAULT");
    assert_eq!(synthesize_default("-d", "items", "Uri"), "content://items/example");
    assert_eq!(synthesize_default("-t", "text", "String"), "text/example");
    assert_eq!(synthesize_default("-f", "flags", "Int"), "1");
    assert_eq!(synthesize_default("-x", "other", "Int"), "example");
}

#[test]
fn defaults_of_extras_by_type() {
    assert_eq!(synthesize_default("-e", "k", "string"), "example_string");
    assert_eq!(synthesize_default("-e", "k", "String"), "example_string");
    assert_eq!(synthesize_default("-e", "k", "INTEGER"), "1");
    assert_eq!(synthesize_default("-e", "k", "long"), "1");
    assert_eq!(synthesize_default("-e", "k", "Boolean"), "true");
    assert_eq!(synthesize_default("-e", "k", "float"), "1.0");
    assert_eq!(synthesize_default("-e", "k", "Double"), "1.0");
    assert_eq!(synthesize_default("-e", "k", "Uri"), "content://k/example");
    assert_eq!(synthesize_default("-e", "k", "Parcelable"), "example");
    assert_eq!(synthesize_default("-e", "k", ""), "example");
    assert_eq!(synthesize_default("-e", "k", "int"), "example");
}

#[test]
fn defaults_are_never_empty_and_always_the_same() {
    for flag in ["-a", "-c", "-d", "-t", "-e", "-f", "", "?"] {
        for kind in ["string", "integer", "long", "boolean", "float", "double", "uri", "", "x"] {
            let first = synthesize_default(flag, "", kind);
            assert!(!first.is_empty());
            assert_eq!(first, synthesize_default(flag, "", kind));
        }
    }
}

#[test]
fn parameter_from_fields_wants_name_type_and_a_known_flag() {
    let full = parameter_from_fields(Some("k"), Some("String"), Some("v"), Some("-e")).unwrap();
    assert_eq!(fields(&full), ("k", "String", "v", "-e"));
    let defaulted = parameter_from_fields(Some("VIEW"), Some("String"), None, Some("-a")).unwrap();
    assert_eq!(fields(&defaulted), ("VIEW", "String", "android.intent.action.VIEW", "-a"));
    let empty = parameter_from_fields(Some("k"), Some("String"), Some(""), Some("-e")).unwrap();
    assert_eq!(fields(&empty), ("k", "String", "", "-e"));
    assert!(parameter_from_fields(None, Some("String"), Some("v"), Some("-e")).is_none());
    assert!(parameter_from_fields(Some("k"), None, Some("v"), Some("-e")).is_none());
    assert!(parameter_from_fields(Some("k"), Some("String"), Some("v"), None).is_none());
    assert!(parameter_from_fields(Some("k"), Some("String"), Some("v"), Some("-z")).is_none());
}

fn json(text: &str) -> serde_json::Value {
    serde_json::from_str(text).unwrap()
}

#[test]
fn response_parameters_are_read_in_order() {
    let analysis = json(
        r#"{"params": [
            {"name": "action", "type": "String", "value": "android.intent.action.VIEW", "flag": "-a"},
            {"name": "user_id", "type": "Integer", "flag": "-e"},
            {"name": "bad", "type": "String", "value": "x", "flag": "--es"},
            {"name": "no_type", "value": "x", "flag": "-e"},
            {"name": 5, "type": "String", "value": "x", "flag": "-e"},
            "text",
            ["-e"],
            {"name": "n", "type": "uri", "value": 7, "flag": "-e"},
            {"name": "t", "type": "String", "value": null, "flag": "-t"}
        ], "confidence": 0.9}"#,
    );
    let params = parse_llm_response(&analysis).unwrap();
    let got: Vec<_> = params.iter().map(fields).collect();
    assert_eq!(
        got,
        vec![
            ("action", "String", "android.intent.action.VIEW", "-a"),
            ("user_id", "Integer", "1", "-e"),
            ("n", "uri", "content://n/example", "-e"),
            ("t", "String", "t/example", "-t"),
        ]
    );
}

#[test]
fn response_without_a_params_array_is_invalid() {
    assert_eq!(parse_llm_response(&json("{}")).unwrap_err(), InferenceError::InvalidParams);
    assert_eq!(
        parse_llm_response(&json(r#"{"params": {"name": "x"}}"#)).unwrap_err(),
        InferenceError::InvalidParams
    );
    assert_eq!(parse_llm_response(&json("[1, 2]")).unwrap_err(), InferenceError::InvalidParams);
    assert_eq!(parse_llm_response(&json("null")).unwrap_err(), InferenceError::InvalidParams);
    assert!(parse_llm_response(&json(r#"{"params": []}"#)).unwrap().is_empty());
}

#[test]
fn reply_is_read_as_a_json_document() {
    let params =
        interpret_reply(r#"{"params":[{"name":"k","type":"boolean","flag":"-e"}],"confidence":1}"#)
            .unwrap();
    assert_eq!(params.len(), 1);
    assert_eq!(fields(&params[0]), ("k", "boolean", "true", "-e"));
    assert_eq!(interpret_reply("not json").unwrap_err(), InferenceError::Unparseable);
    assert_eq!(interpret_reply("").unwrap_err(), InferenceError::Unparseable);
    assert_eq!(interpret_reply("{\"params\": 3}").unwrap_err(), InferenceError::InvalidParams);
    assert_eq!(interpret_reply("{} trailing").unwrap_err(), InferenceError::Unparseable);
}

#[test]
fn basic_params_take_the_first_of_each_facet() {
    let mut c = component("com.app.Main", "com.app");
    assert!(generate_basic_params(&c).is_empty());
    c.actions = texts(&["android.intent.action.VIEW", "android.intent.action.EDIT"]);
    c.categories = texts(&["android.intent.category.DEFAULT"]);
    c.data_schemes = texts(&["https", "http"]);
    c.data_hosts = texts(&["example.com"]);
    c.data_paths = texts(&["/open", "/other"]);
    c.data_mime_types = texts(&["text/plain"]);
    let params = generate_basic_params(&c);
    let got: Vec<_> = params.iter().map(fields).collect();
    assert_eq!(
        got,
        vec![
            ("action", "String", "android.intent.action.VIEW", "-a"),
            ("category", "String", "android.intent.category.DEFAULT", "-c"),
            ("data", "Uri", "https://example.com/open", "-d"),
            ("type", "String", "text/plain", "-t"),
        ]
    );
}

#[test]
fn basic_params_need_scheme_and_host_for_the_address() {
    let mut c = component("com.app.Main", "com.app");
    c.data_schemes = texts(&["https"]);
    assert!(generate_basic_params(&c).is_empty());
    c.data_hosts = texts(&["example.com"]);
    let params = generate_basic_params(&c);
    assert_eq!(params.len(), 1);
    assert_eq!(fields(&params[0]), ("data", "Uri", "https://example.com", "-d"));
    for p in &params {
        assert!(is_known_flag(&p.flag));
    }
}

#[test]
fn validation_of_no_parameters_warns_once() {
    let validation = validate_adb_command(&vec![]);
    assert!(validation.accepted.is_empty());
    assert_eq!(validation.warnings, texts(&["No parameters provided for ADB command"]));
}

#[test]
fn validation_drops_unknown_flags_and_keeps_empty_values() {
    let validation = validate_adb_command(&vec![
        param("a", "String", "", "-a"),
        param("c", "String", "", "-c"),
        param("d", "Uri", "", "-d"),
        param("t", "String", "", "-t"),
        param("e", "String", "", "-e"),
        param("f", "Int", "", "-f"),
        param("odd", "String", "v", "--ez"),
        param("fine", "String", "v", "-e"),
    ]);
    let kept: Vec<_> = validation.accepted.iter().map(|p| p.name.as_str()).collect();
    assert_eq!(kept, vec!["a", "c", "d", "t", "e", "f", "fine"]);
    assert_eq!(
        validation.warnings,
        texts(&[
            "Warning: Action parameter 'a' has empty value",
            "Warning: Category parameter 'c' has empty value",
            "Warning: Data parameter 'd' has empty value",
            "Warning: Type parameter 't' has empty value",
            "Warning: Extra parameter 'e' has empty value",
            "Warning: Flag parameter 'f' has empty value",
            "Warning: Unknown flag '--ez' for parameter 'odd'",
        ])
    );
    for p in &validation.accepted {
        assert!(is_known_flag(&p.flag));
    }
}

#[test]
fn validation_warns_of_a_missing_action() {
    let validation = validate_adb_command(&vec![param("k", "String", "v", "-e")]);
    assert_eq!(validation.accepted.len(), 1);
    assert_eq!(
        validation.warnings,
        texts(&["ADB command must have at least one action (-a)"])
    );
    let fine = validate_adb_command(&vec![param("k", "String", "v", "-a")]);
    assert!(fine.warnings.is_empty());
}

#[test]
fn any_value_is_valid() {
    assert!(validate_param_value("-e", "", "String"));
    assert!(validate_param_value("?", "x", ""));
}

#[test]
fn convert_copies_the_parameters() {
    let params = vec![param("a", "String", "v", "-a"), param("b", "Int", "1", "-e")];
    let copy = convert_to_intent_parameters(&params);
    assert_eq!(copy.len(), 2);
    assert_eq!(fields(&copy[0]), fields(&params[0]));
    assert_eq!(fields(&copy[1]), fields(&params[1]));
    assert_eq!(params[0].to_string(), "-a v");
    assert_eq!(params[1].clone().to_string(), "-e 1");
}

fn file(path: &str, content: &str) -> SourceFile {
    SourceFile { path: path.to_string(), content: content.to_string() }
}

#[test]
fn source_by_file_name_comes_first() {
    let mut c = component("com.app.Main", "com.app");
    c.class_name = "Main".to_string();
    let files = vec![
        file("src/Other.java", "public class Other extends Main {}"),
        file("src/Main.txt", ""),
        file("src/Main.KT", "class Main"),
        file("src/Main.java", ""),
    ];
    assert_eq!(find_source_file(&c, &files).unwrap(), "src/Main.KT");
}

#[test]
fn source_by_content_comes_second() {
    let mut c = component("com.app.Main", "com.app");
    c.class_name = "Main".to_string();
    let files = vec![
        file("src/notes.txt", "class Main"),
        file("src/A.java", "class Unrelated {}"),
        file("src/B.kt", "val m = Main()"),
        file("src/C.java", "package com.app;"),
    ];
    assert_eq!(find_source_file(&c, &files).unwrap(), "src/B.kt");
    let none = vec![file("src/A.java", "class Unrelated {}"), file("src/.java", "class Main")];
    assert_eq!(find_source_file(&c, &none).unwrap_err(), SourceNotFound::NoCandidate);
    assert_eq!(find_source_file(&c, &vec![]).unwrap_err(), SourceNotFound::NoCandidate);
}

#[test]
fn config_new_and_default() {
    let config = LLMConfig::new("http://host/v1".to_string(), Some("key".to_string()), "m".to_string());
    assert_eq!(config.api_url, "http://host/v1");
    assert_eq!(config.api_key.as_deref(), Some("key"));
    assert_eq!(config.model_type, "m");
    assert_eq!(config.context_lines, 10);
    assert!(config.is_configured());
    let off = LLMConfig::new(String::new(), None, String::new());
    assert!(!off.is_configured());
    let default = LLMConfig::default();
    assert_eq!(default.model_type, "lmstudio");
    assert_eq!(default.api_url, "http://localhost:1234/v1");
    assert_eq!(default.api_key, None);
    assert_eq!(default.context_lines, 5);
    assert_eq!(default.clone().api_url, default.api_url);
}

#[test]
fn model_labels_prefer_the_name() {
    let labels = model_labels(vec![
        ModelEntry { id: "id-1".to_string(), name: Some("First".to_string()) },
        ModelEntry { id: "id-2".to_string(), name: None },
    ]);
    assert_eq!(labels, texts(&["First", "id-2"]));
}

#[test]
fn parcelable_elements_stand_for_their_alternatives() {
    let analysis = json(
        r#"{"params": [
            {"name": "a", "type": "String", "value": "v", "flag": "-a"},
            {"name": "p", "type": "Parcelable", "value": "x", "flag": "-e", "is_parcelable": true,
             "alternative_params": [
                {"name": "p.x", "type": "Integer", "value": "1", "flag": "-e"},
                {"name": "p.y", "type": "Integer", "flag": "-e"},
                {"name": "p.z", "type": "Integer", "value": "3", "flag": "anything"}
             ]},
            {"name": "q", "type": "Parcelable", "value": "x", "flag": "-e", "is_parcelable": true},
            {"name": "r", "type": "String", "value": "x", "flag": "-e", "is_parcelable": "yes"},
            {"name": "s", "type": "String", "flag": "-e", "is_parcelable": false},
            7
        ], "confidence": 0.7}"#,
    );
    let params = intent_probe::llm::analyzer::parse_parcelable_response(&analysis).unwrap();
    let got: Vec<_> = params.iter().map(fields).collect();
    assert_eq!(
        got,
        vec![
            ("a", "String", "v", "-a"),
            ("p.x", "Integer", "1", "-e"),
            ("p.z", "Integer", "3", "anything"),
            ("r", "String", "x", "-e"),
        ]
    );
    assert_eq!(
        intent_probe::llm::analyzer::parse_parcelable_response(&json("{\"params\": 1}"))
            .unwrap_err(),
        InferenceError::InvalidParams
    );
}

#[test]
fn a_model_is_chosen_by_number_or_by_name() {
    let models = texts(&["Llama-3-8B", "Qwen2 7B", "3", "ÄRGER"]);
    assert_eq!(choose_model(&models, "2").as_deref(), Some("Qwen2 7B"));
    assert_eq!(choose_model(&models, "4").as_deref(), Some("ÄRGER"));
    assert_eq!(choose_model(&models, "0"), None);
    assert_eq!(choose_model(&models, "5"), None);
    assert_eq!(choose_model(&models, "7"), Some("Qwen2 7B".to_string()));
    assert_eq!(choose_model(&models, "LLAMA").as_deref(), Some("Llama-3-8B"));
    assert_eq!(choose_model(&models, "ärg").as_deref(), Some("ÄRGER"));
    assert_eq!(choose_model(&models, "").as_deref(), Some("Llama-3-8B"));
    assert_eq!(choose_model(&models, "gpt"), None);
    assert_eq!(choose_model(&vec![], "1"), None);
    assert_eq!(model_by_number(&models, Some(1)).as_deref(), Some("Llama-3-8B"));
    assert_eq!(model_by_number(&models, Some(u64::MAX)), None);
    assert_eq!(model_by_number(&models, None), None);
    assert_eq!(model_by_name(&models, "LLAMA"), None);
    assert_eq!(model_by_name(&models, "b").as_deref(), Some("Llama-3-8B"));
}

#[test]
fn packages_are_read_off_the_listing() {
    assert_eq!(
        installed_packages("package:com.a\r\npackage:com.b\nnoise\n package:x\npackage:\npackage:last"),
        texts(&["com.a", "com.b", "", "last"])
    );
    assert!(installed_packages("").is_empty());
    assert_eq!(split_lines("a\n\nb\r\n\r\nc\r"), texts(&["a", "", "b", "", "c\r"]));
    assert_eq!(split_lines("one"), texts(&["one"]));
    assert_eq!(split_lines("\n"), texts(&[""]));
    assert!(split_lines("").is_empty());
    let text = "x\r\r\ny\n";
    let expected: Vec<String> = text.lines().map(|l| l.to_string()).collect();
    assert_eq!(split_lines(text), expected);
}
