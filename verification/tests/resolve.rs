use intent_probe::llm::analyzer::{is_known_flag, IntentParameter};
use intent_probe::manifest::component::Component;
use intent_probe::resolve::{
    advance, resolve_from_inference, resolve_from_manifest, resolve_from_reply,
    resolve_from_structure, synthesize_command, Fallback, Origin, ResolveAction, ResolveEvent,
    Resolution, Stage,
};

fn texts(items: &[&str]) -> Vec<String> {
    items.iter().map(|s| s.to_string()).collect()
}

fn main_activity() -> Component {
    Component::new(
        "com.app.MainActivity".to_string(),
        "com.app".to_string(),
        "activity".to_string(),
        true,
        "proj/app".to_string(),
        "proj/app/AndroidManifest.xml".to_string(),
        4,
        "com.app.MainActivity".to_string(),
        texts(&["android.intent.action.VIEW"]),
        vec![],
        vec![],
        vec![],
        vec![],
        vec![],
        vec![],
        vec![],
        None,
        None,
    )
}

fn java(body: &str) -> String {
    format!(
        "package com.app;\n\npublic class MainActivity extends Activity {{\n    void onCreate(Bundle state) {{\n{}\n    }}\n}}\n",
        body
    )
}

fn finished(next: (Stage, ResolveAction)) -> Resolution {
    assert_eq!(next.0, Stage::Finished);
    match next.1 {
        ResolveAction::Finish(resolution) => resolution,
        other => panic!("not finished: {:?}", other),
    }
}

fn fields(p: &IntentParameter) -> (&str, &str, &str, &str) {
    (p.name.as_str(), p.param_type.as_str(), p.value.as_str(), p.flag.as_str())
}

fn to_source_stage(component: &Component, inference: bool) -> Stage {
    let (stage, action) = advance(component, inference, Stage::Start, ResolveEvent::Begin);
    assert_eq!(stage, Stage::AwaitingFiles);
    assert!(matches!(action, ResolveAction::ListFiles));
    let paths = texts(&["proj/app/src/com/app/MainActivity.java", "proj/app/src/com/app/Util.java"]);
    let (stage, action) = advance(component, inference, stage, ResolveEvent::FilesListed(paths));
    assert_eq!(stage, Stage::AwaitingSource);
    match action {
        ResolveAction::ReadSource(path) => {
            assert_eq!(path, "proj/app/src/com/app/MainActivity.java")
        }
        other => panic!("unexpected action: {:?}", other),
    }
    stage
}

#[test]
fn manifest_defaults_when_no_source_matches() {
    let component = main_activity();
    let (stage, _) = advance(&component, true, Stage::Start, ResolveEvent::Begin);
    let next = advance(&component, true, stage, ResolveEvent::FilesListed(texts(&["proj/app/x.txt"])));
    let resolution = finished(next);
    assert_eq!(resolution.origin, Origin::Manifest);
    assert_eq!(resolution.fallback, Some(Fallback::SourceNotFound));
    assert!(resolution.warnings.is_empty());
    let command = synthesize_command(&component, &resolution);
    assert!(command.ends_with("-n com.app/.MainActivity -a android.intent.action.VIEW"));
    assert_eq!(
        command,
        "adb shell am start -n com.app/.MainActivity -a android.intent.action.VIEW"
    );
}

#[test]
fn structural_parameter_without_default() {
    let component = main_activity();
    let stage = to_source_stage(&component, true);
    let source = java("        String id = intent.getStringExtra(\"user_id\");");
    let resolution = finished(advance(&component, true, stage, ResolveEvent::SourceRead(source)));
    assert_eq!(resolution.origin, Origin::SyntaxTree);
    assert_eq!(resolution.fallback, None);
    assert_eq!(resolution.params.len(), 1);
    assert_eq!(fields(&resolution.params[0]), ("user_id", "string", "string", "-e"));
    assert_eq!(resolution.arguments, texts(&["--es user_id string"]));
    assert_eq!(
        synthesize_command(&component, &resolution),
        "adb shell am start -n com.app/.MainActivity --es user_id string"
    );
}

#[test]
fn empty_context_skips_the_inference() {
    let component = main_activity();
    let stage = to_source_stage(&component, true);
    let source = "class MainActivity {\n  int x = 1;\n}\n".to_string();
    let resolution = finished(advance(&component, true, stage, ResolveEvent::SourceRead(source)));
    assert_eq!(resolution.origin, Origin::Manifest);
    assert_eq!(resolution.fallback, Some(Fallback::NoContext));
    assert_eq!(resolution.params.len(), 1);
    assert_eq!(
        fields(&resolution.params[0]),
        ("action", "String", "android.intent.action.VIEW", "-a")
    );
    let empty = finished(advance(&component, true, stage, ResolveEvent::SourceRead(String::new())));
    assert_eq!(empty.fallback, Some(Fallback::NoContext));
}

#[test]
fn inference_is_asked_with_the_context_and_its_reply_is_validated() {
    let component = main_activity();
    let stage = to_source_stage(&component, true);
    let source = "a\r\nString action = getIntent().getAction();\nb\n".to_string();
    let (stage, action) = advance(&component, true, stage, ResolveEvent::SourceRead(source));
    assert_eq!(stage, Stage::AwaitingReply);
    match action {
        ResolveAction::Infer(context) => {
            assert_eq!(context, "a\nString action = getIntent().getAction();\nb")
        }
        other => panic!("unexpected action: {:?}", other),
    }
    let reply = r#"{"params":[
        {"name":"id","type":"String","value":"","flag":"-e"},
        {"name":"odd","type":"String","value":"x","flag":"-q"},
        {"name":"VIEW","type":"String","flag":"-a"}],"confidence":0.5}"#;
    let resolution =
        finished(advance(&component, true, stage, ResolveEvent::Replied(reply.to_string())));
    assert_eq!(resolution.origin, Origin::Inferred);
    let got: Vec<_> = resolution.params.iter().map(fields).collect();
    assert_eq!(
        got,
        vec![("id", "String", "", "-e"), ("VIEW", "String", "android.intent.action.VIEW", "-a")]
    );
    assert_eq!(resolution.warnings, texts(&["Warning: Extra parameter 'id' has empty value"]));
    assert_eq!(
        synthesize_command(&component, &resolution),
        "adb shell am start -n com.app/.MainActivity -e  -a android.intent.action.VIEW"
    );
}

#[test]
fn failures_of_the_inference_fall_back_to_the_manifest() {
    let component = main_activity();
    for event in [
        ResolveEvent::InferenceFailed,
        ResolveEvent::Replied("no json".to_string()),
        ResolveEvent::Replied("{\"confidence\": 1}".to_string()),
        ResolveEvent::Replied("{\"params\": []}".to_string()),
        ResolveEvent::Replied("{\"params\": [{\"name\": \"x\", \"type\": \"y\", \"flag\": \"z\"}]}".to_string()),
    ] {
        let resolution = finished(advance(&component, true, Stage::AwaitingReply, event));
        assert_eq!(resolution.origin, Origin::Manifest);
        assert_eq!(resolution.fallback, Some(Fallback::InferenceFailure));
        assert_eq!(resolution.params.len(), 1);
    }
}

#[test]
fn without_inference_the_manifest_follows_the_syntax_tree() {
    let component = main_activity();
    let stage = to_source_stage(&component, false);
    let source = "String action = getIntent().getAction();".to_string();
    let nothing = finished(advance(&component, false, stage, ResolveEvent::SourceRead(source)));
    assert_eq!(nothing.fallback, Some(Fallback::NothingShown));
    assert_eq!(nothing.origin, Origin::Manifest);
}

#[test]
fn unreadable_or_ambiguous_sources_fall_back() {
    let component = main_activity();
    let unreadable =
        finished(advance(&component, true, Stage::AwaitingSource, ResolveEvent::ReadFailed));
    assert_eq!(unreadable.fallback, Some(Fallback::SourceUnreadable));
    let twice = texts(&["proj/app/a/MainActivity.java", "proj/app/b/MainActivity.kt"]);
    let ambiguous =
        finished(advance(&component, true, Stage::AwaitingFiles, ResolveEvent::FilesListed(twice)));
    assert_eq!(ambiguous.fallback, Some(Fallback::SourceNotFound));
}

#[test]
fn evidence_out_of_turn_falls_back_and_a_finished_resolver_idles() {
    let component = main_activity();
    let early = finished(advance(&component, true, Stage::Start, ResolveEvent::ReadFailed));
    assert_eq!(early.fallback, Some(Fallback::OutOfTurn));
    let again = finished(advance(&component, true, Stage::AwaitingSource, ResolveEvent::Begin));
    assert_eq!(again.fallback, Some(Fallback::OutOfTurn));
    let (stage, action) = advance(&component, true, Stage::Finished, ResolveEvent::Begin);
    assert_eq!(stage, Stage::Finished);
    assert!(matches!(action, ResolveAction::Idle));
}

#[test]
fn every_resolution_carries_known_flags() {
    let component = main_activity();
    let structural = resolve_from_structure(&vec![
        intent_probe::utils::source::IntentParameter {
            name: "data".to_string(),
            value: "uri".to_string(),
            type_: "uri".to_string(),
            method: "getData".to_string(),
        },
        intent_probe::utils::source::IntentParameter {
            name: "n".to_string(),
            value: "1".to_string(),
            type_: "int".to_string(),
            method: "getIntExtra".to_string(),
        },
    ]);
    let flags: Vec<_> = structural.params.iter().map(|p| p.flag.as_str()).collect();
    assert_eq!(flags, vec!["-d", "-e"]);
    assert_eq!(structural.arguments, texts(&["-d uri", "--ei n 1"]));
    assert_eq!(
        synthesize_command(&component, &structural),
        "adb shell am start -n com.app/.MainActivity -d uri --ei n 1"
    );
    let inferred = resolve_from_inference(&vec![
        IntentParameter {
            name: "a".to_string(),
            param_type: "String".to_string(),
            value: "v".to_string(),
            flag: "-a".to_string(),
        },
        IntentParameter {
            name: "b".to_string(),
            param_type: "String".to_string(),
            value: "v".to_string(),
            flag: "-b".to_string(),
        },
    ]);
    let manifest = resolve_from_manifest(&component, Fallback::NoContext);
    let reply = resolve_from_reply(&component, "{\"params\":[{\"name\":\"f\",\"type\":\"int\",\"flag\":\"-f\"}]}");
    assert_eq!(reply.origin, Origin::Inferred);
    assert_eq!(
        reply.warnings,
        texts(&["ADB command must have at least one action (-a)"])
    );
    for resolution in [&structural, &inferred, &manifest, &reply] {
        for p in &resolution.params {
            assert!(is_known_flag(&p.flag));
        }
    }
    assert_eq!(inferred.params.len(), 1);
    assert_eq!(inferred.warnings, texts(&["Warning: Unknown flag '-b' for parameter 'b'"]));
}
