use intent_probe::manifest::component::Component;
use intent_probe::manifest::parser::{
    collect_components, is_manifest_file, parse_manifest, Attribute, ManifestError,
    ManifestSource, MarkupEvent, Phase, Registry,
};
use intent_probe::manifest::permissions::{
    get_permission_level_value, get_permission_protection_level, is_selected,
    should_show_component, PermissionLevel,
};

fn texts(items: &[&str]) -> Vec<String> {
    items.iter().map(|s| s.to_string()).collect()
}

fn source(filter: Option<&str>) -> ManifestSource {
    ManifestSource {
        path: "app/src/main/AndroidManifest.xml".to_string(),
        directory: "app/src/main".to_string(),
        package_filter: filter.map(|s| s.to_string()),
    }
}

fn plain_component(name: &str, package: &str) -> Component {
    Component::new(
        name.to_string(),
        package.to_string(),
        "activity".to_string(),
        true,
        "app/src/main".to_string(),
        "app/src/main/AndroidManifest.xml".to_string(),
        3,
        name.to_string(),
        vec![],
        vec![],
        vec![],
        vec![],
        vec![],
        vec![],
        vec![],
        vec![],
        None,
        None,
    )
}

const MANIFEST: &str = r#"<?xml version="1.0" encoding="utf-8"?>
<manifest xmlns:android="http://schemas.android.com/apk/res/android"
    package="com.app" android:sharedUserId="com.app.shared">
    <application android:label="demo">
        <activity android:name=".MainActivity" android:exported="true">
            <intent-filter>
                <action android:name="android.intent.action.VIEW" />
                <action android:name="android.intent.action.VIEW" />
                <category android:name="android.intent.category.DEFAULT" />
                <data android:scheme="https" android:host="example.com" android:path="/open" />
                <data android:mimeType="text/plain" />
            </intent-filter>
        </activity>
        <service android:name="com.app.sync.SyncService" android:exported="false" />
        <receiver android:exported="true" />
        <provider android:name=".data.Provider" android:exported="true">
            <intent-filter>
                <action android:name="com.app.QUERY" />
            </intent-filter>
        </provider>
    </application>
</manifest>
"#;

#[test]
fn new_keeps_first_occurrence_of_each_facet_value() {
    let component = Component::new(
        "com.app.Main".to_string(),
        "com.app".to_string(),
        "activity".to_string(),
        true,
        "dir".to_string(),
        "dir/AndroidManifest.xml".to_string(),
        7,
        "Main".to_string(),
        texts(&["b", "a", "b", "c", "a"]),
        texts(&["x", "x"]),
        texts(&["http", "https", "http"]),
        texts(&[]),
        texts(&["/p"]),
        texts(&["text/plain", "text/plain"]),
        texts(&["perm", "perm"]),
        texts(&["fperm", "fperm"]),
        Some("uid".to_string()),
        Some("<activity>".to_string()),
    );
    assert_eq!(component.actions, texts(&["b", "a", "c"]));
    assert_eq!(component.categories, texts(&["x"]));
    assert_eq!(component.data_schemes, texts(&["http", "https"]));
    assert!(component.data_hosts.is_empty());
    assert_eq!(component.data_paths, texts(&["/p"]));
    assert_eq!(component.data_mime_types, texts(&["text/plain"]));
    assert_eq!(component.permissions, texts(&["perm", "perm"]));
    assert_eq!(component.intent_filter_permissions, texts(&["fperm", "fperm"]));
    assert_eq!(component.name, "com.app.Main");
    assert_eq!(component.class_name, "Main");
    assert_eq!(component.package, "com.app");
    assert_eq!(component.manifest_line, 7);
    assert_eq!(component.shared_user_id.as_deref(), Some("uid"));
}

#[test]
fn from_path_reads_kind_package_and_class() {
    let component = Component::from_path("src/activity/demo/MainActivity.java").unwrap();
    assert_eq!(component.name, "demo.MainActivity");
    assert_eq!(component.class_name, "MainActivity");
    assert_eq!(component.package, "demo");
    assert_eq!(component.component_type, "activity");
    assert!(!component.exported);
    assert!(component.actions.is_empty());
    assert_eq!(component.manifest_line, 0);
}

#[test]
fn from_path_takes_the_first_kind_in_the_fixed_order() {
    let component = Component::from_path("x/provider/y/service/pkg/Sync.kt").unwrap();
    assert_eq!(component.component_type, "service");
    assert_eq!(component.package, "pkg");
    assert_eq!(component.class_name, "Sync");
}

#[test]
fn from_path_cuts_the_class_at_the_first_dot() {
    let component = Component::from_path("/receiver/pkg/Boot.generated.java").unwrap();
    assert_eq!(component.class_name, "Boot");
    assert_eq!(component.name, "pkg.Boot");
    assert_eq!(component.component_type, "receiver");
}

#[test]
fn from_path_rejects_what_is_no_component_source() {
    assert!(Component::from_path("MainActivity.java").is_none());
    assert!(Component::from_path("src/main/demo/MainActivity.java").is_none());
    assert!(Component::from_path("src/activity/demo/MainActivity.txt").is_none());
    assert!(Component::from_path("src/activity/demo/").is_none());
    assert!(Component::from_path("").is_none());
}

#[test]
fn set_shared_user_id_changes_only_that_field() {
    let mut component = plain_component("com.app.Main", "com.app");
    component.set_shared_user_id("android.uid.system".to_string());
    assert_eq!(component.shared_user_id.as_deref(), Some("android.uid.system"));
    assert_eq!(component.name, "com.app.Main");
    assert_eq!(component.manifest_line, 3);
}

#[test]
fn clone_copies_every_field() {
    let mut component = plain_component("com.app.Main", "com.app");
    component.actions = texts(&["a", "b"]);
    let copy = component.clone();
    assert_eq!(copy.name, component.name);
    assert_eq!(copy.actions, component.actions);
    assert_eq!(copy.manifest_path, component.manifest_path);
}

#[test]
fn parse_manifest_collects_the_declared_components() {
    let components = parse_manifest(MANIFEST.as_bytes(), &source(None)).unwrap();
    assert_eq!(components.len(), 3);

    let main = &components[0];
    assert_eq!(main.name, "com.app.MainActivity");
    assert_eq!(main.class_name, "com.app.MainActivity");
    assert_eq!(main.package, "com.app");
    assert_eq!(main.component_type, "activity");
    assert!(main.exported);
    assert_eq!(main.actions, texts(&["android.intent.action.VIEW"]));
    assert_eq!(main.categories, texts(&["android.intent.category.DEFAULT"]));
    assert_eq!(main.data_schemes, texts(&["https"]));
    assert_eq!(main.data_hosts, texts(&["example.com"]));
    assert_eq!(main.data_paths, texts(&["/open"]));
    assert_eq!(main.data_mime_types, texts(&["text/plain"]));
    assert_eq!(main.shared_user_id.as_deref(), Some("com.app.shared"));
    assert_eq!(main.manifest_path, "app/src/main/AndroidManifest.xml");
    assert_eq!(main.manifest_dir, "app/src/main");
    assert_eq!(main.manifest_line, 3);
    assert_eq!(main.xml_element.as_deref(), Some("<activity name=.MainActivity exported=true>"));

    let service = &components[1];
    assert_eq!(service.name, "com.app.sync.SyncService");
    assert_eq!(service.component_type, "service");
    assert!(!service.exported);
    // No filter of its own: the facets seen last are merged in.
    assert_eq!(service.actions, texts(&["android.intent.action.VIEW"]));

    let provider = &components[2];
    assert_eq!(provider.name, "com.app.data.Provider");
    assert_eq!(provider.component_type, "provider");
    assert_eq!(provider.actions, texts(&["com.app.QUERY"]));
    assert!(provider.categories.is_empty());
    assert!(provider.data_schemes.is_empty());
}

#[test]
fn parse_manifest_never_emits_a_name_that_begins_with_a_dot() {
    let components = parse_manifest(MANIFEST.as_bytes(), &source(None)).unwrap();
    for component in &components {
        assert!(!component.name.starts_with('.'));
        assert!(["activity", "service", "receiver", "provider"]
            .contains(&component.component_type.as_str()));
    }
}

#[test]
fn parse_manifest_applies_the_package_filter() {
    let kept = parse_manifest(MANIFEST.as_bytes(), &source(Some("com.app"))).unwrap();
    assert_eq!(kept.len(), 3);
    let dropped = parse_manifest(MANIFEST.as_bytes(), &source(Some("com.other"))).unwrap();
    assert!(dropped.is_empty());
}

#[test]
fn parse_manifest_rejects_malformed_markup() {
    let broken = "<manifest package=\"com.app\"><activity android:name=\".A\"></manifest>";
    match parse_manifest(broken.as_bytes(), &source(None)) {
        Err(ManifestError::Malformed(message)) => assert!(!message.is_empty()),
        Ok(_) => panic!("malformed markup was accepted"),
    }
    assert!(parse_manifest(b"", &source(None)).is_err());
}

#[test]
fn parse_manifest_of_a_document_without_components_is_empty() {
    let components = parse_manifest(b"<manifest package=\"p\"/>", &source(None)).unwrap();
    assert!(components.is_empty());
}

fn open(name: &str, attributes: &[(&str, &str)]) -> MarkupEvent {
    MarkupEvent::Open {
        name: name.to_string(),
        attributes: attributes
            .iter()
            .map(|(n, v)| Attribute { name: n.to_string(), value: v.to_string() })
            .collect(),
    }
}

fn close(name: &str) -> MarkupEvent {
    MarkupEvent::Close { name: name.to_string() }
}

#[test]
fn collect_components_skips_a_declaration_without_a_name() {
    let events = vec![
        open("manifest", &[("package", "p")]),
        open("activity", &[("exported", "true")]),
        close("activity"),
        open("activity", &[("name", "")]),
        close("activity"),
        open("service", &[("name", "p.S")]),
        close("service"),
        close("manifest"),
    ];
    let components = collect_components(&events, &source(None));
    assert_eq!(components.len(), 1);
    assert_eq!(components[0].name, "p.S");
    assert_eq!(components[0].manifest_line, 4);
}

#[test]
fn collect_components_ignores_facets_outside_a_filter() {
    let events = vec![
        open("manifest", &[("package", "p")]),
        open("activity", &[("name", ".A")]),
        open("action", &[("name", "stray")]),
        open("intent-filter", &[]),
        open("action", &[("name", "one"), ("other", "x"), ("name", "two")]),
        open("permission", &[("name", "perm"), ("name", "perm")]),
        MarkupEvent::Other,
        close("intent-filter"),
        open("category", &[("name", "late")]),
        close("activity"),
    ];
    let components = collect_components(&events, &source(None));
    assert_eq!(components.len(), 1);
    assert_eq!(components[0].name, "p.A");
    assert_eq!(components[0].actions, texts(&["one", "two"]));
    assert!(components[0].categories.is_empty());
    assert_eq!(components[0].intent_filter_permissions, texts(&["perm", "perm"]));
    assert_eq!(components[0].xml_element.as_deref(), Some("<activity name=.A>"));
}

#[test]
fn registry_accepts_events_one_by_one() {
    let mut registry = Registry::new();
    let src = source(None);
    registry.accept(&open("manifest", &[("package", "p"), ("sharedUserId", "u")]), &src);
    assert_eq!(registry.package, "p");
    assert_eq!(registry.shared_user_id.as_deref(), Some("u"));
    assert_eq!(registry.line, 1);
    registry.accept(&open("receiver", &[("name", ".R"), ("exported", "true")]), &src);
    assert!(registry.current.is_some());
    registry.accept(&open("intent-filter", &[]), &src);
    assert!(registry.in_intent_filter);
    registry.accept(&open("data", &[("scheme", "s"), ("host", "h"), ("mimeType", "m/n")]), &src);
    registry.accept(&close("intent-filter"), &src);
    assert!(!registry.in_intent_filter);
    registry.accept(&close("receiver"), &src);
    assert!(registry.current.is_none());
    assert_eq!(registry.components.len(), 1);
    let receiver = &registry.components[0];
    assert_eq!(receiver.name, "p.R");
    assert!(receiver.exported);
    assert_eq!(receiver.data_schemes, texts(&["s"]));
    assert_eq!(receiver.data_hosts, texts(&["h"]));
    assert_eq!(receiver.data_mime_types, texts(&["m/n"]));
    assert_eq!(receiver.shared_user_id.as_deref(), Some("u"));
    assert_eq!(receiver.manifest_line, 2);
}

#[test]
fn is_manifest_file_wants_the_name_and_no_test_in_the_path() {
    assert!(is_manifest_file("app/src/main/AndroidManifest.xml", "AndroidManifest.xml"));
    assert!(!is_manifest_file("app/src/test/AndroidManifest.xml", "AndroidManifest.xml"));
    assert!(!is_manifest_file("app/latest/AndroidManifest.xml", "AndroidManifest.xml"));
    assert!(is_manifest_file("app/src/androidTest/AndroidManifest.xml", "AndroidManifest.xml"));
    assert!(!is_manifest_file("app/src/main/Manifest.xml", "Manifest.xml"));
}

#[test]
fn permission_levels_have_their_ranks() {
    assert_eq!(get_permission_level_value("normal"), 1);
    assert_eq!(get_permission_level_value("dangerous"), 2);
    assert_eq!(get_permission_level_value("signature"), 3);
    assert_eq!(get_permission_level_value("signature|privileged"), 4);
    assert_eq!(get_permission_level_value("Normal"), 0);
    assert_eq!(get_permission_level_value(""), 0);
}

fn table() -> Vec<PermissionLevel> {
    vec![
        PermissionLevel { permission: "READ".to_string(), level: "dangerous".to_string() },
        PermissionLevel { permission: "SIGN".to_string(), level: "signature".to_string() },
        PermissionLevel { permission: "READ".to_string(), level: "normal".to_string() },
    ]
}

#[test]
fn protection_level_is_that_of_the_first_entry() {
    assert_eq!(get_permission_protection_level(&table(), "READ").as_deref(), Some("dangerous"));
    assert_eq!(get_permission_protection_level(&table(), "SIGN").as_deref(), Some("signature"));
    assert_eq!(get_permission_protection_level(&table(), "NONE"), None);
}

#[test]
fn should_show_component_compares_the_highest_rank() {
    let mut component = plain_component("p.A", "p");
    assert!(should_show_component(&component, "normal", &table()));
    assert!(!should_show_component(&component, "unknown", &table()));
    component.permissions = texts(&["READ"]);
    assert!(!should_show_component(&component, "normal", &table()));
    assert!(should_show_component(&component, "dangerous", &table()));
    component.intent_filter_permissions = texts(&["NONE", "SIGN"]);
    assert!(!should_show_component(&component, "dangerous", &table()));
    assert!(should_show_component(&component, "signature", &table()));
}

#[test]
fn is_selected_applies_both_filters() {
    let mut component = plain_component("p.A", "p");
    let alive = texts(&["q", "p"]);
    let others = texts(&["q"]);
    assert!(is_selected(&component, None, false));
    assert!(is_selected(&component, Some(&alive), true));
    assert!(!is_selected(&component, Some(&others), false));
    component.set_shared_user_id("u".to_string());
    assert!(is_selected(&component, Some(&alive), false));
    assert!(!is_selected(&component, Some(&alive), true));
}

#[test]
fn registry_tells_its_phase() {
    let mut registry = Registry::new();
    let src = source(None);
    assert_eq!(registry.phase(), Phase::Neutral);
    registry.accept(&MarkupEvent::Other, &src);
    assert_eq!(registry.phase(), Phase::Neutral);
    registry.accept(&open("manifest", &[("package", "p")]), &src);
    assert_eq!(registry.phase(), Phase::InManifest);
    registry.accept(&open("application", &[]), &src);
    assert_eq!(registry.phase(), Phase::InManifest);
    registry.accept(&open("activity", &[("name", ".A")]), &src);
    assert_eq!(registry.phase(), Phase::InComponentDeclaration);
    registry.accept(&open("intent-filter", &[]), &src);
    assert_eq!(registry.phase(), Phase::InIntentFilter);
    registry.accept(&close("intent-filter"), &src);
    assert_eq!(registry.phase(), Phase::InComponentDeclaration);
    registry.accept(&close("activity"), &src);
    assert_eq!(registry.phase(), Phase::InManifest);
    registry.accept(&close("application"), &src);
    assert_eq!(registry.phase(), Phase::InManifest);
    registry.accept(&close("manifest"), &src);
    assert_eq!(registry.phase(), Phase::Neutral);
    assert_eq!(registry.components.len(), 1);
}
