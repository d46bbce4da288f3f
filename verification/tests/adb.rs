use intent_probe::llm::analyzer::IntentParameter;
use intent_probe::manifest::component::Component;
use intent_probe::utils::adb::{generate_adb_commands, normalize_name, ADBCommand, CommandError};

fn texts(items: &[&str]) -> Vec<String> {
    items.iter().map(|s| s.to_string()).collect()
}

fn component(name: &str, package: &str, kind: &str) -> Component {
    Component::new(
        name.to_string(),
        package.to_string(),
        kind.to_string(),
        true,
        String::new(),
        String::new(),
        0,
        name.to_string(),
        vec![],
        vec![],
        vec![],
        vec![],
        vec![],
        vec![],
        vec![],
        vec![],
        None,
        None,
    )
}

fn param(name: &str, param_type: &str, value: &str, flag: &str) -> IntentParameter {
    IntentParameter {
        name: name.to_string(),
        param_type: param_type.to_string(),
        value: value.to_string(),
        flag: flag.to_string(),
    }
}

#[test]
fn normalize_strips_the_package_in_front() {
    assert_eq!(normalize_name("com.app", "com.app.MainActivity"), ".MainActivity");
    assert_eq!(normalize_name("com.app", "com.app.ui.MainActivity"), ".ui.MainActivity");
    assert_eq!(normalize_name("com.app", "com.app...Main"), ".Main");
    assert_eq!(normalize_name("com.app", "com.app"), ".");
}

#[test]
fn normalize_puts_a_dot_in_front_of_a_foreign_name() {
    assert_eq!(normalize_name("com.app", "org.lib.Activity"), ".org.lib.Activity");
    assert_eq!(normalize_name("com.app", ".Sub"), ".Sub");
    assert_eq!(normalize_name("com.app", ""), ".");
}

#[test]
fn normalize_keeps_what_follows_the_last_embedded_package() {
    assert_eq!(normalize_name("com.app", "com.app.com.app.Sub"), "Sub");
    assert_eq!(normalize_name("com.app", ".com.app.Sub"), "Sub");
    assert_eq!(normalize_name("com.app", "x.com.app.y.com.app..Sub"), "Sub");
    assert_eq!(normalize_name("aa", "xaaab"), "ab");
    assert_eq!(normalize_name("aa", "xaaaab"), "b");
    assert_eq!(normalize_name("aa", "xaaaa"), "");
}

#[test]
fn normalize_of_a_short_name_in_a_longer_package() {
    // The package `com.app` does not occur in `.app.Sub`: no pass changes it.
    assert_eq!(normalize_name("com.app", ".app.Sub"), ".app.Sub");
}

#[test]
fn normalize_with_an_empty_package_leaves_nothing() {
    assert_eq!(normalize_name("", "com.app.Main"), "");
    assert_eq!(normalize_name("", ""), "");
}

#[test]
fn normalize_twice_is_normalize_once_where_the_third_pass_rests() {
    for (package, name) in [
        ("com.app", "com.app.MainActivity"),
        ("com.app", "org.lib.Activity"),
        ("com.app", ".app.Sub"),
        ("com.app", ""),
        ("", "anything"),
        ("p", "p.q.R"),
    ] {
        let once = normalize_name(package, name);
        assert_eq!(normalize_name(package, &once), once);
    }
}

#[test]
fn normalize_twice_differs_where_the_third_pass_cuts() {
    let once = normalize_name("com.app", "com.app.com.app.Sub");
    assert_eq!(once, "Sub");
    assert_eq!(normalize_name("com.app", &once), ".Sub");
}

#[test]
fn build_command_without_a_component_fails() {
    let command = ADBCommand::new();
    assert_eq!(command.build_command(), Err(CommandError::NoComponent));
}

#[test]
fn build_command_renders_parameters_then_extra_arguments() {
    let mut command = ADBCommand::new();
    command.set_component(&component("com.app.MainActivity", "com.app", "activity"));
    command.set_intent_params(&vec![
        param("action", "String", "android.intent.action.VIEW", "-a"),
        param("data", "Uri", "https://example.com/x", "-d"),
    ]);
    command.add_extra_arg("--es user_id 42");
    command.add_extra_arg("--ez debug true");
    assert_eq!(
        command.build_command().unwrap(),
        "adb shell am start -n com.app/.MainActivity -a android.intent.action.VIEW -d https://example.com/x --es user_id 42 --ez debug true"
    );
}

#[test]
fn build_command_of_a_bare_component() {
    let mut command = ADBCommand::new();
    command.set_component(&component(".Main", "com.app", "service"));
    assert_eq!(command.build_command().unwrap(), "adb shell am start -n com.app/.Main");
}

#[test]
fn setters_replace_and_add() {
    let mut command = ADBCommand::new();
    command.set_component(&component("com.a.A", "com.a", "activity"));
    command.set_component(&component("com.b.B", "com.b", "activity"));
    command.set_intent_params(&vec![param("x", "String", "1", "-e")]);
    command.set_intent_params(&vec![param("y", "String", "", "-f")]);
    command.add_extra_arg("one");
    assert_eq!(command.build_command().unwrap(), "adb shell am start -n com.b/.B -f  one");
}

#[test]
fn commands_of_a_component_without_filters() {
    assert_eq!(
        generate_adb_commands(&component("com.app.Main", "com.app", "activity")),
        texts(&["adb shell am start -n com.app/com.app.Main"])
    );
    assert_eq!(
        generate_adb_commands(&component(".Sync", "com.app", "service")),
        texts(&["adb shell am startservice -n com.app/com.app.Sync"])
    );
    assert_eq!(
        generate_adb_commands(&component("com.app.Boot", "com.app", "receiver")),
        texts(&["adb shell am broadcast -n com.app/com.app.Boot"])
    );
    assert_eq!(
        generate_adb_commands(&component("com.app.Data", "com.app", "provider")),
        texts(&["adb shell content call --uri content://com.app/com.app.Data"])
    );
    assert_eq!(
        generate_adb_commands(&component("com.app.Odd", "com.app", "widget")),
        texts(&["adb shell am start -n com.app/com.app.Odd"])
    );
}

#[test]
fn commands_of_actions_and_categories() {
    let mut c = component("p.A", "p", "activity");
    c.actions = texts(&["VIEW", "EDIT"]);
    assert_eq!(
        generate_adb_commands(&c),
        texts(&["adb shell am start -n p/p.A -a VIEW", "adb shell am start -n p/p.A -a EDIT"])
    );
    c.categories = texts(&["DEFAULT", "BROWSABLE"]);
    assert_eq!(
        generate_adb_commands(&c),
        texts(&[
            "adb shell am start -n p/p.A -a VIEW -c DEFAULT",
            "adb shell am start -n p/p.A -a VIEW -c BROWSABLE",
            "adb shell am start -n p/p.A -a EDIT -c DEFAULT",
            "adb shell am start -n p/p.A -a EDIT -c BROWSABLE",
        ])
    );
}

#[test]
fn commands_of_data_addresses() {
    let mut c = component("p.A", "p", "activity");
    c.actions = texts(&["VIEW"]);
    c.data_schemes = texts(&["http", "https"]);
    assert_eq!(
        generate_adb_commands(&c),
        texts(&[
            "adb shell am start -n p/p.A -a VIEW -d \"http://\"",
            "adb shell am start -n p/p.A -a VIEW -d \"https://\"",
        ])
    );
    c.data_hosts = texts(&["a.com", "b.com"]);
    assert_eq!(
        generate_adb_commands(&c),
        texts(&[
            "adb shell am start -n p/p.A -a VIEW -d \"http://a.com\"",
            "adb shell am start -n p/p.A -a VIEW -d \"http://b.com\"",
            "adb shell am start -n p/p.A -a VIEW -d \"https://a.com\"",
            "adb shell am start -n p/p.A -a VIEW -d \"https://b.com\"",
        ])
    );
    c.data_schemes = texts(&["app"]);
    c.data_hosts = texts(&["h"]);
    c.data_paths = texts(&["/x", "/y"]);
    c.categories = texts(&["C"]);
    c.data_mime_types = texts(&["text/plain"]);
    assert_eq!(
        generate_adb_commands(&c),
        texts(&[
            "adb shell am start -n p/p.A -a VIEW -d \"app://h/x\" -c C",
            "adb shell am start -n p/p.A -a VIEW -d \"app://h/y\" -c C",
        ])
    );
}

#[test]
fn commands_of_mime_types() {
    let mut c = component("p.R", "p", "receiver");
    c.actions = texts(&["SEND"]);
    c.data_mime_types = texts(&["text/plain", "image/*"]);
    assert_eq!(
        generate_adb_commands(&c),
        texts(&[
            "adb shell am broadcast -n p/p.R -a SEND -t \"text/plain\"",
            "adb shell am broadcast -n p/p.R -a SEND -t \"image/*\"",
        ])
    );
}

#[test]
fn commands_without_actions() {
    let mut c = component("p.A", "p", "activity");
    c.data_schemes = texts(&["app"]);
    c.data_hosts = texts(&["h"]);
    c.categories = texts(&["C", "D"]);
    assert_eq!(
        generate_adb_commands(&c),
        texts(&[
            "adb shell am start -n p/p.A -d \"app://h\" -c C",
            "adb shell am start -n p/p.A -d \"app://h\" -c D",
        ])
    );
    let mut only_categories = component("p.A", "p", "activity");
    only_categories.categories = texts(&["C"]);
    assert!(generate_adb_commands(&only_categories).is_empty());
    let mut only_types = component("p.A", "p", "activity");
    only_types.data_mime_types = texts(&["a/b"]);
    assert!(generate_adb_commands(&only_types).is_empty());
}

#[test]
fn command_of_single_line_parts_is_a_single_line() {
    let mut command = ADBCommand::new();
    command.set_component(&component("com.app.com.app..Deep", "com.app", "activity"));
    command.set_intent_params(&vec![param("a", "String", "v w", "-a"), param("e", "String", "", "-e")]);
    command.add_extra_arg("--es k v");
    let built = command.build_command().unwrap();
    assert!(!built.contains('\n'));
    assert_eq!(built, "adb shell am start -n com.app/Deep -a v w -e  --es k v");
}
