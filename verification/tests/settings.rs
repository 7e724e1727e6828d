use rosco_cli::cli::ScopeArgs;
use rosco_cli::config::{read_layer, Config, Environment, Host, Layers};
use rosco_cli::document::read_table;
use rosco_cli::settings::{
    choose_editor, get, judge, list, removed_line, saved_line, schema_complaint, scope_path,
    starter, trials, unset, Judgement, Scope, SettingError, Trial,
};
use rosco_cli::value::{lookup, Setting};

/// Every way of reading `raw` as the setting `key`, tried in order against
/// what `accepts` makes of the file it gives.
fn set(
    source: &str,
    key: &str,
    raw: &str,
    accepts: fn(&str) -> Option<String>,
) -> Result<Trial, String> {
    let mut left = match trials(source, key, raw) {
        Ok(trials) => trials.into_iter(),
        Err(error) => return Err(error.message("rosco.toml")),
    };
    let mut rejection = None;
    let mut trial = left.next().expect("at least one reading is tried");
    loop {
        let verdict = accepts(&trial.text);
        let (judgement, first) = judge(trial, verdict, rejection, left.next());
        match judgement {
            Judgement::Write(trial) => return Ok(trial),
            Judgement::Refuse(words) => return Err(words),
            Judgement::Try(next) => trial = next,
        }
        rejection = first;
    }
}

fn anything(_: &str) -> Option<String> {
    None
}

fn written(source: &str, key: &str, raw: &str, accepts: fn(&str) -> Option<String>) -> String {
    match set(source, key, raw, accepts) {
        Ok(trial) => trial.text,
        Err(words) => panic!("{words}"),
    }
}

#[test]
fn writing_to_a_missing_file_creates_it_with_the_section() {
    assert_eq!(
        written("", "serial.port", "/dev/ttyUSB0", anything),
        "[serial]\nport = \"/dev/ttyUSB0\"\n"
    );
}

#[test]
fn values_take_the_type_the_setting_expects() {
    let text = written("", "serial.baud", "115200", anything);
    let text = written(&text, "defaults.target", "emulator", anything);
    let text = written(&text, "build.args", r#"["all", "-j4"]"#, anything);

    let Ok(config) = read_table(&text) else {
        panic!("what was written reads");
    };
    assert!(matches!(
        lookup(&config, "serial.baud"),
        Some(Setting::Integer(115_200))
    ));
    assert!(matches!(
        lookup(&config, "defaults.target"),
        Some(Setting::Text(words)) if words == "emulator"
    ));
    let Some(Setting::Array(items)) = lookup(&config, "build.args") else {
        panic!("the arguments are an array");
    };
    assert!(matches!(
        items.as_slice(),
        [Setting::Text(first), Setting::Text(second)] if first == "all" && second == "-j4"
    ));
}

fn port_is_text(text: &str) -> Option<String> {
    let Ok(table) = read_table(text) else {
        return Some("invalid".to_string());
    };
    match lookup(&table, "serial.port") {
        Some(Setting::Text(_)) => None,
        _ => Some("invalid type: integer `3`, expected a string".to_string()),
    }
}

#[test]
fn a_numeric_looking_port_stays_a_string() {
    let text = written("", "serial.port", "3", port_is_text);

    let Ok(config) = read_table(&text) else {
        panic!("what was written reads");
    };
    assert!(matches!(
        lookup(&config, "serial.port"),
        Some(Setting::Text(words)) if words == "3"
    ));
}

#[test]
fn editing_keeps_the_comments_and_the_rest_of_the_file() {
    let source = "# hand written\n[serial]\n# the adapter on my desk\nport = \"/dev/ttyUSB0\"\nbaud = 38400\n";

    assert_eq!(
        written(source, "serial.baud", "115200", anything),
        "# hand written\n[serial]\n# the adapter on my desk\nport = \"/dev/ttyUSB0\"\nbaud = 115200\n"
    );
}

#[test]
fn nested_sections_get_their_own_header_only_where_it_is_needed() {
    assert_eq!(
        written("", "build.docker.image", "example/toolchain:v1", anything),
        "[build.docker]\nimage = \"example/toolchain:v1\"\n"
    );
}

fn no_such_field(_: &str) -> Option<String> {
    Some("unknown field `prot`, expected `port`".to_string())
}

#[test]
fn a_misspelled_setting_is_refused_and_nothing_is_written() {
    let Err(error) = set("", "serial.prot", "COM3", no_such_field) else {
        panic!("there is no such setting");
    };

    assert!(error.contains("unknown field"), "{error}");
    assert!(error.contains("rosco config list"), "{error}");
}

fn baud_is_a_number(text: &str) -> Option<String> {
    let Ok(table) = read_table(text) else {
        return Some("invalid".to_string());
    };
    match lookup(&table, "serial.baud") {
        Some(Setting::Integer(_)) => None,
        _ => Some("invalid type: string, expected an integer for baud".to_string()),
    }
}

#[test]
fn a_value_of_the_wrong_type_is_refused() {
    let Err(error) = set("", "serial.baud", "fast", baud_is_a_number) else {
        panic!("that is no number");
    };

    assert!(
        error.contains("baud") || error.contains("integer"),
        "{error}"
    );
}

#[test]
fn unsetting_removes_the_key_and_the_section_it_emptied() {
    let source = "[serial]\nport = \"COM3\"\n\n[emulator]\nmachine = \"rosco_6502\"\n";

    let Ok(left) = unset(Some(source), "serial.port") else {
        panic!("the port is set");
    };

    assert!(!left.contains("serial"), "{left}");
    assert!(left.contains("rosco_6502"), "{left}");
}

#[test]
fn unsetting_something_that_is_not_there_says_so() {
    let Err(error) = unset(Some("[serial]\nport = \"COM3\"\n"), "serial.baud") else {
        panic!("no baud is set");
    };
    let error = error.message("rosco.toml");
    assert!(error.contains("not set"), "{error}");
}

#[test]
fn dotted_names_are_required() {
    assert!(set("", "serial.", "COM3", anything).is_err());
    assert!(set("", "", "COM3", anything).is_err());
}

#[test]
fn every_way_of_failing_says_what_went_wrong() {
    let message = |error: SettingError| error.message("/home/me/config.toml");
    let failed = |source: &str, key: &str| match trials(source, key, "1") {
        Ok(_) => panic!("{key} cannot be set"),
        Err(error) => message(error),
    };
    assert_eq!(
        failed("", "serial."),
        "\"serial.\" is not a setting name; use a dotted name such as serial.port"
    );
    assert_eq!(
        failed("serial = 1\n", "serial.port"),
        "serial is not a section, so serial.port cannot be set"
    );
    let broken = failed("[serial\n", "serial.port");
    assert!(broken.starts_with("invalid /home/me/config.toml: "), "{broken}");

    let failed = |source: Option<&str>, key: &str| match unset(source, key) {
        Ok(_) => panic!("{key} is not set"),
        Err(error) => message(error),
    };
    assert_eq!(
        failed(None, "serial.port"),
        "/home/me/config.toml does not exist, so serial.port is not set there"
    );
    assert_eq!(
        failed(Some(""), "serial.port"),
        "serial.port is not set in /home/me/config.toml"
    );
    assert_eq!(
        failed(Some("serial = 1\n"), "serial.port"),
        "serial.port is not set in /home/me/config.toml"
    );
    assert!(failed(Some(""), ".").starts_with("\".\" is not a setting name"));
    assert!(failed(Some("[a\n"), "a.b").starts_with("invalid /home/me/config.toml: "));
}

#[test]
fn the_first_complaint_is_the_one_that_is_told() {
    assert_eq!(schema_complaint("wrong"), "wrong");
    assert_eq!(
        schema_complaint("unknown field `x`"),
        "unknown field `x`\n`rosco config list` shows every setting there is."
    );
    fn second(text: &str) -> Option<String> {
        Some(if text.contains('"') {
            "not as text".to_string()
        } else {
            "not as a number".to_string()
        })
    }
    let Err(words) = set("", "serial.port", "3", second) else {
        panic!("nothing is accepted");
    };
    assert_eq!(words, "not as a number");
}

#[test]
fn a_saved_setting_is_read_back_and_the_rest_is_left_alone() {
    let source = "[build]\nprogram = \"make\"\n\n[build.docker]\nimage = \"a\"\n";
    let text = written(source, "build.docker.platform", "linux/amd64", anything);
    let Ok(table) = read_table(&text) else {
        panic!("what was written reads");
    };
    assert!(matches!(
        lookup(&table, "build.docker.platform"),
        Some(Setting::Text(words)) if words == "linux/amd64"
    ));
    assert!(matches!(
        lookup(&table, "build.docker.image"),
        Some(Setting::Text(words)) if words == "a"
    ));
    assert!(lookup(&table, "build.program").is_some());

    // Taking it out again leaves what was there before.
    let Ok(left) = unset(Some(&text), "build.docker.platform") else {
        panic!("it was just set");
    };
    assert_eq!(left, source);
}

#[test]
fn the_comments_around_a_setting_stay_when_it_is_replaced() {
    let source = "# mine\n\n[serial] # the line\n# the adapter on my desk\nport = \"COM3\"\n\
                  # not the default\n  baud   =  38400 # slow\n\n# the end\n";
    assert_eq!(
        written(source, "serial.baud", "115200", anything),
        "# mine\n\n[serial] # the line\n# the adapter on my desk\nport = \"COM3\"\n\
         # not the default\n  baud   =  115200 # slow\n\n# the end\n"
    );
    assert_eq!(
        written(source, "serial.port", "COM4", anything),
        "# mine\n\n[serial] # the line\n# the adapter on my desk\nport = \"COM4\"\n\
         # not the default\n  baud   =  38400 # slow\n\n# the end\n"
    );
    // A new setting disturbs none of them.
    assert_eq!(
        written(source, "serial.read_timeout_ms", "10", anything),
        "# mine\n\n[serial] # the line\n# the adapter on my desk\nport = \"COM3\"\n\
         # not the default\n  baud   =  38400 # slow\nread_timeout_ms = 10\n\n# the end\n"
    );
    // Those of a setting that goes away go with it.
    let Ok(left) = unset(Some(source), "serial.baud") else {
        panic!("the speed is set");
    };
    assert_eq!(
        left,
        "# mine\n\n[serial] # the line\n# the adapter on my desk\nport = \"COM3\"\n\n# the end\n"
    );
}

#[test]
fn a_new_section_has_a_header_where_it_is_needed() {
    assert_eq!(written("", "a.b.c.d", "1", anything), "[a.b.c]\nd = 1\n");
    assert_eq!(
        written("[a.b]\nx = 1\n", "a.b.c.d", "2", anything),
        "[a.b]\nx = 1\n\n[a.b.c]\nd = 2\n"
    );
    assert_eq!(
        written("[a.b]\nx = 1\n", "a.y", "2", anything),
        "[a]\ny = 2\n[a.b]\nx = 1\n"
    );
}

#[test]
fn a_table_is_replaced_as_a_whole() {
    assert_eq!(
        written("[a]\nb = 1\n", "a", "2", anything),
        "a = 2\n"
    );
    assert_eq!(
        written("[[a]]\nb = 1\n[[a]]\nb = 2\n", "a", "[]", anything),
        "a = []\n"
    );
}

#[test]
fn a_section_without_a_header_is_not_written_down_empty() {
    for (source, key, left) in [
        ("[a.b]\nx = 1\n[c]\ny = 2\n", "a.b", "[c]\ny = 2\n"),
        ("b.c = 1\nd = 2\n", "b.c", "d = 2\n"),
    ] {
        let Ok(text) = unset(Some(source), key) else {
            panic!("{key} is set");
        };
        assert_eq!(text, left);
    }
}

#[test]
fn no_husks_are_left_behind() {
    let source = "[build]\n[build.docker]\nimage = \"a\"\n[empty]\n";
    let Ok(left) = unset(Some(source), "build.docker.image") else {
        panic!("the image is set");
    };
    assert_eq!(left, "");
}

#[test]
fn what_was_stored_is_shown_as_it_is_written() {
    let Ok(trial) = set("", "serial.port", " COM3 ", anything) else {
        panic!("any text will do");
    };
    assert_eq!(trial.shown, "\" COM3 \"");
    assert_eq!(
        saved_line("serial.port", &trial.shown, "rosco.toml"),
        "serial.port = \" COM3 \" saved to rosco.toml"
    );
    assert_eq!(
        removed_line("serial.port", "rosco.toml"),
        "Removed serial.port from rosco.toml"
    );
    // Read as TOML it is already text, so there is one way to read it.
    let Ok(ways) = trials("", "serial.port", "\"COM3\"") else {
        panic!("the name is sound");
    };
    assert_eq!(ways.len(), 2);
    assert_eq!(ways[0].text, "[serial]\nport = \"COM3\"\n");
    let Ok(ways) = trials("", "serial.port", "COM3") else {
        panic!("the name is sound");
    };
    assert_eq!(ways.len(), 1);
}

#[test]
fn the_listing_names_every_setting_in_order() {
    let mut config = Config::default();
    config.serial.port = Some("COM\"3".to_string());
    let Ok(table) = config.to_value() else {
        panic!("every number fits");
    };
    let mut layers = Layers::unread(None, Some("/work/hello".to_string()));
    layers.project = read_layer("/work/hello/rosco.toml", "[serial]\nport = 'COM\"3'\n").ok();
    let lines = list(&layers, table);
    assert_eq!(lines[0], "# global   <none>");
    assert_eq!(lines[1], "# project  /work/hello/rosco.toml");
    assert_eq!(lines[2], "");
    let count = lines.len();
    assert_eq!(lines[count - 2], "");
    assert_eq!(
        lines[count - 1],
        "build.environment.<NAME> passes a variable to the build process."
    );
    let settings = &lines[3..count - 2];
    assert!(settings.windows(2).all(|pair| pair[0] < pair[1]));
    assert!(settings[0].starts_with("build.args"), "{}", settings[0]);
    let port = settings
        .iter()
        .find(|line| line.starts_with("serial.port"))
        .expect("the port is listed");
    assert!(port.contains("  \"COM\\\"3\"  "), "{port}");
    assert!(port.ends_with("  project"), "{port}");
    let unset = settings
        .iter()
        .find(|line| line.starts_with("project.artifact"))
        .expect("an optional setting is listed");
    assert!(unset.contains("(unset)"), "{unset}");
    assert!(unset.ends_with("  default"), "{unset}");
}

#[test]
fn the_listing_says_nothing_of_variables_when_there_are_some() {
    let mut config = Config::default();
    config
        .build
        .environment
        .push(("A".to_string(), "1".to_string()));
    config
        .build
        .environment
        .push(("B".to_string(), "2".to_string()));
    let Ok(table) = config.to_value() else {
        panic!("every number fits");
    };
    let lines = list(&Layers::unread(None, None), table);
    assert!(lines.iter().all(|line| !line.contains("<NAME>")));
    for (name, value) in [("build.environment.A", "\"1\""), ("build.environment.B", "\"2\"")] {
        let line = lines
            .iter()
            .find(|line| line.starts_with(name))
            .expect("the variable is listed");
        assert!(line.contains(value), "{line}");
    }
}

#[test]
fn one_setting_is_printed_so_a_script_can_use_it() {
    let Ok(table) = read_table("a = 'x'\nb = [1, true, 'y']\nc.d = 1.5\ne = 1979-05-27\n") else {
        panic!("the file is sound");
    };
    assert_eq!(get(&table, "a").unwrap(), "x");
    assert_eq!(get(&table, "b").unwrap(), "[1, true, \"y\"]");
    assert_eq!(get(&table, "c").unwrap(), "{ ... }");
    assert_eq!(get(&table, "c.d").unwrap(), "1.5");
    assert_eq!(get(&table, "e").unwrap(), "1979-05-27");
    assert_eq!(
        get(&table, "f").unwrap_err(),
        "f is not set; `rosco config list` shows the settings that are"
    );
}

#[test]
fn each_scope_has_its_own_file() {
    let env = Environment {
        config_home: Some("/cfg".to_string()),
        data_home: None,
        app_data: None,
        local_app_data: None,
        xdg_config_home: None,
        xdg_data_home: None,
        home: None,
    };
    let global = Scope::from_args(&ScopeArgs::default());
    assert_eq!(global, Scope::Global);
    let local = Scope::from_args(&ScopeArgs {
        global: false,
        local: true,
    });
    assert_eq!(local, Scope::Project);
    assert_eq!(
        scope_path(global, Some("/work"), &env, Host::Linux).unwrap(),
        "/cfg/config.toml"
    );
    assert_eq!(
        scope_path(local, Some("/work"), &env, Host::Linux).unwrap(),
        "/work/rosco.toml"
    );
    assert_eq!(
        scope_path(local, None, &env, Host::Linux).unwrap_err(),
        "no project directory; run this inside one or pass -C"
    );
    assert_eq!(starter(local), "# rosco settings for this project.\n");
    assert_eq!(
        starter(global),
        "# rosco settings for this user, shared by every project.\n"
    );
}

#[test]
fn an_editor_is_always_found() {
    let visual = Some("code".to_string());
    let editor = Some("nano".to_string());
    assert_eq!(choose_editor(visual, editor.clone(), Host::Linux), "code");
    assert_eq!(choose_editor(None, editor, Host::Linux), "nano");
    assert_eq!(choose_editor(None, None, Host::Linux), "vi");
    assert_eq!(choose_editor(None, None, Host::Windows), "notepad");
}
