use rosco_cli::config::{
    data_dir, global_config_path, optional_settings, read_layer, resolve_from, Board, Config,
    Environment, Host, Layers, Origin, ProjectKind, Target, Toolchain,
};
use rosco_cli::document::read_table;
use rosco_cli::value::{flatten, lookup, Section, Setting};

/// The files as they apply to the project in `/work/hello`.
fn layers(global: Option<&str>, project: Option<&str>) -> Layers {
    let mut layers = Layers::unread(
        Some("/home/me/config.toml".to_string()),
        Some("/work/hello".to_string()),
    );
    if let Some(source) = global {
        layers.global = read_layer("/home/me/config.toml", source).ok();
    }
    if let Some(source) = project {
        layers.project = read_layer("/work/hello/rosco.toml", source).ok();
    }
    layers
}

fn text<'a>(table: &'a Section, key: &str) -> Option<&'a str> {
    match lookup(table, key) {
        Some(Setting::Text(words)) => Some(words),
        _ => None,
    }
}

fn integer(table: &Section, key: &str) -> Option<i64> {
    match lookup(table, key) {
        Some(Setting::Integer(number)) => Some(*number),
        _ => None,
    }
}

#[test]
fn defaults_match_rosco_m68k_docker_conventions() {
    let config = Config::default();
    let root = "/work/hello";
    assert_eq!(config.artifact_path(root).unwrap(), "/work/hello/hello.bin");
    assert_eq!(config.serial.baud, 38_400);
    assert_eq!(config.build.program, "make");
    assert_eq!(config.build.docker.image, "solderdemon/rosco_m68k:latest");
    assert_eq!(config.emulator.machine, "rosco_m68k_010");
    assert!(config.emulator.program.is_none());
    assert_eq!(config.defaults.target, Target::Hardware);
    assert_eq!(config.project.board, Board::RoscoM68k);
    assert_eq!(config.project.kind, ProjectKind::Program);
    assert_eq!(config.build.toolchain, Toolchain::Docker);
    assert_eq!(config.upload.load_address, 0x0800);
}

#[test]
fn a_firmware_project_builds_a_rom_image_rather_than_a_binary() {
    let mut config = Config::default();
    config.project.kind = ProjectKind::Firmware;

    let root = "/work/hello";
    assert_eq!(config.artifact_path(root).unwrap(), "/work/hello/hello.rom");
}

#[test]
fn a_6502_project_gets_its_own_toolchain_image_and_machine() {
    let layers = layers(None, Some("[project]\nboard = \"rosco_6502\"\n"));
    let config = layers.config();

    assert_eq!(text(&config, "project.board"), Some("rosco_6502"));
    assert_eq!(
        text(&config, "build.docker.image"),
        Some("solderdemon/rosco_6502:latest")
    );
    assert_eq!(text(&config, "emulator.machine"), Some("rosco_6502"));
    // They came with the board rather than from a file, and say so.
    assert_eq!(layers.origin("build.docker.image"), Origin::Default);
}

#[test]
fn what_a_board_brings_is_still_only_a_default() {
    let config = layers(
        None,
        Some("[project]\nboard = \"rosco_6502\"\n\n[emulator]\nmachine = \"rosco_6502_dev\"\n"),
    )
    .config();

    assert_eq!(text(&config, "emulator.machine"), Some("rosco_6502_dev"));
}

#[test]
fn the_project_overrides_the_user_but_keeps_its_other_settings() {
    let layers = layers(
        Some(
            "[serial]\nport = \"/dev/ttyUSB0\"\nbaud = 9600\n\n[defaults]\ntarget = \"emulator\"\n",
        ),
        Some("[serial]\nport = \"COM3\"\n"),
    );
    let config = layers.config();

    assert_eq!(text(&config, "serial.port"), Some("COM3"));
    // Untouched by the project file, so the user's value survives.
    assert_eq!(integer(&config, "serial.baud"), Some(9_600));
    assert_eq!(text(&config, "defaults.target"), Some("emulator"));
    // Left to the defaults of the configuration.
    assert!(lookup(&config, "serial.read_timeout_ms").is_none());
    assert_eq!(Config::default().serial.read_timeout_ms, 50);

    assert_eq!(layers.origin("serial.port"), Origin::Project);
    assert_eq!(layers.origin("serial.baud"), Origin::Global);
    assert_eq!(layers.origin("serial.read_timeout_ms"), Origin::Default);
}

#[test]
fn user_settings_apply_when_the_project_has_no_file() {
    let config = layers(Some("[emulator]\nmachine = \"rosco_6502\"\n"), None).config();

    assert_eq!(text(&config, "emulator.machine"), Some("rosco_6502"));
}

#[test]
fn flattening_produces_the_dotted_keys_used_by_the_config_command() {
    let Ok(value) = Config::default().to_value() else {
        panic!("every number fits");
    };
    let value = Setting::Section(value);
    let keys: Vec<_> = flatten(&value).into_iter().map(|(key, _)| key).collect();

    assert!(keys.contains(&"serial.baud".to_string()));
    assert!(keys.contains(&"build.docker.image".to_string()));
    assert!(keys.contains(&"defaults.target".to_string()));
    // Unset optional settings have nothing to show.
    assert!(!keys.contains(&"serial.port".to_string()));
}

#[test]
fn a_file_that_does_not_parse_names_itself() {
    let Err(error) = read_layer("/home/me/config.toml", "[serial\n") else {
        panic!("the section is not closed");
    };
    assert!(error.starts_with("invalid /home/me/config.toml: "), "{error}");
}

#[test]
fn tables_merge_and_anything_else_replaces() {
    let layers = layers(
        Some("[build]\nargs = [\"all\", \"-j4\"]\n[build.environment]\nA = \"1\"\n"),
        Some("[build]\nargs = [\"release\"]\n[build.environment]\nB = \"2\"\n"),
    );
    let config = layers.config();
    match lookup(&config, "build.args") {
        Some(Setting::Array(items)) => assert_eq!(items.len(), 1),
        _ => panic!("the arguments are an array"),
    }
    assert_eq!(text(&config, "build.environment.A"), Some("1"));
    assert_eq!(text(&config, "build.environment.B"), Some("2"));
    assert!(lookup(&config, "build.args.more").is_none());
    assert!(lookup(&config, "").is_none());
}

#[test]
fn what_is_listed_is_found() {
    let mut config = Config::default();
    config.serial.port = Some("COM3".to_string());
    config
        .build
        .environment
        .push(("A".to_string(), "1".to_string()));
    let Ok(table) = config.to_value() else {
        panic!("every number fits");
    };
    let Ok(again) = config.to_value() else {
        panic!("every number fits");
    };
    let table = Setting::Section(table);
    for (key, _) in flatten(&table) {
        assert!(lookup(&again, &key).is_some(), "{key}");
    }
    assert_eq!(text(&again, "project.type"), Some("program"));
    assert_eq!(text(&again, "build.environment.A"), Some("1"));
    assert_eq!(integer(&again, "upload.load_address"), Some(0x0800));
}

#[test]
fn what_is_found_is_listed_and_nothing_twice() {
    let Ok(table) = read_table("a = 1\n[b]\nc = [{ d = 2 }]\n[b.e]\nf = 'x'\n[b.g]\n") else {
        panic!("the file is sound");
    };
    let listed: Vec<String> = flatten(&Setting::Section(table))
        .into_iter()
        .map(|(key, _)| key)
        .collect();
    assert_eq!(listed, ["a", "b.c", "b.e.f"]);
}

#[test]
fn a_number_too_large_for_a_settings_file_is_refused() {
    let mut config = Config::default();
    config.serial.read_timeout_ms = u64::MAX;
    assert!(config.to_value().is_err());
    config.serial.read_timeout_ms = i64::MAX as u64;
    assert!(config.to_value().is_ok());
}

#[test]
fn optional_settings_are_the_ones_with_nothing_in_them() {
    let Ok(table) = Config::default().to_value() else {
        panic!("every number fits");
    };
    let names = optional_settings();
    assert_eq!(names.len(), 7);
    for name in names {
        assert!(lookup(&table, &name).is_none(), "{name}");
    }
}

fn nowhere() -> Environment {
    Environment {
        config_home: None,
        data_home: None,
        app_data: None,
        local_app_data: None,
        xdg_config_home: None,
        xdg_data_home: None,
        home: None,
    }
}

#[test]
fn the_settings_live_where_the_environment_says() {
    let mut env = nowhere();
    let error = global_config_path(&env, Host::Linux).unwrap_err();
    assert_eq!(
        error,
        "could not locate the settings directory; HOME is unset. Set ROSCO_CONFIG_HOME to \
         choose one."
    );
    assert!(global_config_path(&env, Host::Windows)
        .unwrap_err()
        .contains("APPDATA is unset"));
    assert!(data_dir(&env, Host::Linux)
        .unwrap_err()
        .contains("could not locate a directory to install into; HOME is unset"));
    assert!(data_dir(&env, Host::Windows)
        .unwrap_err()
        .contains("LOCALAPPDATA is unset"));

    env.home = Some("/home/me".to_string());
    assert_eq!(
        global_config_path(&env, Host::Linux).unwrap(),
        "/home/me/.config/rosco/config.toml"
    );
    assert_eq!(
        data_dir(&env, Host::MacOs).unwrap(),
        "/home/me/.local/share/rosco"
    );
    env.xdg_config_home = Some("/cfg".to_string());
    env.xdg_data_home = Some("/data".to_string());
    assert_eq!(
        global_config_path(&env, Host::Linux).unwrap(),
        "/cfg/rosco/config.toml"
    );
    assert_eq!(data_dir(&env, Host::Linux).unwrap(), "/data/rosco");
    env.config_home = Some("/own".to_string());
    env.data_home = Some("/own-data".to_string());
    assert_eq!(
        global_config_path(&env, Host::Linux).unwrap(),
        "/own/config.toml"
    );
    assert_eq!(data_dir(&env, Host::Linux).unwrap(), "/own-data");
    // An empty variable is the same as none.
    env.config_home = Some(String::new());
    assert_eq!(
        global_config_path(&env, Host::Linux).unwrap(),
        "/cfg/rosco/config.toml"
    );
}

#[test]
fn paths_are_taken_from_the_project() {
    assert_eq!(resolve_from("/work/hello", "out/a.bin"), "/work/hello/out/a.bin");
    assert_eq!(resolve_from("/work/hello", "/out/a.bin"), "/out/a.bin");

    let mut config = Config::default();
    config.build.working_directory = "./firmware".to_string();
    assert_eq!(config.build_directory("/work/hello"), "/work/hello/firmware");
    assert_eq!(
        config.artifact_path("/work/hello").unwrap(),
        "/work/hello/firmware/firmware.bin"
    );
    config.project.artifact = Some("out/program.bin".to_string());
    assert_eq!(
        config.artifact_path("/work/hello").unwrap(),
        "/work/hello/out/program.bin"
    );
    assert_eq!(
        Config::default().artifact_path("/").unwrap_err(),
        "cannot infer artifact name; set project.artifact in rosco.toml"
    );
}

#[test]
fn every_choice_has_its_own_word() {
    assert_eq!(Board::Rosco6502.label(), "rosco_6502");
    assert_eq!(Board::RoscoM68k.rom_file(), "rosco_m68k.rom");
    assert_eq!(ProjectKind::Firmware.label(), "firmware");
    assert_eq!(Toolchain::Host.label(), "host");
    assert_eq!(Target::Emulator.label(), "emulator");
    assert_eq!(Origin::Global.label(), "global");
}
