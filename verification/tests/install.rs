use std::path::Path;

use rosco_cli::builder::{refusal_message, Probe};
use rosco_cli::config::{read_layer, Config, EmulatorSource, Environment, Host, Layers};
use rosco_cli::emulator::{resolve_runner, Runner};
use rosco_cli::install::{
    advice, checkout, clone_arguments, confirmations, default_source_dir, expand_home, inside,
    locate, make_arguments, missing_build_tools, missing_program, nobody_to_ask, nothing_chosen,
    program_settings, ready, remember_scope, saved_message, use_image, way, ways, Checkout,
    Readiness, Way,
};
use rosco_cli::settings::Scope;

fn first_file(candidates: Vec<String>) -> Option<String> {
    candidates.into_iter().find(|file| Path::new(file).is_file())
}

#[test]
fn a_path_is_taken_as_one_even_when_nothing_is_there() {
    let candidates = locate("/definitely/not/here/rosco", None, &Vec::new(), "", Host::Linux);
    assert_eq!(candidates, ["/definitely/not/here/rosco"]);
    assert_eq!(first_file(candidates), None);
}

#[test]
fn a_file_that_is_there_is_the_one_that_would_run() {
    let directory = tempfile::tempdir().unwrap();
    let program = tempfile::Builder::new()
        .prefix("rosco-emulator")
        .rand_bytes(0)
        .tempfile_in(directory.path())
        .unwrap();
    let program = program.path().to_str().unwrap();

    assert_eq!(
        first_file(locate(program, None, &Vec::new(), "", Host::Linux)).as_deref(),
        Some(program)
    );
    let nothing = directory.path().join("nothing");
    assert_eq!(
        first_file(locate(nothing.to_str().unwrap(), None, &Vec::new(), "", Host::Linux)),
        None
    );
}

#[test]
fn a_leading_tilde_becomes_the_home_directory() {
    assert_eq!(
        expand_home("~/emu/rosco", Some("/home/me"), Host::Linux),
        "/home/me/emu/rosco"
    );
    assert_eq!(expand_home("~/emu/rosco", None, Host::Linux), "~/emu/rosco");
    assert_eq!(expand_home("~other/emu", Some("/home/me"), Host::Linux), "~other/emu");
}

#[test]
fn what_stands_behind_a_tilde_stays_as_it_was_typed() {
    let home = Path::new("/home/me");
    for path in [
        "~", "~/", "~/.", "~/a", "~/a//b", "~/a/./b", "~//a", "~/./a", "~/a/", "~/a/.", "~/a//./",
        "~/../b", "~/a/../b", "~a/b", "./~/a", "/~/a", "a/~", "", ".",
    ] {
        let expected = match Path::new(path).strip_prefix("~") {
            Ok(rest) => home.join(rest),
            Err(_) => Path::new(path).to_path_buf(),
        };
        assert_eq!(
            expand_home(path, Some("/home/me"), Host::Linux),
            expected.to_str().unwrap(),
            "{path}"
        );
    }
    assert_eq!(expand_home("~/a//b", Some("/home/me"), Host::Linux), "/home/me/a//b");
    assert_eq!(expand_home("~/a", Some("/home/me/"), Host::Linux), "/home/me/a");
}

#[test]
fn a_windows_path_is_taken_as_one() {
    let search = vec!["/C:/bin".to_string(), String::new(), "/D:/tools".to_string()];
    let locate = |program: &str| locate(program, Some("/C:/Users/me"), &search, ".exe", Host::Windows);
    for program in [
        r"C:\emulator\rosco.exe",
        r"C:rosco.exe",
        r"\rosco.exe",
        r".\rosco.exe",
        r"emulator\rosco.exe",
        r"\\server\share\rosco.exe",
        r"\\?\C:\emulator\rosco.exe",
        r"\\.\C:\rosco.exe",
        "C:/emulator/rosco.exe",
    ] {
        assert_eq!(locate(program), [program.to_string(), format!("{program}.exe")]);
    }
    assert_eq!(
        locate(r"~\emulator\rosco"),
        [
            "C:/Users/me/emulator/rosco",
            "C:/Users/me/emulator/rosco.exe"
        ]
    );
    assert_eq!(
        locate("rosco"),
        [
            "C:/bin/rosco",
            "C:/bin/rosco.exe",
            "D:/tools/rosco",
            "D:/tools/rosco.exe"
        ]
    );
    // A root has no name to run, and is looked up like a name on its own.
    for root in [r"C:\", r"\\server\share", r"\\.\COM3"] {
        assert_eq!(locate(root).len(), 4);
    }
    // Elsewhere a backslash is part of a name.
    assert_eq!(
        install_on_linux(r"C:\emulator\rosco"),
        [r"/bin/C:\emulator\rosco"]
    );
    assert_eq!(
        expand_home(r"~\a\.\b\", Some("/C:/Users/me"), Host::Windows),
        "C:/Users/me/a/./b"
    );
    assert_eq!(
        expand_home(r"C:\a\.\b\", Some("/C:/Users/me"), Host::Windows),
        r"C:\a\.\b\"
    );
    assert_eq!(expand_home(r"~\a", Some("/home/me"), Host::Linux), r"~\a");
}

fn install_on_linux(program: &str) -> Vec<String> {
    locate(program, None, &vec!["/bin".to_string()], "", Host::Linux)
}

#[test]
fn a_path_without_a_tilde_is_left_alone() {
    assert_eq!(
        expand_home("/opt/rosco/rosco", Some("/home/me"), Host::Linux),
        "/opt/rosco/rosco"
    );
}

#[test]
fn a_tree_stands_in_for_the_binary_built_in_it() {
    let directory = tempfile::tempdir().unwrap();
    let program = tempfile::Builder::new()
        .prefix("rosco")
        .rand_bytes(0)
        .tempfile_in(directory.path())
        .unwrap();
    let program = program.path().to_str().unwrap();

    let tree = directory.path().to_str().unwrap();
    assert_eq!(first_file(inside(tree, "")).as_deref(), Some(program));
    assert_eq!(first_file(inside(program, "")), None);
}

#[test]
fn a_build_chosen_over_the_image_stops_the_image_being_used() {
    let mut config = Config::default();
    config.emulator.source = EmulatorSource::Docker;

    let settings = program_settings(&config, "/opt/rosco/rosco");

    assert_eq!(
        settings,
        [
            (
                "emulator.program".to_string(),
                "/opt/rosco/rosco".to_string()
            ),
            ("emulator.source".to_string(), "host".to_string()),
        ]
    );
}

#[test]
fn a_build_where_one_was_already_expected_records_only_the_path() {
    let settings = program_settings(&Config::default(), "/opt/rosco/rosco");
    assert_eq!(settings.len(), 1);
}

#[test]
fn the_missing_emulator_names_what_pointed_at_it() {
    let mut config = Config::default();
    config.emulator.program = Some("/opt/rosco/rosco".into());
    let message = missing_program(&config, "/opt/rosco/rosco", false);
    assert!(
        message.contains("emulator.program points at /opt/rosco/rosco"),
        "{message}"
    );

    config.emulator.program = None;
    assert_eq!(
        missing_program(&config, "/from/env", true),
        "ROSCO_EMULATOR points at /from/env, and there is nothing there."
    );
    assert_eq!(
        missing_program(&config, "rosco-emulator", false),
        "rosco-emulator is not on PATH, and no emulator is saved in the settings."
    );
}

#[test]
fn a_bare_name_is_looked_up_in_every_directory() {
    let path = vec!["/bin".to_string(), String::new(), "/opt".to_string()];
    assert_eq!(
        locate("rosco-emulator", None, &path, "", Host::Linux),
        ["/bin/rosco-emulator", "/opt/rosco-emulator"]
    );
    assert_eq!(
        locate("rosco", None, &vec!["/bin".to_string()], ".exe", Host::Windows),
        ["/bin/rosco", "/bin/rosco.exe"]
    );
    assert_eq!(
        inside("/tree", ""),
        ["/tree/rosco", "/tree/rosco-emulator"]
    );
    assert_eq!(
        locate("~/rosco", Some("/home/me"), &Vec::new(), "", Host::Linux),
        ["/home/me/rosco"]
    );
}

fn readiness(config: &Config, found: Option<&str>, probe: Probe, cli: Option<&str>) -> Readiness {
    let runner = resolve_runner(config, cli, None);
    ready(config, runner, found.map(str::to_string), probe, cli, false)
}

#[test]
fn an_emulator_that_is_there_is_run() {
    let config = Config::default();
    assert!(matches!(
        readiness(&config, Some("/bin/rosco-emulator"), Probe::Missing, None),
        Readiness::Run(Runner::Program(program)) if program == "/bin/rosco-emulator"
    ));
    // A path on the command line is an answer already, so a wrong one is a
    // mistake to report.
    assert!(matches!(
        readiness(&config, None, Probe::Ready, Some("/typo")),
        Readiness::Fail(words)
            if words == "no emulator at /typo; --emulator-path takes the emulator binary, or the \
                         tree it was built in"
    ));
    assert!(matches!(
        readiness(&config, None, Probe::Ready, None),
        Readiness::Offer { problem, start: 0 }
            if problem == missing_program(&config, "rosco-emulator", false)
    ));
}

#[test]
fn an_image_needs_docker_to_answer() {
    let mut config = Config::default();
    config.emulator.source = EmulatorSource::Docker;
    assert!(matches!(
        readiness(&config, None, Probe::Ready, None),
        Readiness::Run(Runner::Image { .. })
    ));
    assert!(matches!(
        readiness(&config, None, Probe::Missing, None),
        Readiness::Offer { problem, start: 1 }
            if problem == "docker is not installed, or is not on PATH."
    ));
    assert!(matches!(
        readiness(&config, None, Probe::Refused("denied".to_string()), None),
        Readiness::Offer { problem, start: 1 } if problem == refusal_message("denied")
    ));

    let Ok((settings, Runner::Image { name, .. })) = use_image(&config, Probe::Ready) else {
        panic!("docker answers");
    };
    assert_eq!(
        settings,
        [("emulator.source".to_string(), "docker".to_string())]
    );
    assert_eq!(name, "solderdemon/rosco-emulator:latest");
    assert!(use_image(&config, Probe::Missing).is_err());
}

#[test]
fn what_was_recorded_is_what_runs() {
    let mut config = Config::default();
    config.emulator.source = EmulatorSource::Docker;
    for (name, value) in program_settings(&config, "/opt/rosco") {
        match name.as_str() {
            "emulator.program" => config.emulator.program = Some(value),
            "emulator.source" if value == "host" => config.emulator.source = EmulatorSource::Host,
            other => panic!("{other} was recorded"),
        }
    }
    assert!(matches!(
        resolve_runner(&config, None, Some("/from/env")),
        Runner::Program(program) if program == "/opt/rosco"
    ));
}

#[test]
fn there_are_four_ways_out() {
    let labels: Vec<&str> = ways().iter().map(|choice| choice.label).collect();
    assert_eq!(labels, ["Docker", "Build it here", "Existing build", "Cancel"]);
    assert_eq!(way(0), Way::Image);
    assert_eq!(way(1), Way::BuildHere);
    assert_eq!(way(2), Way::Existing);
    assert_eq!(way(3), Way::Cancel);
    assert_eq!(confirmations().len(), 2);
    assert_eq!(
        nothing_chosen(),
        format!("no emulator chosen.\n{}", advice())
    );
    assert_eq!(
        nobody_to_ask("it is not there."),
        format!("it is not there.\n{}", advice())
    );
    assert!(advice().contains("`rosco config set emulator.source docker`"));
}

#[test]
fn an_answer_is_saved_where_it_will_be_read() {
    let settings = vec![("emulator.program".to_string(), "/opt/rosco".to_string())];
    let mut layers = Layers::unread(
        Some("/cfg/config.toml".to_string()),
        Some("/work".to_string()),
    );
    assert_eq!(remember_scope(&layers, &settings), Scope::Global);
    layers.project = read_layer("/work/rosco.toml", "[emulator]\nprogram = \"/old\"\n").ok();
    assert_eq!(remember_scope(&layers, &settings), Scope::Project);
    assert_eq!(
        saved_message(&settings, "/cfg/config.toml"),
        "Saved emulator.program to /cfg/config.toml"
    );
    let both = vec![
        ("emulator.program".to_string(), "/opt/rosco".to_string()),
        ("emulator.source".to_string(), "host".to_string()),
    ];
    assert_eq!(
        saved_message(&both, "x"),
        "Saved emulator.program and emulator.source to x"
    );
}

#[test]
fn the_build_names_everything_it_is_missing() {
    let all: Vec<String> = ["git", "make", "python3", "c++", "pkg-config"]
        .iter()
        .map(|tool| tool.to_string())
        .collect();
    assert_eq!(missing_build_tools(&all, true, Host::Linux), None);
    let words = missing_build_tools(&all, false, Host::MacOs).expect("SDL is not here");
    assert_eq!(
        words,
        "the emulator's build needs libsdl2-dev, which is not here.\n  \
         https://github.com/solderdemon/rosco-emulator#building lists them all."
    );
    // Without pkg-config nothing can be said about a library.
    let words = missing_build_tools(&vec!["make".to_string()], false, Host::Linux)
        .expect("most of it is not here");
    assert!(
        words.starts_with("the emulator's build needs git, python3, c++, which are not here."),
        "{words}"
    );
    assert!(words.contains("On Debian or Ubuntu"), "{words}");
}

#[test]
fn a_tree_is_cloned_once() {
    assert!(matches!(checkout("/tree", true, true), Checkout::Use));
    assert!(matches!(checkout("/tree", false, false), Checkout::Clone));
    assert!(matches!(
        checkout("/tree", false, true),
        Checkout::Refuse(words)
            if words == "/tree exists and is not a checkout of the emulator"
    ));
    assert_eq!(
        clone_arguments("/tree"),
        [
            "clone",
            "--depth",
            "1",
            "https://github.com/solderdemon/rosco-emulator",
            "/tree",
        ]
    );
    assert_eq!(make_arguments(8), ["-j8", "REGENIE=1", "USE_QTDEBUG=0"]);
    let env = Environment {
        config_home: None,
        data_home: Some("/data".to_string()),
        app_data: None,
        local_app_data: None,
        xdg_config_home: None,
        xdg_data_home: None,
        home: None,
    };
    assert_eq!(
        default_source_dir(&env, Host::Linux).unwrap(),
        "/data/rosco-emulator"
    );
}
