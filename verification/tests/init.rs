use std::path::Path;

use rosco_cli::cli::ProjectLanguage;
use rosco_cli::config::{global_config_path, Board, Environment, Host, ProjectKind, Target, Toolchain};
use rosco_cli::document::read_table;
use rosco_cli::init::{
    already_there, project_settings, remembered_header, remembered_path, templates, EmulatorChoice,
    EmulatorSetup, ProjectPlan, Remembered, Template,
};
use rosco_cli::value::{lookup, Section, Setting};

fn plan(board: Board, language: ProjectLanguage) -> ProjectPlan {
    ProjectPlan {
        board,
        kind: ProjectKind::Program,
        language,
        toolchain: Toolchain::Docker,
        target: Target::Hardware,
        emulator: EmulatorSetup::EachRun,
    }
}

fn read(written: &str) -> Section {
    match read_table(written) {
        Ok(table) => table,
        Err(words) => panic!("{words}"),
    }
}

fn text<'a>(table: &'a Section, key: &str) -> Option<&'a str> {
    match lookup(table, key) {
        Some(Setting::Text(words)) => Some(words),
        _ => None,
    }
}

#[test]
fn a_program_gets_what_its_board_shares_and_its_language() {
    assert_eq!(
        templates(&plan(Board::RoscoM68k, ProjectLanguage::C)),
        [Template::M68kCommon, Template::M68kC]
    );
    assert_eq!(
        templates(&plan(Board::RoscoM68k, ProjectLanguage::Asm)),
        [Template::M68kCommon, Template::M68kAsm]
    );
    assert_eq!(
        templates(&plan(Board::Rosco6502, ProjectLanguage::C)),
        [Template::Mos6502Common, Template::Mos6502C]
    );
    assert_eq!(
        templates(&plan(Board::Rosco6502, ProjectLanguage::Asm)),
        [Template::Mos6502Common, Template::Mos6502Asm]
    );
}

#[test]
fn a_firmware_project_shares_nothing_with_a_program() {
    for (board, template) in [
        (Board::RoscoM68k, Template::M68kFirmware),
        (Board::Rosco6502, Template::Mos6502Firmware),
    ] {
        let plan = ProjectPlan {
            kind: ProjectKind::Firmware,
            ..plan(board, ProjectLanguage::C)
        };
        assert_eq!(templates(&plan), [template]);
    }
}

#[test]
fn a_firmware_project_says_so_where_every_command_will_see_it() {
    let written = project_settings(&ProjectPlan {
        kind: ProjectKind::Firmware,
        ..plan(Board::Rosco6502, ProjectLanguage::Asm)
    });

    assert_eq!(text(&read(&written), "project.type"), Some("firmware"));
}

#[test]
fn the_board_is_recorded_so_every_later_command_knows_it() {
    let settings = project_settings(&plan(Board::Rosco6502, ProjectLanguage::C));

    assert_eq!(text(&read(&settings), "project.board"), Some("rosco_6502"));
}

#[test]
fn choices_that_match_the_defaults_are_left_out_of_the_project_file() {
    let written = project_settings(&plan(Board::RoscoM68k, ProjectLanguage::C));

    assert!(written.contains("board = \"rosco_m68k\""), "{written}");
    assert!(!written.contains("toolchain"), "{written}");
    assert!(!written.contains("target"), "{written}");
}

#[test]
fn choices_that_do_not_are_written_down() {
    let written = project_settings(&ProjectPlan {
        toolchain: Toolchain::Host,
        target: Target::Emulator,
        ..plan(Board::Rosco6502, ProjectLanguage::Asm)
    });

    let config = read(&written);
    assert_eq!(text(&config, "build.toolchain"), Some("host"));
    assert_eq!(text(&config, "defaults.target"), Some("emulator"));
    // Nothing was said about the emulator, so nothing decides it here.
    assert!(!written.contains("[emulator]"), "{written}");
}

#[test]
fn an_emulator_run_from_the_image_needs_no_flag_afterwards() {
    let written = project_settings(&ProjectPlan {
        emulator: EmulatorSetup::Docker,
        ..plan(Board::RoscoM68k, ProjectLanguage::C)
    });

    let config = read(&written);
    assert_eq!(text(&config, "emulator.source"), Some("docker"));
    assert!(lookup(&config, "emulator.program").is_none());
}

#[test]
fn an_emulator_on_this_computer_is_recorded_by_path() {
    let written = project_settings(&ProjectPlan {
        emulator: EmulatorSetup::Program("/home/me/rosco-emulator/rosco".into()),
        ..plan(Board::Rosco6502, ProjectLanguage::C)
    });

    let config = read(&written);
    assert_eq!(
        text(&config, "emulator.program"),
        Some("/home/me/rosco-emulator/rosco")
    );
    // The source is left at its default, a build on this computer.
    assert!(lookup(&config, "emulator.source").is_none());
}

#[test]
fn a_windows_path_survives_being_written_as_toml() {
    let written = project_settings(&ProjectPlan {
        emulator: EmulatorSetup::Program(r"C:\emulator\rosco.exe".into()),
        ..plan(Board::RoscoM68k, ProjectLanguage::C)
    });

    assert_eq!(
        text(&read(&written), "emulator.program"),
        Some(r"C:\emulator\rosco.exe")
    );
}

#[test]
fn a_new_project_reads_as_planned() {
    for program in ["/opt/rosco", "two\nlines", "it's \"quoted\" \\ here", "caf\u{e9}\t", ""] {
        let written = project_settings(&ProjectPlan {
            kind: ProjectKind::Firmware,
            toolchain: Toolchain::Host,
            target: Target::Emulator,
            emulator: EmulatorSetup::Program(program.into()),
            ..plan(Board::Rosco6502, ProjectLanguage::Asm)
        });
        let table = read(&written);
        assert_eq!(text(&table, "project.board"), Some("rosco_6502"));
        assert_eq!(text(&table, "project.type"), Some("firmware"));
        assert_eq!(text(&table, "build.toolchain"), Some("host"));
        assert_eq!(text(&table, "emulator.program"), Some(program));
        assert!(lookup(&table, "emulator.source").is_none());
        assert_eq!(text(&table, "defaults.target"), Some("emulator"));
    }
    let table = read(&project_settings(&ProjectPlan {
        emulator: EmulatorSetup::Docker,
        ..plan(Board::RoscoM68k, ProjectLanguage::C)
    }));
    assert_eq!(text(&table, "project.board"), Some("rosco_m68k"));
    assert_eq!(text(&table, "emulator.source"), Some("docker"));
    for key in [
        "project.type",
        "build.toolchain",
        "emulator.program",
        "defaults.target",
    ] {
        assert!(lookup(&table, key).is_none(), "{key}");
    }
}

#[test]
fn the_whole_project_file() {
    let written = project_settings(&ProjectPlan {
        kind: ProjectKind::Firmware,
        toolchain: Toolchain::Host,
        target: Target::Emulator,
        emulator: EmulatorSetup::Program("/opt/rosco".into()),
        ..plan(Board::Rosco6502, ProjectLanguage::Asm)
    });
    assert_eq!(
        written,
        "# Settings for this project. `rosco config list` shows every setting,\n\
         # its value, and which file decided it.\n\n[project]\n\
         board = \"rosco_6502\"\n\
         # This builds the machine's firmware rather than a program for it\n\
         # to load, so it is a ROM image and only the emulator can run it.\n\
         type = \"firmware\"\n\
         \n[build]\n# The compilers on this computer, rather than the toolchain image.\n\
         toolchain = \"host\"\n\
         \n[emulator]\n# The emulator this project runs on, so no command needs \
         --emulator-path.\nprogram = \"/opt/rosco\"\n\
         \n[defaults]\n# Where run and upload send the program without a flag.\n\
         target = \"emulator\"\n"
    );
}

#[test]
fn the_last_answers_come_back_the_way_they_went_in() {
    let plan = ProjectPlan {
        toolchain: Toolchain::Host,
        target: Target::Emulator,
        emulator: EmulatorSetup::Program("/opt/rosco/rosco".into()),
        ..plan(Board::Rosco6502, ProjectLanguage::Asm)
    };

    let remembered = Remembered::of(&plan);

    assert_eq!(remembered.board, Board::Rosco6502);
    assert_eq!(remembered.language, ProjectLanguage::Asm);
    assert_eq!(remembered.toolchain, Toolchain::Host);
    assert_eq!(remembered.target, Target::Emulator);
    assert!(matches!(
        remembered.emulator(),
        EmulatorSetup::Program(path) if path == "/opt/rosco/rosco"
    ));
    assert_eq!(remembered.summary(), plan.describe());
}

#[test]
fn a_program_with_no_path_left_is_no_answer() {
    let mut remembered = Remembered::of(&plan(Board::RoscoM68k, ProjectLanguage::C));
    assert_eq!(remembered.emulator, EmulatorChoice::EachRun);
    remembered.emulator = EmulatorChoice::Program;
    assert!(matches!(remembered.emulator(), EmulatorSetup::EachRun));
    remembered.emulator = EmulatorChoice::Docker;
    assert!(matches!(remembered.emulator(), EmulatorSetup::Docker));
}

#[test]
fn a_firmware_summary_leaves_out_what_it_never_chose() {
    let plan = ProjectPlan {
        kind: ProjectKind::Firmware,
        toolchain: Toolchain::Host,
        target: Target::Emulator,
        emulator: EmulatorSetup::Docker,
        ..plan(Board::RoscoM68k, ProjectLanguage::Asm)
    };
    let summary = Remembered::of(&plan).summary();

    assert!(summary.contains("rosco_m68k firmware"), "{summary}");
    // The language and the target were never questions.
    assert!(!summary.contains("asm"), "{summary}");
    assert!(!summary.contains("emulator,"), "{summary}");
}

#[test]
fn the_summary_says_what_was_chosen_on_one_line_of_a_terminal() {
    let plan = ProjectPlan {
        toolchain: Toolchain::Host,
        target: Target::Emulator,
        emulator: EmulatorSetup::Docker,
        ..plan(Board::Rosco6502, ProjectLanguage::Asm)
    };
    let summary = Remembered::of(&plan).summary();

    assert!(summary.contains("rosco_6502"), "{summary}");
    assert!(summary.contains("asm"), "{summary}");
    assert!(summary.contains("host build"), "{summary}");
    assert!(summary.contains("docker emulator"), "{summary}");
    // The question it sits in indents it, and it has to fit beside the
    // label on the narrowest terminal anyone still uses.
    assert!(summary.chars().count() <= 58, "{summary}");
    assert_eq!(
        summary,
        "rosco_6502/asm, host build, emulator, docker emulator"
    );
}

fn kept_in(directory: &str) -> String {
    let env = Environment {
        config_home: Some(directory.to_string()),
        data_home: None,
        app_data: None,
        local_app_data: None,
        xdg_config_home: None,
        xdg_data_home: None,
        home: None,
    };
    remembered_path(&env, Host::Linux).unwrap()
}

#[test]
fn the_answers_are_kept_beside_the_settings() {
    assert_eq!(kept_in("/cfg"), "/cfg/init.toml");
    let env = Environment {
        config_home: Some("/cfg/".to_string()),
        data_home: None,
        app_data: None,
        local_app_data: None,
        xdg_config_home: None,
        xdg_data_home: None,
        home: None,
    };
    let settings = global_config_path(&env, Host::Linux).unwrap();
    assert_eq!(
        Path::new(&settings).parent(),
        Path::new(&kept_in("/cfg/")).parent()
    );
    for directory in [
        "/", "//", "/cfg/", "/cfg//", "/cfg/.", "/cfg/./", "//a//b/", ".", "./", "./.", "a", "a/",
        "a/..", "..", "a//b/.//",
    ] {
        assert_eq!(
            kept_in(directory),
            Path::new(directory)
                .join("config.toml")
                .with_file_name("init.toml")
                .to_str()
                .unwrap(),
            "{directory}"
        );
    }
    assert!(remembered_header().starts_with("# The answers `rosco init` was given last time"));
    assert!(remembered_header().ends_with("\n\n"));
    assert_eq!(
        already_there("/work/hello"),
        "destination already exists: /work/hello"
    );
}
