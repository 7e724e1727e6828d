use std::path::Path;

use rosco_cli::config::{Board, Config, EmulatorSource};
use rosco_cli::emulator::{
    board_family, capture, container_arguments, could_not_start, family, not_this_program,
    program_arguments, relays, resolve_program_with, resolve_runner, rom_directory, roms_beside,
    session_name, still_connecting, strip_ansi, Connecting, EmulatorOptions, Family, Runner, DEFAULT_PROGRAM,
};

#[test]
fn machine_names_map_to_cpu_families() {
    assert_eq!(family("rosco_m68k_000"), Some(Family::M68k));
    assert_eq!(family("rosco_m68k_030"), Some(Family::M68k));
    assert_eq!(family("rosco_6502"), Some(Family::Mos6502));
    assert_eq!(family("something_else"), None);
}

#[test]
fn strips_the_colours_the_firmware_prints() {
    let raw = "\u{1b}[0;37mMemory checks: \u{1b}[1;32mpassed\u{1b}[0m\r\n";
    assert_eq!(strip_ansi(raw), "Memory checks: passed\r\n");
}

#[test]
fn the_projects_own_firmware_beats_what_is_given_and_what_is_there() {
    let some = |path: &str| Some(path.to_string());
    assert_eq!(rom_directory(some("own"), some("given"), some("beside")), some("own"));
    assert_eq!(rom_directory(some("own"), None, None), some("own"));
    assert_eq!(rom_directory(None, some("given"), some("beside")), some("given"));
    assert_eq!(rom_directory(None, None, some("beside")), some("beside"));
    assert_eq!(rom_directory(None, None, None), None);
}

#[test]
fn leaves_plain_text_alone() {
    assert_eq!(strip_ansi("QUICKLOAD OK (6502)"), "QUICKLOAD OK (6502)");
}

#[test]
fn handles_a_truncated_escape_at_the_end() {
    assert_eq!(strip_ansi("done\u{1b}["), "done");
    assert_eq!(strip_ansi("done\u{1b}"), "done");
}

#[test]
fn commands_and_short_escapes_are_stripped_too() {
    assert_eq!(strip_ansi("a\u{1b}]0;title\u{7}b"), "ab");
    assert_eq!(strip_ansi("a\u{1b}]0;title\u{1b}\\b"), "ab");
    assert_eq!(strip_ansi("a\u{1b}cb"), "ab");
    assert_eq!(strip_ansi("a\u{1b}]0;open"), "a");
}

#[test]
fn command_line_beats_config_and_environment() {
    let mut config = Config::default();
    config.emulator.program = Some("/from/config".to_string());
    let resolved = resolve_program_with(&config, Some("/from/cli"), Some("/from/env"));
    assert_eq!(resolved, "/from/cli");
}

#[test]
fn config_beats_the_environment() {
    let mut config = Config::default();
    config.emulator.program = Some("/from/config".to_string());
    let resolved = resolve_program_with(&config, None, Some("/from/env"));
    assert_eq!(resolved, "/from/config");
}

#[test]
fn environment_is_used_when_nothing_else_says_otherwise() {
    let resolved = resolve_program_with(&Config::default(), None, Some("/from/env"));
    assert_eq!(resolved, "/from/env");
}

#[test]
fn falls_back_to_a_name_looked_up_on_path() {
    let resolved = resolve_program_with(&Config::default(), None, None);
    assert_eq!(resolved, DEFAULT_PROGRAM);
}

/// The firmware beside an emulator, where both are there.
fn default_rom_path(program: &Path) -> Option<String> {
    let program = program.canonicalize().ok()?;
    let roms = roms_beside(program.to_str()?)?;
    Path::new(&roms).is_dir().then_some(roms)
}

#[test]
fn rom_path_is_taken_from_beside_the_emulator_binary() {
    let dir = tempfile::tempdir().unwrap();
    let roms = tempfile::Builder::new()
        .prefix("roms")
        .rand_bytes(0)
        .tempdir_in(dir.path())
        .unwrap();
    let bin = tempfile::Builder::new()
        .prefix("rosco")
        .rand_bytes(0)
        .tempfile_in(dir.path())
        .unwrap();

    assert_eq!(
        default_rom_path(bin.path()).as_deref(),
        roms.path().canonicalize().unwrap().to_str()
    );
}

#[test]
fn rom_path_is_absent_when_there_is_no_roms_directory() {
    assert_eq!(default_rom_path(Path::new("/nonexistent/rosco")), None);
    assert_eq!(
        roms_beside("/opt/rosco/rosco").as_deref(),
        Some("/opt/rosco/roms")
    );
    assert_eq!(roms_beside("/"), None);
}

#[test]
fn refuses_to_run_this_cli_as_the_emulator() {
    let error = not_this_program("/usr/bin/rosco".to_string(), true).unwrap_err();
    assert!(error.contains("this CLI itself"), "{error}");
    assert_eq!(
        not_this_program("/opt/rosco".to_string(), false).unwrap(),
        "/opt/rosco"
    );
}

#[test]
fn a_board_runs_on_its_own_machine() {
    for board in [Board::RoscoM68k, Board::Rosco6502] {
        assert_eq!(family(board.machine()), Some(board_family(board)));
    }
    assert_eq!(Family::M68k.label(), "68k");
    assert_eq!(Family::Mos6502.label(), "6502");
}

#[test]
fn the_image_is_used_where_the_settings_say_so() {
    let mut config = Config::default();
    assert!(matches!(
        resolve_runner(&config, None, None),
        Runner::Program(program) if program == DEFAULT_PROGRAM
    ));
    config.emulator.source = EmulatorSource::Docker;
    config.emulator.docker.platform = Some("linux/amd64".to_string());
    assert!(matches!(
        resolve_runner(&config, None, Some("/from/env")),
        Runner::Image { name, platform }
            if name == "solderdemon/rosco-emulator:latest"
                && platform.as_deref() == Some("linux/amd64")
    ));
    // A path on the command line asks for that build, whatever is saved.
    assert!(matches!(
        resolve_runner(&config, Some("/from/cli"), None),
        Runner::Program(program) if program == "/from/cli"
    ));
}

fn options() -> EmulatorOptions {
    EmulatorOptions {
        runner: Runner::Program("rosco-emulator".to_string()),
        machine: "rosco_m68k_010".to_string(),
        program_binary: None,
        firmware: None,
        rom_path: None,
        sd_card: None,
        extra_args: vec!["-nothrottle".to_string()],
    }
}

#[test]
fn the_emulator_is_told_everything_it_needs() {
    let arguments = program_arguments(
        &options(),
        4711,
        "/tmp/x",
        &Some("/roms".to_string()),
        &Some("/a.bin".to_string()),
        &Some("/card.img".to_string()),
    );
    assert_eq!(
        arguments.join(" "),
        "rosco_m68k_010 -skip_gameinfo -video none -sound none -cfg_directory /tmp/x \
         -nvram_directory /tmp/x -snapshot_directory /tmp/x -diff_directory /tmp/x \
         -input_directory /tmp/x -state_directory /tmp/x -comment_directory /tmp/x \
         -terminal null_modem -bitb socket.127.0.0.1:4711 -rompath /roms -quik /a.bin \
         -hard1 /card.img -nothrottle"
    );
    let few = program_arguments(&options(), 1, "/tmp/x", &None, &None, &None).join(" ");
    assert!(few.ends_with("-bitb socket.127.0.0.1:1 -nothrottle"), "{few}");
}

#[test]
fn a_container_is_handed_its_files() {
    let arguments = container_arguments(
        "image",
        &Some("linux/amd64".to_string()),
        "session",
        &options(),
        4711,
        &None,
        &Some("/work/hello/hello.bin".to_string()),
        &None,
    )
    .join(" ");
    assert!(
        arguments.starts_with("run --rm --name session --platform linux/amd64"),
        "{arguments}"
    );
    assert!(
        arguments.contains("--volume /work/hello/hello.bin:"),
        "{arguments}"
    );
    assert!(arguments.contains(" image rosco_m68k_010 "), "{arguments}");
    assert!(
        arguments.contains("-bitb socket.host.docker.internal:4711"),
        "{arguments}"
    );
    assert_eq!(session_name(12, 4711), "rosco-cli-12-4711");
}

#[test]
fn noise_is_not_passed_on() {
    assert!(!relays("Warning: -video none doesn't make much sense without", false));
    assert!(relays("something broke", false));
    assert!(relays("something broke", true));
}

#[test]
fn a_firmware_of_ones_own_has_another_checksum() {
    for line in [
        "rosco.rom WRONG CHECKSUMS:",
        "    EXPECTED: CRC(01234567)",
        "       FOUND: CRC(89abcdef)",
        "WARNING: the machine might not run correctly.",
    ] {
        assert!(!relays(line, true), "{line}");
        assert!(relays(line, false), "{line}");
    }
}

#[test]
fn what_is_stripped_keeps_its_order_and_its_start() {
    let raw = "plain \u{1b}[1mbold\u{1b}[0m \u{1b}]0;t\u{7}end";
    let plain = strip_ansi(raw);
    assert_eq!(plain, "plain bold end");
    assert!(plain.starts_with("plain "));
    let mut left = raw.chars();
    assert!(plain.chars().all(|ch| left.any(|other| other == ch)));
}

#[test]
fn waiting_for_the_console_ends() {
    assert!(matches!(still_connecting(None, false, 20), Connecting::Wait));
    assert!(matches!(
        still_connecting(None, true, 20),
        Connecting::Fail(words)
            if words == "the emulator did not connect its console within 20 seconds"
    ));
    assert!(matches!(
        still_connecting(Some("exit status: 1".to_string()), false, 20),
        Connecting::Fail(words)
            if words == "the emulator exited before connecting its console (exit status: 1)"
    ));
    assert_eq!(
        could_not_start("rosco"),
        "could not start the emulator rosco; point --emulator-path, emulator.program in \
         rosco.toml, or ROSCO_EMULATOR at it"
    );
}

#[test]
fn a_scripted_run_ends_by_itself() {
    let (options, wait) = capture(options(), 5);
    assert_eq!(
        options.extra_args,
        ["-nothrottle", "-seconds_to_run", "5", "-nothrottle"]
    );
    assert_eq!(wait, 35);
}
