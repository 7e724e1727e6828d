use rosco_cli::app::{
    auto_detect_port_from, built_firmware, choose_toolchain, emulator_options, emulator_present,
    firmware_image, load_address, no_binary, print_ports, requested_baud, requested_emulator,
    requested_port, require_machine_family, resolve_init_destination, run, show_progress,
    split_positionals, starting_line, upload_file, upload_route, uploaded_line, use_emulator,
    Action, Load, Route,
};
use rosco_cli::cli::{
    BuildArgs, EmulatorArgs, InitArgs, MonitorArgs, PortsArgs, ProjectLanguage, RoscoCommand,
    RunArgs, SerialArgs, ToolchainArgs, UploadArgs,
};
use rosco_cli::config::{Board, Config, Host, ProjectKind, Target, Toolchain};
use rosco_cli::emulator::{board_family, resolve_runner, Family, Runner};
use rosco_cli::init::EmulatorSetup;
use rosco_cli::serial::PortSummary;

fn port(name: &str, kind: &str, is_usb: bool) -> PortSummary {
    PortSummary {
        name: name.into(),
        kind: kind.into(),
        is_usb,
    }
}

#[test]
fn a_68k_project_refuses_to_run_on_the_6502_machine() {
    let error = require_machine_family("rosco_6502", Family::M68k).unwrap_err();
    assert!(error.contains("builds 68k code"), "{error}");
    assert!(error.contains("rosco_6502"), "{error}");
}

#[test]
fn every_68k_variant_is_accepted_because_they_run_the_same_binary() {
    for machine in [
        "rosco_m68k_000",
        "rosco_m68k_010",
        "rosco_m68k_020",
        "rosco_m68k_030",
    ] {
        require_machine_family(machine, Family::M68k).unwrap();
    }
}

#[test]
fn an_unrecognised_machine_is_rejected() {
    let error = require_machine_family("commodore64", Family::M68k).unwrap_err();
    assert!(error.contains("unknown machine"), "{error}");
}

#[test]
fn the_saved_target_decides_when_no_flag_is_passed() {
    let mut config = Config::default();
    let args = EmulatorArgs::default();
    assert!(!use_emulator(&config, &args).unwrap());

    config.defaults.target = Target::Emulator;
    assert!(use_emulator(&config, &args).unwrap());
}

#[test]
fn a_firmware_project_cannot_be_sent_to_a_board() {
    let mut config = Config::default();
    config.project.kind = ProjectKind::Firmware;

    let error = use_emulator(&config, &EmulatorArgs::default()).unwrap_err();

    assert!(error.contains("reads from its ROM"), "{error}");
    assert!(error.contains("--emulator"), "{error}");
}

#[test]
fn a_firmware_project_is_the_machine_rather_than_something_loaded_into_it() {
    let mut config = Config::default();
    config.project.board = Board::Rosco6502;
    config.project.kind = ProjectKind::Firmware;

    let options = emulator_options(
        &config,
        &EmulatorArgs::default(),
        Some("/work/hello/hello.rom"),
        resolve_runner(&config, None, None),
    );

    assert!(options.program_binary.is_none());
    let firmware = options.firmware.expect("the image runs as the firmware");
    assert_eq!(firmware.image, "/work/hello/hello.rom");
    assert_eq!(firmware.rom_file, "rosco_6502.rom");
}

#[test]
fn hardware_beats_a_saved_emulator_default() {
    let mut config = Config::default();
    config.defaults.target = Target::Emulator;
    let args = EmulatorArgs {
        hardware: true,
        ..EmulatorArgs::default()
    };

    assert!(!use_emulator(&config, &args).unwrap());
}

#[test]
fn emulator_only_flags_are_refused_when_targeting_hardware() {
    let args = EmulatorArgs {
        machine: Some("rosco_6502".into()),
        ..EmulatorArgs::default()
    };

    let error = use_emulator(&Config::default(), &args).unwrap_err();
    assert!(error.contains("--machine"), "{error}");
}

#[test]
fn a_6502_project_refuses_to_run_on_an_m68k_machine() {
    let error =
        require_machine_family("rosco_m68k_010", board_family(Board::Rosco6502)).unwrap_err();
    assert!(error.contains("builds 6502 code"), "{error}");
}

fn init_args() -> InitArgs {
    InitArgs {
        name: Vec::new(),
        board: None,
        kind: None,
        language: None,
        target: None,
        emulator_docker: false,
        emulator_path: None,
        toolchain: ToolchainArgs::default(),
        yes: false,
    }
}

#[test]
fn nothing_said_about_the_emulator_writes_nothing_down() {
    assert!(requested_emulator(&init_args()).is_none());
}

#[test]
fn the_emulator_can_be_settled_on_the_command_line_either_way() {
    assert!(matches!(
        requested_emulator(&InitArgs {
            emulator_docker: true,
            ..init_args()
        }),
        Some(EmulatorSetup::Docker)
    ));
    assert!(matches!(
        requested_emulator(&InitArgs {
            emulator_path: Some("/opt/rosco/rosco".into()),
            ..init_args()
        }),
        Some(EmulatorSetup::Program(path)) if path == "/opt/rosco/rosco"
    ));
}

#[test]
fn a_bare_command_name_counts_as_present_when_it_can_be_run() {
    // A name is looked up rather than being called a missing file.
    assert!(!emulator_present("/nowhere/at/all/rosco", false, false, Host::Linux));
    assert!(emulator_present("cargo", false, true, Host::Linux));
    assert!(!emulator_present("cargo", false, false, Host::Linux));
    // A path is a file or it is nothing, whatever could be run.
    assert!(!emulator_present("/nowhere/at/all/rosco", false, true, Host::Linux));
    assert!(emulator_present("./rosco", true, false, Host::Linux));
    assert!(!emulator_present(r"C:\emulator\rosco.exe", false, true, Host::Windows));
    assert!(emulator_present(r"C:\emulator\rosco.exe", false, true, Host::Linux));
}

#[test]
fn one_name_is_the_project_and_two_are_the_older_form() {
    assert_eq!(
        split_positionals(&vec!["hello".to_string()]).unwrap(),
        (Some("hello".to_string()), None)
    );

    let (name, language) =
        split_positionals(&vec!["asm".to_string(), "hello".to_string()]).unwrap();
    assert_eq!(name.as_deref(), Some("hello"));
    assert_eq!(language, Some(ProjectLanguage::Asm));
}

#[test]
fn a_first_word_that_is_not_a_language_says_what_both_forms_look_like() {
    let error = split_positionals(&vec!["hullo".to_string(), "hello".to_string()]).unwrap_err();

    assert!(error.contains("--language c"), "{error}");
    assert!(error.contains("rosco init c hello"), "{error}");
}

#[test]
fn a_flag_beats_the_saved_toolchain_for_one_run() {
    let mut config = Config::default();
    config.build.toolchain = Toolchain::Docker;

    choose_toolchain(
        &mut config,
        &ToolchainArgs {
            host: true,
            docker: false,
        },
    );
    assert_eq!(config.build.toolchain, Toolchain::Host);

    // Nothing passed leaves the settings in charge.
    choose_toolchain(&mut config, &ToolchainArgs::default());
    assert_eq!(config.build.toolchain, Toolchain::Host);
}

#[test]
fn auto_detection_ignores_linux_builtin_ports_when_one_usb_port_exists() {
    let ports = vec![
        port("/dev/ttyS0", "PCI", false),
        port("/dev/ttyS1", "PCI", false),
        port("/dev/ttyUSB0", "USB 0403:6001", true),
    ];

    let Ok(detected) = auto_detect_port_from(&ports) else {
        panic!("one USB port is there");
    };
    assert_eq!(detected.name, "/dev/ttyUSB0");
    assert!(detected.line.contains("USB 0403:6001"), "{}", detected.line);
}

#[test]
fn auto_detection_only_lists_usb_candidates_when_there_are_several() {
    let ports = vec![
        port("/dev/ttyS0", "PCI", false),
        port("/dev/ttyUSB0", "USB 0403:6001", true),
        port("/dev/ttyACM0", "USB 10c4:ea60", true),
    ];

    let Err(error) = auto_detect_port_from(&ports) else {
        panic!("there are two USB ports");
    };
    assert!(error.contains("/dev/ttyUSB0"));
    assert!(error.contains("/dev/ttyACM0"));
    assert!(!error.contains("/dev/ttyS0"));
}

#[test]
fn a_port_that_is_not_usb_is_taken_when_it_is_the_only_one() {
    let Ok(detected) = auto_detect_port_from(&vec![port("/dev/ttyS0", "PCI", false)]) else {
        panic!("one port is there");
    };
    assert_eq!(detected.name, "/dev/ttyS0");
    assert_eq!(detected.line, "Auto-detected /dev/ttyS0 (PCI)");

    let ports = vec![
        port("/dev/ttyS0", "PCI", false),
        port("/dev/ttyS1", "PCI", false),
    ];
    let Err(error) = auto_detect_port_from(&ports) else {
        panic!("there are two ports");
    };
    assert_eq!(
        error,
        "multiple candidate serial ports found; pass --port. Available: /dev/ttyS0 (PCI), \
         /dev/ttyS1 (PCI)"
    );
    let Err(error) = auto_detect_port_from(&Vec::new()) else {
        panic!("no port is there");
    };
    assert_eq!(
        error,
        "no serial ports found; connect a UART adapter or pass --port"
    );
}

#[test]
fn three_names_are_more_than_init_takes() {
    let words = vec!["c".to_string(), "hello".to_string(), "again".to_string()];
    assert!(split_positionals(&words).is_err());
    assert_eq!(split_positionals(&Vec::new()).unwrap(), (None, None));
}

#[test]
fn the_emulator_runs_firmware_from_its_own_settings() {
    let mut config = Config::default();
    config.emulator.machine = "rosco_m68k_020".to_string();
    let args = EmulatorArgs {
        emulator: true,
        ..EmulatorArgs::default()
    };
    assert!(use_emulator(&config, &args).unwrap());

    let options = emulator_options(
        &config,
        &args,
        Some("/work/hello.bin"),
        Runner::Program("rosco-emulator".to_string()),
    );
    assert_eq!(options.program_binary.as_deref(), Some("/work/hello.bin"));
    assert!(options.firmware.is_none());
    assert_eq!(options.machine, "rosco_m68k_020");

    let args = EmulatorArgs {
        machine: Some("rosco_m68k_000".to_string()),
        rom_path: Some("/roms".to_string()),
        sd_card: Some("/card.img".to_string()),
        ..args
    };
    let options = emulator_options(
        &config,
        &args,
        None,
        Runner::Program("rosco-emulator".to_string()),
    );
    assert_eq!(options.machine, "rosco_m68k_000");
    assert_eq!(options.rom_path.as_deref(), Some("/roms"));
    assert_eq!(options.sd_card.as_deref(), Some("/card.img"));
    assert!(options.program_binary.is_none());
    assert_eq!(starting_line(&options), "Starting rosco_m68k_000");
}

#[test]
fn a_firmware_image_has_to_be_built_before_it_runs() {
    let mut config = Config::default();
    assert_eq!(firmware_image(&config, "/work/hello").unwrap(), None);

    config.project.kind = ProjectKind::Firmware;
    let image = firmware_image(&config, "/work/hello").unwrap();
    assert_eq!(image.as_deref(), Some("/work/hello/hello.rom"));

    assert_eq!(
        built_firmware(image.clone(), true).unwrap().as_deref(),
        Some("/work/hello/hello.rom")
    );
    assert_eq!(
        built_firmware(image, false).unwrap_err(),
        "no firmware image at /work/hello/hello.rom; `rosco build` makes one"
    );
    assert_eq!(built_firmware(None, false).unwrap(), None);
}

#[test]
fn each_board_is_sent_to_in_its_own_way() {
    let mut config = Config::default();
    let Ok(Route::Kermit(options)) = upload_route(&config) else {
        panic!("a 68k board speaks Kermit");
    };
    assert_eq!(options.max_retries, config.upload.max_retries);
    assert_eq!(options.packet_timeout_ms, config.upload.packet_timeout_ms);

    config.project.board = Board::Rosco6502;
    let Ok(Route::Hex(options)) = upload_route(&config) else {
        panic!("a 6502 board loads hex records");
    };
    assert_eq!(options.load_address, 0x0800);

    config.upload.load_address = 0x1_0000;
    let Err(error) = upload_route(&config) else {
        panic!("the address is too large");
    };
    assert_eq!(load_address(&config).unwrap_err(), error);
    assert_eq!(
        error,
        "upload.load_address is $10000, which is outside the 6502's address space"
    );
    config.upload.load_address = 0xffff;
    assert_eq!(load_address(&config).unwrap(), 0xffff);
}

#[test]
fn the_command_line_decides_about_the_port_first() {
    let mut config = Config::default();
    let mut args = SerialArgs::default();
    assert_eq!(requested_port(&config, &args), None);
    assert_eq!(requested_baud(&config, &args), 38_400);

    config.serial.port = Some("COM3".to_string());
    config.serial.baud = 9_600;
    assert_eq!(requested_port(&config, &args).as_deref(), Some("COM3"));
    assert_eq!(requested_baud(&config, &args), 9_600);

    args.port = Some("COM4".to_string());
    args.baud = Some(115_200);
    assert_eq!(requested_port(&config, &args).as_deref(), Some("COM4"));
    assert_eq!(requested_baud(&config, &args), 115_200);
}

#[test]
fn progress_is_shown_once_per_percent() {
    let (line, percent) = show_progress("hello.bin", 0, 200, None);
    assert_eq!(percent, 0);
    assert_eq!(
        line.as_deref(),
        Some("\rUploading hello.bin:   0% (0/200)")
    );
    let (line, percent) = show_progress("hello.bin", 1, 200, Some(0));
    assert_eq!((line, percent), (None, 0));
    let (line, percent) = show_progress("hello.bin", 100, 200, Some(0));
    assert_eq!(percent, 50);
    assert_eq!(
        line.as_deref(),
        Some("\rUploading hello.bin:  50% (100/200)")
    );
    // An empty file is sent as soon as it is begun.
    assert_eq!(show_progress("empty", 0, 0, None).1, 100);
    assert_eq!(
        uploaded_line("hello.bin"),
        "\rUploaded hello.bin successfully.                    "
    );
}

#[test]
fn ports_that_are_not_usb_are_listed_when_asked_for() {
    let ports = vec![
        port("/dev/ttyS0", "PCI", false),
        port("/dev/ttyUSB0", "USB 0403:6001", true),
    ];
    let usb = print_ports(&ports, false).join("\n");
    assert!(usb.contains("/dev/ttyUSB0"), "{usb}");
    assert!(!usb.contains("/dev/ttyS0"), "{usb}");
    let all = print_ports(&ports, true).join("\n");
    assert!(all.contains("/dev/ttyS0"), "{all}");
    assert_eq!(print_ports(&Vec::new(), false), ["No serial ports found."]);
    assert_eq!(
        print_ports(&vec![port("/dev/ttyS0", "PCI", false)], false),
        ["No USB serial ports found (1 non-USB port(s) hidden; use --all to show them)."]
    );
}

fn steps(command: RoscoCommand, config: &Config) -> Result<Vec<Action>, String> {
    run(&command, config, "/work/hello/hello.bin".to_string())
}

fn run_args(emulator: bool) -> RoscoCommand {
    RoscoCommand::Run(RunArgs {
        clean: true,
        toolchain: ToolchainArgs::default(),
        serial: SerialArgs::default(),
        emulator: EmulatorArgs {
            emulator,
            ..EmulatorArgs::default()
        },
    })
}

#[test]
fn a_command_is_carried_out_in_order() {
    let config = Config::default();
    let Ok(actions) = steps(run_args(false), &config) else {
        panic!("a program runs on a board");
    };
    assert!(matches!(
        actions.as_slice(),
        [
            Action::Build { clean: true },
            Action::Connect,
            Action::Send(Load::Built),
            Action::Watch
        ]
    ));

    let Ok(actions) = steps(run_args(true), &config) else {
        panic!("a program runs in the emulator");
    };
    assert!(matches!(
        actions.as_slice(),
        [
            Action::Build { clean: true },
            Action::RequireFamily,
            Action::Emulate(Load::Built)
        ]
    ));

    let build = RoscoCommand::Build(BuildArgs {
        clean: false,
        toolchain: ToolchainArgs::default(),
    });
    assert!(matches!(
        steps(build, &config).as_deref(),
        Ok([Action::Build { clean: false }])
    ));
    let ports = RoscoCommand::Ports(PortsArgs { all: true });
    assert!(matches!(
        steps(ports, &config).as_deref(),
        Ok([Action::ListPorts { all: true }])
    ));
    assert!(matches!(
        steps(RoscoCommand::Doctor, &config).as_deref(),
        Ok([Action::Examine])
    ));

    let monitor = RoscoCommand::Monitor(MonitorArgs {
        serial: SerialArgs::default(),
        emulator: EmulatorArgs::default(),
    });
    assert!(matches!(
        steps(monitor, &config).as_deref(),
        Ok([Action::Connect, Action::Watch])
    ));
}

#[test]
fn no_command_sends_firmware_to_a_board() {
    let mut config = Config::default();
    config.project.kind = ProjectKind::Firmware;
    assert!(steps(run_args(false), &config).is_err());

    let upload = RoscoCommand::Upload(UploadArgs {
        file: None,
        serial: SerialArgs::default(),
        emulator: EmulatorArgs::default(),
    });
    assert!(steps(upload, &config).is_err());
}

#[test]
fn upload_takes_the_file_it_is_given_or_the_one_that_was_built() {
    let config = Config::default();
    assert_eq!(
        upload_file(&config, "/work/hello", None).unwrap(),
        "/work/hello/hello.bin"
    );
    assert_eq!(
        upload_file(&config, "/work/hello", Some("other.bin")).unwrap(),
        "/work/hello/other.bin"
    );
    assert_eq!(
        upload_file(&config, "/work/hello", Some("/tmp/other.bin")).unwrap(),
        "/tmp/other.bin"
    );
    assert_eq!(
        no_binary("/tmp/other.bin"),
        "binary does not exist: /tmp/other.bin"
    );
}

#[test]
fn a_project_is_made_where_it_was_asked_for() {
    assert_eq!(
        resolve_init_destination("/home/me", ".", "hello", Host::Linux),
        "/home/me/hello"
    );
    assert_eq!(
        resolve_init_destination("/home/me", "work", "hello", Host::Linux),
        "/home/me/work/hello"
    );
    assert_eq!(
        resolve_init_destination("/home/me", "work", "/tmp/hello", Host::Linux),
        "/tmp/hello"
    );
    assert_eq!(
        resolve_init_destination("/C:/work", ".", r"a\hello", Host::Windows),
        "/C:/work/a/hello"
    );
    assert_eq!(
        resolve_init_destination("/C:/work", ".", r"D:\hello", Host::Windows),
        "/D:/hello"
    );
}
