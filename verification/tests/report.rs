use rosco_cli::cli::ProjectLanguage;
use rosco_cli::config::{Board, Config, ProjectKind, Target, Toolchain};
use rosco_cli::init::{EmulatorSetup, ProjectPlan};
use rosco_cli::report::{
    doctor, print_check, report_next_steps, EmulatorFinding, Findings, SettingsFinding,
};
use rosco_cli::serial::PortSummary;
use rosco_cli::toolchain::missing;

fn port(is_usb: bool) -> PortSummary {
    PortSummary {
        name: "/dev/ttyUSB0".to_string(),
        kind: "USB".to_string(),
        is_usb,
    }
}

#[test]
fn a_machine_with_everything_is_told_so() {
    let findings = Findings {
        docker: None,
        image_pulled: true,
        available: ["make", "m68k-elf-rosco-gcc", "m68k-elf-rosco-ld", "vasmm68k_mot"]
            .iter()
            .map(|tool| tool.to_string())
            .collect(),
        hint: Some("brew".to_string()),
        emulator: EmulatorFinding::Program {
            name: "rosco-emulator".to_string(),
            runs: true,
        },
        settings: SettingsFinding::There("/cfg/config.toml".to_string()),
        ports: Ok(vec![port(true), port(false)]),
    };
    assert_eq!(
        doctor(&Config::default(), &findings),
        [
            "[ -- ] project: rosco_m68k, built with the docker toolchain",
            "[ OK ] Docker: docker",
            "[ OK ] toolchain image: solderdemon/rosco_m68k:latest",
            "[ OK ] build driver: make",
            "[ OK ] C compiler: m68k-elf-rosco-gcc",
            "[ OK ] linker: m68k-elf-rosco-ld",
            "[ OK ] assembler: vasmm68k_mot",
            "[ OK ] emulator: rosco-emulator",
            "[ OK ] user settings: /cfg/config.toml",
            "[ OK ] UART: 1 USB serial port(s) found",
        ]
    );
}

#[test]
fn a_machine_with_nothing_is_told_what_to_do() {
    let mut config = Config::default();
    config.project.board = Board::Rosco6502;
    config.build.toolchain = Toolchain::Host;
    let findings = Findings {
        docker: Some("docker is not installed".to_string()),
        image_pulled: false,
        available: vec!["make".to_string()],
        hint: Some("sudo apt install cc65".to_string()),
        emulator: EmulatorFinding::Image {
            name: "image".to_string(),
            pulled: false,
        },
        settings: SettingsFinding::NotYet("/cfg/config.toml".to_string()),
        ports: Ok(vec![port(false)]),
    };
    assert_eq!(
        doctor(&config, &findings),
        [
            "[ -- ] project: rosco_6502, built with the host toolchain",
            "[WARN] Docker: docker is not installed",
            "[ OK ] build driver: make",
            "[WARN] assembler: ca65",
            "[WARN] linker: ld65",
            "[WARN] C compiler and linker: cl65",
            "[ -- ] a build on this computer needs: sudo apt install cc65",
            "[WARN] emulator image: image",
            "[ -- ] the image is pulled on the first emulator run",
            "[ -- ] user settings: /cfg/config.toml (not created yet)",
            "[WARN] UART: no USB serial ports found (1 non-USB port(s) ignored)",
        ]
    );
}

#[test]
fn what_could_not_be_found_out_is_said() {
    let findings = Findings {
        docker: None,
        image_pulled: false,
        available: Vec::new(),
        hint: None,
        emulator: EmulatorFinding::Failed("no emulator".to_string()),
        settings: SettingsFinding::Failed("no home".to_string()),
        ports: Err("no ports".to_string()),
    };
    let lines = doctor(&Config::default(), &findings);
    assert!(lines.contains(&"[ -- ] the image is pulled on the first build".to_string()));
    assert!(lines.contains(&"[WARN] emulator: no emulator".to_string()));
    assert!(lines.contains(&"[WARN] user settings: no home".to_string()));
    assert!(lines.contains(&"[WARN] UART: no ports".to_string()));
    assert!(!lines.iter().any(|line| line.contains("needs:")));
    assert_eq!(print_check("a", "b", true), "[ OK ] a: b");
}

fn plan(kind: ProjectKind, target: Target) -> ProjectPlan {
    ProjectPlan {
        board: Board::Rosco6502,
        kind,
        language: ProjectLanguage::Asm,
        toolchain: Toolchain::Host,
        target,
        emulator: EmulatorSetup::Program("/opt/rosco".to_string()),
    }
}

#[test]
fn the_next_steps_fit_the_project() {
    let here = vec!["make".to_string(), "ca65".to_string(), "ld65".to_string()];
    let lines = report_next_steps(
        &plan(ProjectKind::Program, Target::Hardware),
        "hello",
        &missing(Board::Rosco6502, &here),
        &Some("sudo apt install cc65".to_string()),
        false,
    );
    assert_eq!(
        lines.join("\n"),
        "\nNot on PATH yet: cl65\n  sudo apt install cc65\n\nNo emulator at /opt/rosco yet.\n  \
         `rosco config set --local emulator.program <path>` points the project at one.\n\n\
         Next:\n  cd hello\n  rosco run --port /dev/ttyUSB0    # or COM3 on Windows\n  \
         rosco run --emulator             # with no board on the desk"
    );

    let lines = report_next_steps(
        &plan(ProjectKind::Program, Target::Emulator),
        "hello",
        &Vec::new(),
        &None,
        true,
    );
    assert_eq!(lines.join("\n"), "\nNext:\n  cd hello\n  rosco run");

    let lines = report_next_steps(
        &plan(ProjectKind::Firmware, Target::Emulator),
        "hello",
        &Vec::new(),
        &None,
        true,
    );
    assert_eq!(
        lines.join("\n"),
        "\nNext:\n  cd hello\n  rosco run                        # boots the machine on your ROM\n\
         \nA board reads its firmware from a ROM chip, so this one runs in the\n\
         emulator. Burning the image to an EEPROM is what puts it on hardware."
    );
}
