use rosco_cli::config::{Board, Host};
use rosco_cli::toolchain::{from_os_release, install_hint, missing, required, PackageManager};

#[test]
fn a_derivative_is_recognised_by_the_family_it_names() {
    let mint = "NAME=\"Linux Mint\"\nID=linuxmint\nID_LIKE=\"ubuntu debian\"\n";
    assert_eq!(from_os_release(mint), Some(PackageManager::Apt));
}

#[test]
fn its_own_id_is_enough_when_there_is_no_family() {
    assert_eq!(
        from_os_release("ID=arch\nNAME=\"Arch Linux\"\n"),
        Some(PackageManager::Pacman)
    );
}

#[test]
fn an_unknown_distribution_gets_no_advice_rather_than_wrong_advice() {
    assert_eq!(from_os_release("ID=plan9\n"), None);
}

#[test]
fn the_6502_toolchain_is_one_package() {
    assert_eq!(PackageManager::Apt.install("cc65"), "sudo apt install cc65");
}

#[test]
fn each_board_names_the_programs_its_build_calls() {
    assert!(required(Board::Rosco6502)
        .iter()
        .any(|tool| tool.command == "ca65"));
    assert!(required(Board::RoscoM68k)
        .iter()
        .any(|tool| tool.command == "m68k-elf-rosco-gcc"));
}

#[test]
fn every_manager_installs_in_its_own_words() {
    assert_eq!(PackageManager::Dnf.install("cc65"), "sudo dnf install cc65");
    assert_eq!(PackageManager::Pacman.install("cc65"), "sudo pacman -S cc65");
    assert_eq!(
        PackageManager::Zypper.install("cc65"),
        "sudo zypper install cc65"
    );
    assert_eq!(PackageManager::Homebrew.install("cc65"), "brew install cc65");
}

#[test]
fn the_first_family_that_is_known_decides() {
    assert_eq!(
        from_os_release("ID=Ultramarine\nID_LIKE=FEDORA\n"),
        Some(PackageManager::Dnf)
    );
    assert_eq!(
        from_os_release("VERSION=debian\nID_LIKE=\"nobody suse arch\"\n"),
        Some(PackageManager::Zypper)
    );
    assert_eq!(from_os_release(""), None);
}

#[test]
fn what_is_missing_is_what_cannot_be_started() {
    let here = vec!["make".to_string(), "ld65".to_string()];
    let names: Vec<&str> = missing(Board::Rosco6502, &here)
        .iter()
        .map(|tool| tool.command)
        .collect();
    assert_eq!(names, ["ca65", "cl65"]);
}

#[test]
fn the_hint_fits_the_host() {
    assert_eq!(
        install_hint(Board::Rosco6502, Host::MacOs, None).as_deref(),
        Some("brew install cc65")
    );
    assert_eq!(install_hint(Board::Rosco6502, Host::Windows, None), None);
    assert_eq!(install_hint(Board::Rosco6502, Host::Linux, None), None);
    assert_eq!(
        install_hint(Board::Rosco6502, Host::Linux, Some("ID=ubuntu")).as_deref(),
        Some("sudo apt install cc65")
    );
    assert_eq!(install_hint(Board::RoscoM68k, Host::Windows, None), None);
    assert_eq!(
        install_hint(Board::RoscoM68k, Host::Linux, None).as_deref(),
        Some(
            "brew tap rosco-m68k/toolchain && \
             brew install rosco-m68k-toolchain@13 vasm-all srecord"
        )
    );
}
