//! What each command decides before it touches the world.
use vstd::prelude::*;
use vstd::string::*;

use crate::cli::{
    EmulatorArgs, InitArgs, MonitorArgs, ProjectLanguage, RoscoCommand, RunArgs, SerialArgs,
    ToolchainArgs, UploadArgs,
};
use crate::config;
use crate::config::{Board, Config, Host, ProjectKind, Target, Toolchain};
use crate::emulator;
use crate::emulator::{family, EmulatorOptions, Family, Firmware, Runner};
use crate::ihex::HexOptions;
use crate::init::EmulatorSetup;
use crate::path;
use crate::path::{from_host, is_absolute, join_path, leads_on, tidied};
use crate::sender::KermitOptions;
use crate::serial::PortSummary;
use crate::text;
use crate::text::{
    cat, decimal, hexadecimal, join, pad_left, pad_right, push_text, same, to_ascii_lower,
};

verus! {

/// Whether a run targets the emulator: the flags decide, and failing that the
/// saved `defaults.target`.
pub open spec fn wants_emulator(config: Config, args: EmulatorArgs) -> bool {
    !args.hardware && (args.emulator || config.defaults.target == Target::Emulator)
}

/// The first option given that only means something to the emulator.
pub open spec fn emulator_flag(args: EmulatorArgs) -> Option<Seq<char>> {
    if args.machine is Some {
        Some("--machine"@)
    } else if args.rom_path is Some {
        Some("--rom-path"@)
    } else if args.sd_card is Some {
        Some("--sd-card"@)
    } else {
        None
    }
}

/// Whether this run targets the emulator. A board takes its firmware from a
/// ROM chip, and there is no way to put one there down a serial cable; and an
/// option for the emulator is refused where there is none.
pub fn use_emulator(config: &Config, args: &EmulatorArgs) -> (emulator: Result<bool, String>)
    ensures
        if wants_emulator(*config, *args) {
            emulator == Ok::<bool, String>(true)
        } else if config.project.kind == ProjectKind::Firmware {
            emulator matches Err(words) && words@
                == "this project builds firmware, which a board reads from its ROM rather than over the UART.\n  Run it here with `rosco run --emulator`, or burn the image to an EEPROM and put it in the socket."@
        } else {
            match emulator_flag(*args) {
                Some(flag) => emulator matches Err(words) && words@ == flag
                    + " only applies to the emulator; pass --emulator or run `rosco config set defaults.target emulator`"@,
                None => emulator == Ok::<bool, String>(false),
            }
        },
{
    let emulator: bool = if args.hardware {
        false
    } else if args.emulator {
        true
    } else {
        config.defaults.target == Target::Emulator
    };
    if emulator {
        return Ok(true);
    }
    if config.project.kind == ProjectKind::Firmware {
        return Err(
            "this project builds firmware, which a board reads from its ROM rather than over the UART.\n  Run it here with `rosco run --emulator`, or burn the image to an EEPROM and put it in the socket.".to_owned(),
        );
    }
    let flag = if args.machine.is_some() {
        "--machine"
    } else if args.rom_path.is_some() {
        "--rom-path"
    } else if args.sd_card.is_some() {
        "--sd-card"
    } else {
        return Ok(false);
    };
    Err(
        cat(
            flag,
            " only applies to the emulator; pass --emulator or run `rosco config set defaults.target emulator`",
        ),
    )
}

/// Firmware never goes to a board: whatever the flags and the settings say, a
/// firmware project either runs in the emulator or does not run.
pub proof fn firmware_never_goes_to_a_board(
    config: Config,
    args: EmulatorArgs,
    outcome: Result<bool, String>,
)
    requires
        config.project.kind == ProjectKind::Firmware,
        call_ensures(use_emulator, (&config, &args), outcome),
    ensures
        outcome != Ok::<bool, String>(false),
{
}

/// What an optional text says, or what another one does.
pub open spec fn first_of(given: Option<String>, saved: Option<String>) -> Option<Seq<char>> {
    match given {
        Some(words) => Some(words@),
        None => config::optional(saved),
    }
}

fn either(given: &Option<String>, saved: &Option<String>) -> (words: Option<String>)
    ensures
        config::optional(words) == first_of(*given, *saved),
{
    match given {
        Some(words) => Some(words.clone()),
        None => match saved {
            Some(words) => Some(words.clone()),
            None => None,
        },
    }
}

/// The machine that is asked for: an option wins over the settings.
pub open spec fn machine_asked(config: Config, args: EmulatorArgs) -> Seq<char> {
    match args.machine {
        Some(machine) => machine@,
        None => config.emulator.machine@,
    }
}

/// The machine that the emulator runs.
pub fn chosen_machine(config: &Config, args: &EmulatorArgs) -> (machine: String)
    ensures
        machine@ == machine_asked(*config, *args),
{
    match &args.machine {
        Some(machine) => machine.clone(),
        None => config.emulator.machine.clone(),
    }
}

/// Sets up an emulator run. `artifact` is whatever the project builds, which
/// in a firmware project is the machine itself rather than something loaded
/// into one. Options win over settings.
pub fn emulator_options(
    config: &Config,
    args: &EmulatorArgs,
    artifact: Option<&str>,
    runner: Runner,
) -> (options: EmulatorOptions)
    ensures
        options.runner == runner,
        options.machine@ == machine_asked(*config, *args),
        match (config.project.kind, artifact) {
            (ProjectKind::Firmware, Some(image)) => options.firmware matches Some(firmware)
                && firmware.image@ == image@ && firmware.rom_file@ == config::board_rom(
                config.project.board,
            ),
            _ => options.firmware is None,
        },
        match (config.project.kind, artifact) {
            (ProjectKind::Program, Some(binary)) => options.program_binary matches Some(file)
                && file@ == binary@,
            _ => options.program_binary is None,
        },
        config::optional(options.rom_path) == first_of(args.rom_path, config.emulator.rom_path),
        config::optional(options.sd_card) == first_of(args.sd_card, config.emulator.sd_card),
        text::views(options.extra_args@) == text::views(config.emulator.args@),
{
    let machine = chosen_machine(config, args);
    let (program_binary, firmware) = match artifact {
        Some(artifact) => match config.project.kind {
            ProjectKind::Firmware => {
                let rom_file = config.project.board.rom_file().to_owned();
                (None, Some(Firmware { image: artifact.to_owned(), rom_file }))
            },
            ProjectKind::Program => (Some(artifact.to_owned()), None),
        },
        None => (None, None),
    };
    let mut extra_args: Vec<String> = Vec::new();
    assert(text::views(extra_args@) == Seq::<Seq<char>>::empty());
    text::push_all(&mut extra_args, &config.emulator.args);
    assert(text::views(extra_args@) == text::views(config.emulator.args@));
    EmulatorOptions {
        runner,
        machine,
        program_binary,
        firmware,
        rom_path: either(&args.rom_path, &config.emulator.rom_path),
        sd_card: either(&args.sd_card, &config.emulator.sd_card),
        extra_args,
    }
}

/// What is said when the emulator starts.
pub fn starting_line(options: &EmulatorOptions) -> (line: String)
    ensures
        line@ == (match (options.firmware, options.program_binary) {
            (Some(firmware), _) => "Starting "@ + options.machine@ + " on "@ + firmware.image@,
            (None, Some(binary)) => "Loading "@ + binary@ + " into "@ + options.machine@,
            (None, None) => "Starting "@ + options.machine@,
        }),
{
    if let Some(firmware) = &options.firmware {
        let mut line = cat("Starting ", options.machine.as_str());
        line.append(" on ");
        line.append(firmware.image.as_str());
        line
    } else if let Some(binary) = &options.program_binary {
        let mut line = cat("Loading ", binary.as_str());
        line.append(" into ");
        line.append(options.machine.as_str());
        line
    } else {
        cat("Starting ", options.machine.as_str())
    }
}

/// The firmware that a project builds, for the commands that do not build one
/// themselves; nothing where it builds a program.
pub fn firmware_image(config: &Config, project_root: &str) -> (image: Result<
    Option<String>,
    String,
>)
    ensures
        config.project.kind == ProjectKind::Program ==> image == Ok::<Option<String>, String>(None),
        config.project.kind == ProjectKind::Firmware ==> match config::artifact_place(
            *config,
            project_root@,
        ) {
            Some(place) => image matches Ok(Some(image)) && image@ == place,
            None => image matches Err(words) && words@
                == "cannot infer artifact name; set project.artifact in rosco.toml"@,
        },
{
    match config.project.kind {
        ProjectKind::Program => Ok(None),
        ProjectKind::Firmware => match config.artifact_path(project_root) {
            Ok(image) => Ok(Some(image)),
            Err(words) => Err(words),
        },
    }
}

/// The firmware a project has already built: `there` says whether the image
/// is.
pub fn built_firmware(image: Option<String>, there: bool) -> (built: Result<Option<String>, String>)
    ensures
        match image {
            None => built == Ok::<Option<String>, String>(None),
            Some(file) => if there {
                built == Ok::<Option<String>, String>(Some(file))
            } else {
                built matches Err(words) && words@ == "no firmware image at "@ + file@
                    + "; `rosco build` makes one"@
            },
        },
{
    match image {
        Some(file) => if there {
            Ok(Some(file))
        } else {
            let mut words = cat("no firmware image at ", file.as_str());
            words.append("; `rosco build` makes one");
            Err(words)
        },
        None => Ok(None),
    }
}

/// Refuses a machine the artifact cannot possibly run on.
///
/// `upload` takes an arbitrary file and has no way to tell what it is, so it
/// trusts the caller. `run` built the binary itself and does know.
pub fn require_machine_family(machine: &str, expected: Family) -> (fits: Result<(), String>)
    ensures
        match emulator::machine_family(machine@) {
            Some(found) => if found == expected {
                fits is Ok
            } else {
                fits matches Err(words) && words@ == "this project builds "@
                    + emulator::family_word(expected) + " code, but "@ + machine@ + " is a "@
                    + emulator::family_word(found)
                    + " machine; set emulator.machine in rosco.toml or pass --machine"@
            },
            None => fits matches Err(words) && words@ == "unknown machine "@ + machine@
                + "; expected a rosco_m68k or rosco_6502 machine"@,
        },
{
    match family(machine) {
        Some(found) => {
            if found == expected {
                return Ok(());
            }
            let mut words = cat("this project builds ", expected.label());
            words.append(" code, but ");
            words.append(machine);
            words.append(" is a ");
            words.append(found.label());
            words.append(" machine; set emulator.machine in rosco.toml or pass --machine");
            Err(words)
        },
        None => {
            let mut words = cat("unknown machine ", machine);
            words.append("; expected a rosco_m68k or rosco_6502 machine");
            Err(words)
        },
    }
}

/// Which compilers the flags ask for.
pub open spec fn asked_toolchain(args: ToolchainArgs) -> Option<Toolchain> {
    if args.docker {
        Some(Toolchain::Docker)
    } else if args.host {
        Some(Toolchain::Host)
    } else {
        None
    }
}

/// Which compilers the flags ask for.
pub fn requested_toolchain(args: &ToolchainArgs) -> (toolchain: Option<Toolchain>)
    ensures
        toolchain == asked_toolchain(*args),
{
    if args.docker {
        Some(Toolchain::Docker)
    } else if args.host {
        Some(Toolchain::Host)
    } else {
        None
    }
}

/// Which compilers this run uses, when a flag disagrees with the settings.
pub fn choose_toolchain(config: &mut Config, args: &ToolchainArgs)
    ensures
        final(config).build.toolchain == (match asked_toolchain(*args) {
            Some(toolchain) => toolchain,
            None => old(config).build.toolchain,
        }),
        final(config).project == old(config).project,
        final(config).build.program == old(config).build.program,
        final(config).build.args == old(config).build.args,
        final(config).build.clean_args == old(config).build.clean_args,
        final(config).build.working_directory == old(config).build.working_directory,
        final(config).build.environment == old(config).build.environment,
        old(config).wf() ==> final(config).wf(),
        final(config).build.docker == old(config).build.docker,
        final(config).serial == old(config).serial,
        final(config).upload == old(config).upload,
        final(config).emulator == old(config).emulator,
        final(config).defaults == old(config).defaults,
{
    if let Some(toolchain) = requested_toolchain(args) {
        config.build.toolchain = toolchain;
    }
}

/// What the command line said about the emulator, if anything.
pub fn requested_emulator(args: &InitArgs) -> (setup: Option<EmulatorSetup>)
    ensures
        match args.emulator_path {
            Some(path) => setup matches Some(EmulatorSetup::Program(program)) && program@ == path@,
            None => setup == (if args.emulator_docker {
                Some(EmulatorSetup::Docker)
            } else {
                None
            }),
        },
{
    if let Some(path) = &args.emulator_path {
        return Some(EmulatorSetup::Program(path.clone()));
    }
    if args.emulator_docker {
        Some(EmulatorSetup::Docker)
    } else {
        None
    }
}

/// The language that a word stands for, in capitals or not.
pub open spec fn language_named(word: Seq<char>) -> Option<ProjectLanguage> {
    if text::ascii_lower(word) == "c"@ {
        Some(ProjectLanguage::C)
    } else if text::ascii_lower(word) == "asm"@ {
        Some(ProjectLanguage::Asm)
    } else {
        None
    }
}

/// What is said of positional arguments that are neither form.
pub open spec fn positional_words(positionals: Seq<String>) -> Seq<char> {
    if positionals.len() == 2 {
        positionals[0]@ + " is not a language; write `rosco init "@ + positionals[1]@
            + " --language c` or `rosco init c "@ + positionals[1]@ + "`"@
    } else {
        "too many names; `rosco init hello` creates one project"@
    }
}

/// Reads `init`'s positional arguments.
///
/// One argument names the project. Two are the older form, a language before
/// the name, which is still what the documentation of released versions says.
pub fn split_positionals(positionals: &Vec<String>) -> (read: Result<
    (Option<String>, Option<ProjectLanguage>),
    String,
>)
    ensures
        positionals@.len() == 0 ==> read == Ok::<
            (Option<String>, Option<ProjectLanguage>),
            String,
        >((None, None)),
        positionals@.len() == 1 ==> (read matches Ok((Some(name), None)) && name@
            == positionals@[0]@),
        positionals@.len() == 2 ==> match language_named(positionals@[0]@) {
            Some(language) => read matches Ok((Some(name), Some(found))) && name@
                == positionals@[1]@ && found == language,
            None => read matches Err(words) && words@ == positional_words(positionals@),
        },
        positionals@.len() > 2 ==> (read matches Err(words) && words@ == positional_words(
            positionals@,
        )),
{
    if positionals.len() == 0 {
        return Ok((None, None));
    }
    if positionals.len() == 1 {
        return Ok((Some(positionals[0].clone()), None));
    }
    if positionals.len() > 2 {
        return Err("too many names; `rosco init hello` creates one project".to_owned());
    }
    let word = to_ascii_lower(positionals[0].as_str());
    let name = positionals[1].clone();
    if same(word.as_str(), "c") {
        return Ok((Some(name), Some(ProjectLanguage::C)));
    }
    if same(word.as_str(), "asm") {
        return Ok((Some(name), Some(ProjectLanguage::Asm)));
    }
    let mut words = cat(positionals[0].as_str(), " is not a language; write `rosco init ");
    words.append(name.as_str());
    words.append(" --language c` or `rosco init c ");
    words.append(name.as_str());
    words.append("`");
    Err(words)
}

/// Whether the recorded emulator is there: a path names a file, and a bare
/// name is looked up the way running it would be.
pub fn emulator_present(path: &str, is_file: bool, runs: bool, host: Host) -> (present: bool)
    ensures
        present == (is_file || (path::step_count(path::read_from(path@, host)) <= 1 && runs)),
{
    if leads_on(from_host(path, host).as_str()) {
        return is_file;
    }
    is_file || runs
}

/// Where the new project goes: `parent` names the directory to create it in,
/// and is taken from the current one. `path` is as it is typed on this host.
pub fn resolve_init_destination(current: &str, parent: &str, path: &str, host: Host) -> (place:
    String)
    ensures
        place@ == (if path::absolute(path::read_from(path@, host)) {
            path::read_from(path@, host)
        } else {
            path::tidy(path::below(path::below(current@, parent@), path::read_from(path@, host)))
        }),
{
    let read = from_host(path, host);
    if is_absolute(read.as_str()) {
        return read;
    }
    tidied(join_path(join_path(current, parent).as_str(), read.as_str()).as_str())
}

/// The port that was asked for, on the command line or in the settings.
pub fn requested_port(config: &Config, args: &SerialArgs) -> (port: Option<String>)
    ensures
        config::optional(port) == first_of(args.port, config.serial.port),
{
    either(&args.port, &config.serial.port)
}

/// The speed of the line: what the command line says, or the settings.
pub fn requested_baud(config: &Config, args: &SerialArgs) -> (baud: u32)
    ensures
        baud == (match args.baud {
            Some(baud) => baud,
            None => config.serial.baud,
        }),
{
    match args.baud {
        Some(baud) => baud,
        None => config.serial.baud,
    }
}

/// Those of the first ports that can be meant: all of them, or the USB ones.
pub open spec fn candidate_ports(ports: Seq<PortSummary>, all: bool, count: nat) -> Seq<int>
    decreases count,
{
    if count == 0 || count > ports.len() {
        Seq::empty()
    } else {
        let before = candidate_ports(ports, all, (count - 1) as nat);
        if all || ports[count - 1].is_usb {
            before.push(count - 1)
        } else {
            before
        }
    }
}

/// The ports to choose from: the USB ones, or all of them where there is none.
pub open spec fn likely_ports(ports: Seq<PortSummary>) -> Seq<int> {
    let usb = candidate_ports(ports, false, ports.len());
    if usb.len() > 0 {
        usb
    } else {
        candidate_ports(ports, true, ports.len())
    }
}

/// A port and what it is.
pub open spec fn port_line(port: PortSummary) -> Seq<char> {
    port.name@ + " ("@ + port.kind@ + ")"@
}

/// The lines of the ports at some places.
pub open spec fn port_lines(ports: Seq<PortSummary>, places: Seq<int>) -> Seq<Seq<char>> {
    Seq::new(places.len(), |i: int| port_line(ports[places[i]]))
}

fn line_of(port: &PortSummary) -> (line: String)
    ensures
        line@ == port_line(*port),
{
    let mut line = cat(port.name.as_str(), " (");
    line.append(port.kind.as_str());
    line.append(")");
    line
}

fn choose_ports(ports: &Vec<PortSummary>, all: bool) -> (places: Vec<usize>)
    ensures
        places@.len() == candidate_ports(ports@, all, ports@.len()).len(),
        forall|i: int|
            0 <= i < places@.len() ==> (#[trigger] places@[i]) < ports@.len() && places@[i]
                == candidate_ports(ports@, all, ports@.len())[i],
{
    let mut places: Vec<usize> = Vec::new();
    for at in 0..ports.len()
        invariant
            places@.len() == candidate_ports(ports@, all, at as nat).len(),
            forall|i: int|
                0 <= i < places@.len() ==> (#[trigger] places@[i]) < ports@.len() && places@[i]
                    == candidate_ports(ports@, all, at as nat)[i],
    {
        if all || ports[at].is_usb {
            places.push(at);
        }
    }
    places
}

/// A port that was found without being asked for, and what is said of it.
pub struct Detected {
    pub name: String,
    pub line: String,
}

/// Finds the port that is meant where none is given: the only USB one, or the
/// only one there is.
pub fn auto_detect_port_from(ports: &Vec<PortSummary>) -> (found: Result<Detected, String>)
    ensures
        if ports@.len() == 0 {
            found matches Err(words) && words@
                == "no serial ports found; connect a UART adapter or pass --port"@
        } else if likely_ports(ports@).len() == 1 {
            found matches Ok(found) && found.name@ == ports@[likely_ports(ports@)[0]].name@
                && found.line@ == "Auto-detected "@ + port_line(ports@[likely_ports(ports@)[0]])
        } else {
            found matches Err(words) && words@
                == "multiple candidate serial ports found; pass --port. Available: "@
                + text::joined(port_lines(ports@, likely_ports(ports@)), ", "@)
        },
{
    if ports.len() == 0 {
        return Err("no serial ports found; connect a UART adapter or pass --port".to_owned());
    }
    let mut places = choose_ports(ports, false);
    if places.len() == 0 {
        places = choose_ports(ports, true);
    }
    let ghost likely = likely_ports(ports@);
    assert(places@.len() == likely.len());
    if places.len() == 1 {
        let port = &ports[places[0]];
        assert(likely[0] == places@[0]);
        let line = cat("Auto-detected ", line_of(port).as_str());
        return Ok(Detected { name: port.name.clone(), line });
    }
    let mut lines: Vec<String> = Vec::new();
    for i in 0..places.len()
        invariant
            places@.len() == likely.len(),
            forall|i: int|
                0 <= i < places@.len() ==> (#[trigger] places@[i]) < ports@.len() && places@[i]
                    == likely[i],
            text::views(lines@) == port_lines(ports@, likely).take(i as int),
    {
        assert(places@[i as int] == likely[i as int]);
        push_text(&mut lines, line_of(&ports[places[i]]).as_str());
        assert(text::views(lines@) == port_lines(ports@, likely).take(i + 1));
    }
    assert(port_lines(ports@, likely).take(likely.len() as int) == port_lines(ports@, likely));
    let mut words =
        "multiple candidate serial ports found; pass --port. Available: ".to_owned();
    words.append(join(&lines, ", ").as_str());
    Err(words)
}

/// What is said of an address that the 6502 does not have.
pub open spec fn outside_memory(address: u32) -> Seq<char> {
    "upload.load_address is $"@ + text::hex_digits(address as nat)
        + ", which is outside the 6502's address space"@
}

/// The 6502 has 64K of address space and nothing outside it to load into.
pub fn load_address(config: &Config) -> (address: Result<u16, String>)
    ensures
        if config.upload.load_address <= 0xffff {
            address == Ok::<u16, String>(config.upload.load_address as u16)
        } else {
            address matches Err(words) && words@ == outside_memory(config.upload.load_address)
        },
{
    if config.upload.load_address <= 0xffff {
        return Ok(config.upload.load_address as u16);
    }
    let mut words = cat(
        "upload.load_address is $",
        hexadecimal(config.upload.load_address).as_str(),
    );
    words.append(", which is outside the 6502's address space");
    Err(words)
}

/// How a binary reaches a board.
pub enum Route {
    /// Kermit, to the loader in the firmware.
    Kermit(KermitOptions),
    /// Intel hex, through the monitor.
    Hex(HexOptions),
}

/// How a binary reaches a board over the UART: by whichever route its
/// firmware understands.
pub fn upload_route(config: &Config) -> (route: Result<Route, String>)
    ensures
        match config.project.board {
            Board::RoscoM68k => route == Ok::<Route, String>(
                Route::Kermit(
                    (KermitOptions {
                        max_retries: config.upload.max_retries,
                        packet_timeout_ms: config.upload.packet_timeout_ms,
                    }),
                ),
            ),
            Board::Rosco6502 => if config.upload.load_address <= 0xffff {
                route == Ok::<Route, String>(
                    Route::Hex(
                        (HexOptions {
                            load_address: config.upload.load_address as u16,
                            reply_timeout_ms: config.upload.packet_timeout_ms,
                            max_retries: config.upload.max_retries,
                        }),
                    ),
                )
            } else {
                route matches Err(words) && words@ == outside_memory(config.upload.load_address)
            },
        },
{
    match config.project.board {
        Board::RoscoM68k => Ok(
            Route::Kermit(
                KermitOptions {
                    max_retries: config.upload.max_retries,
                    packet_timeout_ms: config.upload.packet_timeout_ms,
                },
            ),
        ),
        Board::Rosco6502 => match load_address(config) {
            Ok(load_address) => Ok(
                Route::Hex(
                    HexOptions {
                        load_address,
                        reply_timeout_ms: config.upload.packet_timeout_ms,
                        max_retries: config.upload.max_retries,
                    },
                ),
            ),
            Err(words) => Err(words),
        },
    }
}

/// How much of a file has arrived, in hundredths. The product stops at the
/// largest number there is.
pub open spec fn percent(sent: usize, total: usize) -> usize {
    let hundredfold = if sent * 100 <= usize::MAX {
        sent * 100
    } else {
        usize::MAX as int
    };
    if total == 0 {
        100
    } else {
        (hundredfold / total as int) as usize
    }
}

/// What is shown of a transfer, and the hundredth it is at: nothing while that
/// has not changed.
pub fn show_progress(name: &str, sent: usize, total: usize, last_percent: Option<usize>) -> (shown:
    (Option<String>, usize))
    ensures
        shown.1 == percent(sent, total),
        if last_percent == Some(percent(sent, total)) {
            shown.0 is None
        } else {
            shown.0 matches Some(line) && line@ == "\rUploading "@ + name@ + ": "@ + text::spaces(
                3 - text::digits(percent(sent, total) as nat).len(),
            ) + text::digits(percent(sent, total) as nat) + "% ("@ + text::digits(sent as nat)
                + "/"@ + text::digits(total as nat) + ")"@
        },
{
    let hundredfold: usize = if sent <= usize::MAX / 100 {
        sent * 100
    } else {
        usize::MAX
    };
    let now: usize = if total == 0 {
        100
    } else {
        hundredfold / total
    };
    if let Some(last) = last_percent {
        if last == now {
            return (None, now);
        }
    }
    let mut line = cat("\rUploading ", name);
    line.append(": ");
    line.append(pad_left(decimal(now as u64).as_str(), 3).as_str());
    line.append("% (");
    line.append(decimal(sent as u64).as_str());
    line.append("/");
    line.append(decimal(total as u64).as_str());
    line.append(")");
    assert(line@ == "\rUploading "@ + name@ + ": "@ + text::spaces(
        3 - text::digits(now as nat).len(),
    ) + text::digits(now as nat) + "% ("@ + text::digits(sent as nat) + "/"@ + text::digits(
        total as nat,
    ) + ")"@);
    (Some(line), now)
}

/// What is said once a transfer is over.
pub fn uploaded_line(name: &str) -> (line: String)
    ensures
        line@ == "\rUploaded "@ + name@ + " successfully.                    "@,
{
    let mut line = cat("\rUploaded ", name);
    line.append(" successfully.                    ");
    line
}

/// The ports that are listed.
pub open spec fn ports_listing(ports: Seq<PortSummary>, show_all: bool) -> Seq<Seq<char>> {
    let visible = candidate_ports(ports, show_all, ports.len());
    if ports.len() == 0 {
        seq!["No serial ports found."@]
    } else if visible.len() == 0 {
        seq![
            "No USB serial ports found ("@ + text::digits(ports.len())
                + " non-USB port(s) hidden; use --all to show them)."@,
        ]
    } else {
        let lines = Seq::new(
            visible.len(),
            |i: int|
                ports[visible[i]].name@ + text::spaces(20 - ports[visible[i]].name@.len()) + " "@
                    + ports[visible[i]].kind@,
        );
        if !show_all && visible.len() == 1 {
            lines + seq![
                Seq::empty(),
                "Auto-selected when --port is omitted: "@ + ports[visible[0]].name@,
            ]
        } else {
            lines
        }
    }
}

/// The ports that are listed, line by line.
pub fn print_ports(ports: &Vec<PortSummary>, show_all: bool) -> (lines: Vec<String>)
    ensures
        text::views(lines@) == ports_listing(ports@, show_all),
{
    let mut lines: Vec<String> = Vec::new();
    assert(text::views(lines@) == Seq::<Seq<char>>::empty());
    if ports.len() == 0 {
        push_text(&mut lines, "No serial ports found.");
        assert(text::views(lines@) == ports_listing(ports@, show_all));
        return lines;
    }
    let visible = choose_ports(ports, show_all);
    let ghost chosen = candidate_ports(ports@, show_all, ports@.len());
    if visible.len() == 0 {
        let mut words = cat("No USB serial ports found (", decimal(ports.len() as u64).as_str());
        words.append(" non-USB port(s) hidden; use --all to show them).");
        push_text(&mut lines, words.as_str());
        assert(text::views(lines@) == ports_listing(ports@, show_all));
        return lines;
    }
    let ghost shown = Seq::new(
        chosen.len(),
        |i: int|
            ports@[chosen[i]].name@ + text::spaces(20 - ports@[chosen[i]].name@.len()) + " "@
                + ports@[chosen[i]].kind@,
    );
    for i in 0..visible.len()
        invariant
            visible@.len() == chosen.len(),
            shown.len() == chosen.len(),
            forall|i: int|
                0 <= i < visible@.len() ==> (#[trigger] visible@[i]) < ports@.len() && visible@[i]
                    == chosen[i],
            forall|i: int|
                0 <= i < shown.len() ==> #[trigger] shown[i] == ports@[chosen[i]].name@
                    + text::spaces(20 - ports@[chosen[i]].name@.len()) + " "@
                    + ports@[chosen[i]].kind@,
            text::views(lines@) == shown.take(i as int),
    {
        assert(visible@[i as int] == chosen[i as int]);
        let port = &ports[visible[i]];
        let mut line = pad_right(port.name.as_str(), 20);
        line.append(" ");
        line.append(port.kind.as_str());
        assert(line@ == shown[i as int]);
        push_text(&mut lines, line.as_str());
        assert(text::views(lines@) == shown.take(i + 1));
    }
    assert(shown.take(shown.len() as int) == shown);
    if !show_all && visible.len() == 1 {
        assert(visible@[0] == chosen[0]);
        push_text(&mut lines, "");
        push_text(
            &mut lines,
            cat("Auto-selected when --port is omitted: ", ports[visible[0]].name.as_str()).as_str(),
        );
        proof {
            reveal_strlit("");
            assert(""@ == Seq::<char>::empty());
        }
        assert(text::views(lines@) == shown + seq![
            Seq::empty(),
            "Auto-selected when --port is omitted: "@ + ports@[chosen[0]].name@,
        ]);
    }
    assert(text::views(lines@) == ports_listing(ports@, show_all));
    lines
}

/// What a command loads or sends.
pub enum Load {
    /// A file that was given.
    File(String),
    /// What the build that came before made.
    Built,
    /// The firmware a firmware project has built; nothing where it builds a
    /// program.
    Firmware,
}

/// One step of a command.
pub enum Action {
    /// Build the project.
    Build { clean: bool },
    /// See that the machine can run what was built.
    RequireFamily,
    /// Run the emulator with the console attached.
    Emulate(Load),
    /// Open the serial port.
    Connect,
    /// Send a binary to the board.
    Send(Load),
    /// Watch the board over the port that is open.
    Watch,
    ListPorts { all: bool },
    Examine,
}

/// The options about the emulator that a command was given.
pub open spec fn emulator_args(command: RoscoCommand) -> Option<EmulatorArgs> {
    match command {
        RoscoCommand::Upload(args) => Some(args.emulator),
        RoscoCommand::Monitor(args) => Some(args.emulator),
        RoscoCommand::Run(args) => Some(args.emulator),
        _ => None,
    }
}

/// The steps of a command. Nothing persists between emulator runs, so loading
/// a binary and running it are the same thing; a board keeps one port open
/// from the transfer to the session.
pub open spec fn steps_of(command: RoscoCommand, config: Config, file: String) -> Seq<Action> {
    match command {
        RoscoCommand::Build(args) => seq![Action::Build { clean: args.clean }],
        RoscoCommand::Upload(args) => if wants_emulator(config, args.emulator) {
            seq![Action::Emulate(Load::File(file))]
        } else {
            seq![Action::Connect, Action::Send(Load::File(file))]
        },
        RoscoCommand::Monitor(args) => if wants_emulator(config, args.emulator) {
            seq![Action::Emulate(Load::Firmware)]
        } else {
            seq![Action::Connect, Action::Watch]
        },
        RoscoCommand::Run(args) => if wants_emulator(config, args.emulator) {
            seq![
                Action::Build { clean: args.clean },
                Action::RequireFamily,
                Action::Emulate(Load::Built),
            ]
        } else {
            seq![
                Action::Build { clean: args.clean },
                Action::Connect,
                Action::Send(Load::Built),
                Action::Watch,
            ]
        },
        RoscoCommand::Ports(args) => seq![Action::ListPorts { all: args.all }],
        RoscoCommand::Doctor => seq![Action::Examine],
        RoscoCommand::Init(_) | RoscoCommand::Config(_) => Seq::empty(),
    }
}

/// The steps of a command on a project. `file` is the binary that `upload`
/// sends. What the flags rule out is refused before the first step, so a bad
/// one fails in a second rather than after a toolchain run.
pub fn run(command: &RoscoCommand, config: &Config, file: String) -> (steps: Result<
    Vec<Action>,
    String,
>)
    ensures
        match emulator_args(*command) {
            Some(args) => if wants_emulator(*config, args) || (config.project.kind
                == ProjectKind::Program && emulator_flag(args) is None) {
                steps matches Ok(steps) && steps@ == steps_of(*command, *config, file)
            } else {
                steps matches Err(words) && call_ensures(
                    use_emulator,
                    (config, &args),
                    Err::<bool, String>(words),
                )
            },
            None => steps matches Ok(steps) && steps@ == steps_of(*command, *config, file),
        },
{
    match command {
        RoscoCommand::Build(args) => Ok(vec![Action::Build { clean: args.clean }]),
        RoscoCommand::Upload(args) => match use_emulator(config, &args.emulator) {
            Ok(true) => Ok(vec![Action::Emulate(Load::File(file))]),
            Ok(false) => Ok(vec![Action::Connect, Action::Send(Load::File(file))]),
            Err(words) => Err(words),
        },
        RoscoCommand::Monitor(args) => match use_emulator(config, &args.emulator) {
            Ok(true) => Ok(vec![Action::Emulate(Load::Firmware)]),
            Ok(false) => Ok(vec![Action::Connect, Action::Watch]),
            Err(words) => Err(words),
        },
        RoscoCommand::Run(args) => match use_emulator(config, &args.emulator) {
            Ok(true) => Ok(
                vec![
                    Action::Build { clean: args.clean },
                    Action::RequireFamily,
                    Action::Emulate(Load::Built),
                ],
            ),
            Ok(false) => Ok(
                vec![
                    Action::Build { clean: args.clean },
                    Action::Connect,
                    Action::Send(Load::Built),
                    Action::Watch,
                ],
            ),
            Err(words) => Err(words),
        },
        RoscoCommand::Ports(args) => Ok(vec![Action::ListPorts { all: args.all }]),
        RoscoCommand::Doctor => Ok(vec![Action::Examine]),
        RoscoCommand::Init(_) | RoscoCommand::Config(_) => Ok(vec![]),
    }
}

/// Nothing is sent to a board, and no port is opened, for a firmware project.
pub proof fn no_step_sends_firmware_to_a_board(
    command: RoscoCommand,
    config: Config,
    file: String,
    steps: Result<Vec<Action>, String>,
    at: int,
)
    requires
        config.project.kind == ProjectKind::Firmware,
        call_ensures(run, (&command, &config, file), steps),
        steps is Ok,
        0 <= at < steps->Ok_0@.len(),
    ensures
        steps->Ok_0@[at] !is Send,
        steps->Ok_0@[at] !is Connect,
{
}

/// What has happened once some steps are taken.
pub struct Scene {
    /// Whether the project was built, and cleaned before that.
    pub built: Option<bool>,
    /// Whether the machine was found fit for what was built.
    pub fit: bool,
    /// What the emulator runs with, if it runs.
    pub emulated: Option<Load>,
    /// Whether the port is open.
    pub open: bool,
    /// What the board was sent.
    pub received: Option<Load>,
    /// Whether the board's console is watched.
    pub watched: bool,
    /// Which ports were listed: all of them, or those that matter.
    pub listed: Option<bool>,
    pub examined: bool,
    /// Whether each step found what it needs: a port for what goes over it, a
    /// build for what it made, and nothing done twice.
    pub sound: bool,
}

/// Whether what is to be loaded is there by now.
pub open spec fn is_there(scene: Scene, load: Load) -> bool {
    load is Built ==> scene.built is Some
}

/// What has happened once one more step is taken.
pub open spec fn stepped(scene: Scene, action: Action) -> Scene {
    match action {
        Action::Build { clean } => Scene {
            built: Some(clean),
            sound: scene.sound && scene.built is None && !scene.open && scene.emulated is None,
            ..scene
        },
        Action::RequireFamily => Scene {
            fit: true,
            sound: scene.sound && scene.built is Some && scene.emulated is None,
            ..scene
        },
        Action::Emulate(load) => Scene {
            emulated: Some(load),
            sound: scene.sound && scene.emulated is None && is_there(scene, load) && (load is Built
                ==> scene.fit),
            ..scene
        },
        Action::Connect => Scene { open: true, sound: scene.sound && !scene.open, ..scene },
        Action::Send(load) => Scene {
            received: Some(load),
            sound: scene.sound && scene.open && scene.received is None && !scene.watched
                && is_there(scene, load),
            ..scene
        },
        Action::Watch => Scene {
            watched: true,
            sound: scene.sound && scene.open && !scene.watched,
            ..scene
        },
        Action::ListPorts { all } => Scene { listed: Some(all), ..scene },
        Action::Examine => Scene { examined: true, ..scene },
    }
}

/// What has happened once steps are taken one after another.
pub open spec fn played(steps: Seq<Action>) -> Scene
    decreases steps.len(),
{
    if steps.len() == 0 {
        Scene {
            built: None,
            fit: false,
            emulated: None,
            open: false,
            received: None,
            watched: false,
            listed: None,
            examined: false,
            sound: true,
        }
    } else {
        stepped(played(steps.drop_last()), steps.last())
    }
}

proof fn lemma_played(steps: Seq<Action>)
    requires
        steps.len() <= 4,
    ensures
        steps.len() == 0 ==> played(steps) == played(Seq::<Action>::empty()),
        steps.len() == 1 ==> played(steps) == stepped(played(Seq::<Action>::empty()), steps[0]),
        steps.len() == 2 ==> played(steps) == stepped(
            stepped(played(Seq::<Action>::empty()), steps[0]),
            steps[1],
        ),
        steps.len() == 3 ==> played(steps) == stepped(
            stepped(stepped(played(Seq::<Action>::empty()), steps[0]), steps[1]),
            steps[2],
        ),
        steps.len() == 4 ==> played(steps) == stepped(
            stepped(
                stepped(stepped(played(Seq::<Action>::empty()), steps[0]), steps[1]),
                steps[2],
            ),
            steps[3],
        ),
    decreases steps.len(),
{
    if steps.len() == 0 {
        assert(steps == Seq::<Action>::empty());
    } else {
        lemma_played(steps.drop_last());
    }
}

/// Whether flags and settings leave a command to the board: `--hardware` says
/// so, and so do the settings where `--emulator` does not object.
pub open spec fn for_a_board(config: Config, args: EmulatorArgs) -> bool {
    args.hardware || (!args.emulator && config.defaults.target == Target::Hardware)
}

/// `upload` to a board opens the port and sends the file it was given, and
/// that is all. In the emulator it runs that file instead, with no port.
pub proof fn uploading_sends_the_file(
    args: UploadArgs,
    config: Config,
    file: String,
    steps: Vec<Action>,
)
    requires
        call_ensures(
            run,
            (&RoscoCommand::Upload(args), &config, file),
            Ok::<Vec<Action>, String>(steps),
        ),
    ensures
        played(steps@).sound,
        for_a_board(config, args.emulator) ==> played(steps@).received == Some(Load::File(file))
            && played(steps@).emulated is None,
        !for_a_board(config, args.emulator) ==> played(steps@).emulated == Some(Load::File(file))
            && played(steps@).received is None && !played(steps@).open,
        played(steps@).built is None,
        !played(steps@).watched,
{
    lemma_played(steps@);
}

/// `monitor` watches a board over its port and sends it nothing. In the
/// emulator it runs the firmware that the project has built, if any.
pub proof fn monitoring_only_watches(
    args: MonitorArgs,
    config: Config,
    file: String,
    steps: Vec<Action>,
)
    requires
        call_ensures(
            run,
            (&RoscoCommand::Monitor(args), &config, file),
            Ok::<Vec<Action>, String>(steps),
        ),
    ensures
        played(steps@).sound,
        played(steps@).received is None,
        played(steps@).built is None,
        for_a_board(config, args.emulator) ==> played(steps@).watched && played(
            steps@,
        ).emulated is None,
        !for_a_board(config, args.emulator) ==> played(steps@).emulated == Some(Load::Firmware)
            && !played(steps@).open,
{
    lemma_played(steps@);
}

/// `run` builds the project, cleaning it first where that was asked for, and
/// then either sends what was made to a board and watches it there, or runs it
/// in the emulator once the machine is found fit for it.
pub proof fn running_builds_and_runs_what_was_built(
    args: RunArgs,
    config: Config,
    file: String,
    steps: Vec<Action>,
)
    requires
        call_ensures(
            run,
            (&RoscoCommand::Run(args), &config, file),
            Ok::<Vec<Action>, String>(steps),
        ),
    ensures
        played(steps@).sound,
        played(steps@).built == Some(args.clean),
        for_a_board(config, args.emulator) ==> played(steps@).received == Some(Load::Built)
            && played(steps@).watched && played(steps@).emulated is None,
        !for_a_board(config, args.emulator) ==> played(steps@).emulated == Some(Load::Built)
            && played(steps@).fit && played(steps@).received is None && !played(steps@).open,
{
    lemma_played(steps@);
}

/// The other commands do what they are called, and nothing to a board or an
/// emulator.
pub proof fn the_rest_leaves_boards_alone(
    command: RoscoCommand,
    config: Config,
    file: String,
    steps: Result<Vec<Action>, String>,
)
    requires
        call_ensures(run, (&command, &config, file), steps),
        !(command is Upload || command is Monitor || command is Run),
    ensures
        steps matches Ok(steps) && {
            let end = played(steps@);
            &&& end.sound && end.emulated is None && !end.open && end.received is None
                && !end.watched
            &&& end.built == (match command {
                RoscoCommand::Build(args) => Some(args.clean),
                _ => None,
            })
            &&& end.listed == (match command {
                RoscoCommand::Ports(args) => Some(args.all),
                _ => None,
            })
            &&& end.examined == (command is Doctor)
        },
{
    lemma_played(steps->Ok_0@);
}

/// A command is refused just where it is left to a board and cannot be carried
/// out there: a firmware project, or an option that only the emulator knows.
pub proof fn what_a_board_cannot_do_is_refused(
    command: RoscoCommand,
    args: EmulatorArgs,
    config: Config,
    file: String,
    steps: Result<Vec<Action>, String>,
)
    requires
        call_ensures(run, (&command, &config, file), steps),
        match command {
            RoscoCommand::Upload(given) => given.emulator == args,
            RoscoCommand::Monitor(given) => given.emulator == args,
            RoscoCommand::Run(given) => given.emulator == args,
            _ => false,
        },
    ensures
        steps is Err <==> for_a_board(config, args) && (config.project.kind == ProjectKind::Firmware
            || args.machine is Some || args.rom_path is Some || args.sd_card is Some),
{
}

/// The file that `upload` sends: the one given, taken from the project, or
/// what the project builds.
pub fn upload_file(config: &Config, project_root: &str, file: Option<&str>) -> (binary: Result<
    String,
    String,
>)
    ensures
        match file {
            Some(file) => binary matches Ok(binary) && binary@ == path::below(
                project_root@,
                file@,
            ),
            None => match config::artifact_place(*config, project_root@) {
                Some(place) => binary matches Ok(binary) && binary@ == place,
                None => binary matches Err(words) && words@
                    == "cannot infer artifact name; set project.artifact in rosco.toml"@,
            },
        },
{
    match file {
        Some(file) => Ok(config::resolve_from(project_root, file)),
        None => config.artifact_path(project_root),
    }
}

/// What is said of a binary that is not there.
pub fn no_binary(file: &str) -> (message: String)
    ensures
        message@ == "binary does not exist: "@ + file@,
{
    cat("binary does not exist: ", file)
}

proof fn lemma_candidates(ports: Seq<PortSummary>, all: bool, count: nat)
    requires
        count <= ports.len(),
    ensures
        forall|i: int| #[trigger]
            candidate_ports(ports, all, count).contains(i) <==> 0 <= i < count && (all
                || ports[i].is_usb),
        candidate_ports(ports, all, count).no_duplicates(),
    decreases count,
{
    let places = candidate_ports(ports, all, count);
    if count > 0 {
        let last: int = count - 1;
        let before = candidate_ports(ports, all, (count - 1) as nat);
        lemma_candidates(ports, all, (count - 1) as nat);
        assert(!before.contains(last));
        if all || ports[last].is_usb {
            assert(places == before.push(last));
            assert forall|i: int| #[trigger] places.contains(i) <==> before.contains(i) || i
                == last by {
                if before.contains(i) {
                    let k = choose|k: int| 0 <= k < before.len() && before[k] == i;
                    assert(places[k] == i);
                }
                assert(places[before.len() as int] == last);
            }
            assert forall|k: int, l: int|
                0 <= k < places.len() && 0 <= l < places.len() && k != l implies places[k]
                != places[l] by {
                if k < before.len() {
                    assert(before.contains(before[k]));
                }
                if l < before.len() {
                    assert(before.contains(before[l]));
                }
            }
        } else {
            assert(places == before);
        }
    }
}

/// Whether one port stands out among some: none of the others is a USB one,
/// and this one is, unless it is alone.
pub open spec fn stands_out(ports: Seq<PortSummary>, at: int) -> bool {
    &&& 0 <= at < ports.len()
    &&& forall|i: int|
        0 <= i < ports.len() && i != at ==> ports[at].is_usb && !(#[trigger] ports[i]).is_usb
}

proof fn lemma_only_candidate(places: Seq<int>, at: int)
    requires
        places.no_duplicates(),
        forall|i: int| #[trigger] places.contains(i) <==> i == at,
    ensures
        places == seq![at],
{
    assert(places.contains(at));
    assert forall|k: int| 0 <= k < places.len() implies places[k] == at by {
        assert(places.contains(places[k]));
    }
    if places.len() > 1 {
        assert(places[0] != places[1]);
    }
    assert(places == seq![at]);
}

proof fn lemma_standing_out(ports: Seq<PortSummary>, at: int)
    requires
        stands_out(ports, at),
    ensures
        likely_ports(ports) == seq![at],
        ports[at].is_usb ==> candidate_ports(ports, false, ports.len()) == seq![at],
{
    let usb = candidate_ports(ports, false, ports.len());
    let every = candidate_ports(ports, true, ports.len());
    lemma_candidates(ports, false, ports.len());
    lemma_candidates(ports, true, ports.len());
    if ports[at].is_usb {
        lemma_only_candidate(usb, at);
    } else {
        if usb.len() > 0 {
            assert(usb.contains(usb[0]));
            assert(ports[usb[0]].is_usb);
        }
        assert forall|i: int| #[trigger] every.contains(i) implies i == at by {
            if i != at {
                assert(!ports[i].is_usb);
            }
        }
        lemma_only_candidate(every, at);
    }
}

proof fn lemma_alone(ports: Seq<PortSummary>, at: int)
    requires
        likely_ports(ports) == seq![at],
    ensures
        stands_out(ports, at),
{
    let usb = candidate_ports(ports, false, ports.len());
    let every = candidate_ports(ports, true, ports.len());
    let likely = likely_ports(ports);
    lemma_candidates(ports, false, ports.len());
    lemma_candidates(ports, true, ports.len());
    assert(likely[0] == at);
    if usb.len() > 0 {
        assert(usb.contains(at));
        assert forall|i: int| 0 <= i < ports.len() && i != at implies !(#[trigger] ports[i]).is_usb
            by {
            if usb.contains(i) {
                let k = choose|k: int| 0 <= k < usb.len() && usb[k] == i;
                assert(k == 0);
            }
        }
    } else {
        lemma_every_port(ports, ports.len());
        assert(every.len() == ports.len());
        assert(every[0] == 0);
    }
}

/// A port is found without being asked for exactly where one stands out among
/// those that are there, and it is that one.
pub proof fn the_port_that_stands_out_is_found(
    ports: &Vec<PortSummary>,
    found: Result<Detected, String>,
)
    requires
        call_ensures(auto_detect_port_from, (ports,), found),
    ensures
        forall|at: int| #[trigger]
            stands_out(ports@, at) ==> (found matches Ok(port) && port.name@ == ports@[at].name@),
        found is Ok ==> exists|at: int| stands_out(ports@, at),
{
    let likely = likely_ports(ports@);
    assert forall|at: int| #[trigger] stands_out(ports@, at) implies (found matches Ok(port)
        && port.name@ == ports@[at].name@) by {
        lemma_standing_out(ports@, at);
    }
    if found is Ok {
        let at: int = likely[0];
        assert(likely == seq![at]);
        lemma_alone(ports@, at);
    }
}

/// What is listed as selected is what a command without a port would find.
pub proof fn the_listing_names_what_is_found(
    ports: &Vec<PortSummary>,
    lines: Vec<String>,
    found: Result<Detected, String>,
    at: int,
)
    requires
        stands_out(ports@, at),
        ports@[at].is_usb,
        call_ensures(print_ports, (ports, false), lines),
        call_ensures(auto_detect_port_from, (ports,), found),
    ensures
        found is Ok,
        lines@.len() == 3,
        lines@[2]@ == "Auto-selected when --port is omitted: "@ + found->Ok_0.name@,
{
    lemma_standing_out(ports@, at);
    assert(text::views(lines@).len() == 3);
    assert(text::views(lines@)[2] == lines@[2]@);
}

/// Every port is listed where all of them are asked for, each on a line that
/// starts with its name, in the order they come in.
pub proof fn all_ports_are_listed_in_order(ports: &Vec<PortSummary>, lines: Vec<String>, at: int)
    requires
        call_ensures(print_ports, (ports, true), lines),
        0 <= at < ports@.len(),
    ensures
        lines@.len() == ports@.len(),
        ports@[at].name@.is_prefix_of(lines@[at]@),
        ports@[at].kind@.is_suffix_of(lines@[at]@),
{
    lemma_every_port(ports@, ports@.len());
    let every = candidate_ports(ports@, true, ports@.len());
    assert(every.len() == ports@.len());
    assert(every[at] == at);
    assert(text::views(lines@).len() == ports@.len());
    assert(text::views(lines@)[at] == lines@[at]@);
    let name = ports@[at].name@;
    let kind = ports@[at].kind@;
    let line = lines@[at]@;
    assert(line.take(name.len() as int) == name);
    assert(line.skip(line.len() - kind.len()) == kind);
}

proof fn lemma_every_port(ports: Seq<PortSummary>, count: nat)
    requires
        count <= ports.len(),
    ensures
        candidate_ports(ports, true, count) == Seq::new(count, |i: int| i),
    decreases count,
{
    if count > 0 {
        lemma_every_port(ports, (count - 1) as nat);
    }
    assert(candidate_ports(ports, true, count) == Seq::new(count, |i: int| i));
}

/// The hundredth a transfer is shown at is the last one it has reached: all of
/// them exactly once everything has been sent.
pub proof fn progress_is_the_hundredth_reached(
    name: &str,
    sent: usize,
    total: usize,
    last_percent: Option<usize>,
    shown: (Option<String>, usize),
)
    requires
        call_ensures(show_progress, (name, sent, total, last_percent), shown),
        0 < total,
        sent * 100 <= usize::MAX,
    ensures
        shown.1 * total <= sent * 100 < (shown.1 + 1) * total,
        sent <= total ==> shown.1 <= 100,
        sent <= total ==> (shown.1 == 100 <==> sent == total),
        shown.0 is Some <==> last_percent != Some(shown.1),
{
    let now: int = shown.1 as int;
    let all: int = total as int;
    let hundredfold: int = sent * 100;
    assert(0 <= hundredfold / all <= hundredfold) by (nonlinear_arith)
        requires
            0 < all,
            0 <= hundredfold,
    ;
    assert(now == hundredfold / all);
    assert(now * all <= hundredfold < (now + 1) * all) by (nonlinear_arith)
        requires
            0 < all,
            0 <= hundredfold,
            now == hundredfold / all,
    ;
    if sent <= total {
        assert(now <= 100) by (nonlinear_arith)
            requires
                now * all <= hundredfold,
                hundredfold <= 100 * all,
                0 < all,
        ;
        assert(now == 100 <==> hundredfold == 100 * all) by (nonlinear_arith)
            requires
                now * all <= hundredfold,
                hundredfold < (now + 1) * all,
                hundredfold <= 100 * all,
                0 < all,
        ;
    }
}

/// What an option says of the emulator is what runs, and where none is given
/// the setting of the same name; what the project builds is loaded where it is
/// a program, and is the machine's firmware where it is firmware.
pub proof fn what_was_asked_for_reaches_the_emulator(
    config: Config,
    args: EmulatorArgs,
    artifact: Option<&str>,
    runner: Runner,
    options: EmulatorOptions,
    port: u16,
    scratch: &str,
    arguments: Vec<String>,
)
    requires
        call_ensures(emulator_options, (&config, &args, artifact, runner), options),
        call_ensures(
            emulator::program_arguments,
            (
                &options,
                port,
                scratch,
                &options.rom_path,
                &options.program_binary,
                &options.sd_card,
            ),
            arguments,
        ),
    ensures
        ({
            let list = text::views(arguments@);
            let extra = text::views(config.emulator.args@);
            let told = emulator::options_in(list, extra);
            let card = emulator::option_value(told, "-hard1"@, 0);
            let roms = emulator::option_value(told, "-rompath"@, 0);
            let binary = emulator::option_value(told, "-quik"@, 0);
            &&& list.skip(list.len() - extra.len()) == extra
            &&& args.machine matches Some(machine) ==> list[0] == machine@
            &&& args.machine is None ==> list[0] == config.emulator.machine@
            &&& args.sd_card matches Some(file) ==> card == Some(file@)
            &&& args.sd_card is None ==> card == config::optional(config.emulator.sd_card)
            &&& args.rom_path matches Some(file) ==> roms == Some(file@)
            &&& args.rom_path is None ==> roms == config::optional(config.emulator.rom_path)
            &&& binary is Some <==> artifact is Some && config.project.kind == ProjectKind::Program
            &&& binary matches Some(file) ==> file == artifact->0@
            &&& options.firmware is Some <==> artifact is Some && config.project.kind
                == ProjectKind::Firmware
            &&& options.firmware matches Some(firmware) ==> firmware.image@ == artifact->0@
        }),
{
    emulator::an_emulator_here_is_told_what_to_run(
        &options,
        port,
        scratch,
        &options.rom_path,
        &options.program_binary,
        &options.sd_card,
        arguments,
    );
}

/// A new project lies below the directory it is to be made in, which lies below
/// the current one, unless it is given from the root.
pub proof fn a_project_lies_where_it_was_asked_for(
    current: &str,
    parent: &str,
    path: &str,
    place: String,
)
    requires
        call_ensures(resolve_init_destination, (current, parent, path, Host::Linux), place),
    ensures
        path::absolute(path@) ==> place@ == path@,
        !path::absolute(path@) && !path::absolute(parent@) ==> path::steps(place@) == path::steps(
            current@,
        ) + path::steps(parent@) + path::steps(path@) && (path::absolute(current@)
            ==> path::absolute(place@)),
        !path::absolute(path@) && path::absolute(parent@) ==> path::steps(place@) == path::steps(
            parent@,
        ) + path::steps(path@) && path::absolute(place@),
{
    let base = path::below(current@, parent@);
    path::a_path_below_continues_the_other(current@, parent@);
    path::a_path_below_continues_the_other(base, path@);
    path::a_tidy_path_leads_the_same_way(path::below(base, path@));
}

/// A binary goes to a board by the route that the board's firmware knows, with
/// the patience that the settings have for it. The address it is loaded at is
/// the one in the settings, never a part of it.
pub proof fn a_board_is_sent_to_as_it_expects(config: Config, route: Result<Route, String>)
    requires
        call_ensures(upload_route, (&config,), route),
    ensures
        route is Err <==> config.project.board == Board::Rosco6502 && config.upload.load_address
            >= 0x1_0000,
        route matches Ok(Route::Kermit(options)) ==> config.project.board == Board::RoscoM68k
            && options.max_retries == config.upload.max_retries && options.packet_timeout_ms
            == config.upload.packet_timeout_ms,
        route matches Ok(Route::Hex(options)) ==> config.project.board == Board::Rosco6502
            && options.load_address as int == config.upload.load_address as int
            && options.max_retries == config.upload.max_retries && options.reply_timeout_ms
            == config.upload.packet_timeout_ms,
{
}

/// A recorded emulator that is a path is there exactly where its file is; only
/// a name on its own is there as soon as it can be run.
pub proof fn a_path_is_there_where_its_file_is(
    path: &str,
    is_file: bool,
    runs: bool,
    leads: bool,
    present: bool,
)
    requires
        call_ensures(emulator_present, (path, is_file, runs, Host::Linux), present),
        call_ensures(leads_on, (path,), leads),
    ensures
        leads ==> present == is_file,
        !leads ==> present == (is_file || runs),
{
}

} // verus!
