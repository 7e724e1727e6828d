//! Running a program under the rosco emulator instead of on real hardware.
//!
//! The emulator's console is an emulated UART, which it can put on a TCP
//! socket. It is told where to connect, so whoever starts it listens first
//! and nothing the firmware prints during boot is lost to a race.
use vstd::prelude::*;
use vstd::string::*;

use crate::builder;
use crate::builder::docker_volume_source;
use crate::config;
use crate::config::{Board, Config, EmulatorSource};
use crate::path;
use crate::path::{file_name, join_path, parent};
use crate::text;
use crate::text::{cat, contains, decimal, push_all, push_text, starts_with};

verus! {

/// Which CPU a machine has, and therefore what code it can run.
#[derive(Clone, Copy, Debug, PartialEq, Eq, Structural)]
pub enum Family {
    M68k,
    Mos6502,
}

/// The name of a CPU family.
pub open spec fn family_word(family: Family) -> Seq<char> {
    match family {
        Family::M68k => "68k"@,
        Family::Mos6502 => "6502"@,
    }
}

impl Family {
    pub fn label(self) -> (label: &'static str)
        ensures
            label@ == family_word(self),
    {
        match self {
            Family::M68k => "68k",
            Family::Mos6502 => "6502",
        }
    }
}

/// The CPU family that a machine's name begins with.
pub open spec fn machine_family(machine: Seq<char>) -> Option<Family> {
    if "rosco_m68k"@.is_prefix_of(machine) {
        Some(Family::M68k)
    } else if "rosco_6502"@.is_prefix_of(machine) {
        Some(Family::Mos6502)
    } else {
        None
    }
}

/// Works out the CPU family from a machine name.
///
/// The emulator names its machines after the boards, so the prefix is enough;
/// an unknown name gives `None` rather than a guess.
pub fn family(machine: &str) -> (family: Option<Family>)
    ensures
        family == machine_family(machine@),
{
    if starts_with(machine, "rosco_m68k") {
        Some(Family::M68k)
    } else if starts_with(machine, "rosco_6502") {
        Some(Family::Mos6502)
    } else {
        None
    }
}

/// The CPU family that a board's programs are built for.
pub fn board_family(board: Board) -> (family: Family)
    ensures
        family == (match board {
            Board::RoscoM68k => Family::M68k,
            Board::Rosco6502 => Family::Mos6502,
        }),
{
    match board {
        Board::RoscoM68k => Family::M68k,
        Board::Rosco6502 => Family::Mos6502,
    }
}

/// The machine that a board brings with it runs what the board's projects
/// build.
pub proof fn a_board_runs_on_its_own_machine(board: Board)
    ensures
        machine_family(config::board_machine(board)) == Some(
            (match board {
                Board::RoscoM68k => Family::M68k,
                Board::Rosco6502 => Family::Mos6502,
            }),
        ),
{
    reveal_strlit("rosco_m68k");
    reveal_strlit("rosco_6502");
    reveal_strlit("rosco_m68k_010");
    match board {
        Board::RoscoM68k => {
            assert("rosco_m68k"@ == "rosco_m68k_010"@.take(10));
        },
        Board::Rosco6502 => {
            assert("rosco_6502"@ == "rosco_6502"@.take(10));
            assert("rosco_m68k"@[6] != "rosco_6502"@.take(10)[6]);
        },
    }
}

/// What runs the emulator.
#[derive(Debug)]
pub enum Runner {
    /// A build of it on this computer.
    Program(String),
    /// Its image.
    Image { name: String, platform: Option<String> },
}

/// An image that the machine starts in, instead of the firmware it comes with.
#[derive(Debug)]
pub struct Firmware {
    pub image: String,
    /// What the emulator calls it.
    pub rom_file: String,
}

#[derive(Debug)]
pub struct EmulatorOptions {
    pub runner: Runner,
    /// Machine to run, for example `rosco_m68k_010`.
    pub machine: String,
    /// Binary to load into memory and run once the firmware is up.
    pub program_binary: Option<String>,
    /// What the machine starts in, when it is not what it comes with.
    pub firmware: Option<Firmware>,
    /// Directory holding the firmware ROM sets.
    pub rom_path: Option<String>,
    /// Image to attach as the SPI SD card.
    pub sd_card: Option<String>,
    /// Extra arguments passed straight through.
    pub extra_args: Vec<String>,
}

/// The name the emulator is looked up by when nothing else says where it is.
pub const DEFAULT_PROGRAM: &'static str = "rosco-emulator";

/// The variable that points at an emulator for everything that is run.
pub const PROGRAM_ENV: &'static str = "ROSCO_EMULATOR";

/// The emulator binary to use: the command line wins, then the settings, then
/// the environment, and finally a bare name looked up on `PATH`.
pub open spec fn chosen_program(
    config: Config,
    from_cli: Option<&str>,
    from_env: Option<&str>,
) -> Seq<char> {
    match (from_cli, config.emulator.program, from_env) {
        (Some(program), _, _) => program@,
        (None, Some(program), _) => program@,
        (None, None, Some(program)) => program@,
        (None, None, None) => DEFAULT_PROGRAM@,
    }
}

/// Works out which emulator binary to use.
pub fn resolve_program_with(
    config: &Config,
    from_cli: Option<&str>,
    from_env: Option<&str>,
) -> (program: String)
    ensures
        program@ == chosen_program(*config, from_cli, from_env),
{
    if let Some(program) = from_cli {
        return program.to_owned();
    }
    if let Some(program) = &config.emulator.program {
        return program.clone();
    }
    match from_env {
        Some(program) => program.to_owned(),
        None => DEFAULT_PROGRAM.to_owned(),
    }
}

/// Built in its own source tree the emulator binary is called `rosco`, which
/// is this program's name too, so that this program does not run itself.
pub fn not_this_program(program: String, is_this_program: bool) -> (checked: Result<String, String>)
    ensures
        !is_this_program ==> checked == Ok::<String, String>(program),
        is_this_program ==> (checked matches Err(words) && words@ == "the configured emulator ("@
            + program@
            + ") is this CLI itself; point emulator.program or ROSCO_EMULATOR at the emulator binary"@),
{
    if is_this_program {
        let mut words = cat("the configured emulator (", program.as_str());
        words.append(
            ") is this CLI itself; point emulator.program or ROSCO_EMULATOR at the emulator binary",
        );
        Err(words)
    } else {
        Ok(program)
    }
}

/// What runs the emulator. A path on the command line can only mean a build
/// on this computer; otherwise the settings say where it comes from.
pub fn resolve_runner(
    config: &Config,
    from_cli: Option<&str>,
    from_env: Option<&str>,
) -> (runner: Runner)
    ensures
        if from_cli is None && config.emulator.source == EmulatorSource::Docker {
            runner matches Runner::Image { name, platform } && name@ == config.emulator.docker.image@
                && config::optional(platform) == config::optional(config.emulator.docker.platform)
        } else {
            runner matches Runner::Program(program) && program@ == chosen_program(
                *config,
                from_cli,
                from_env,
            )
        },
{
    if from_cli.is_none() && config.emulator.source == EmulatorSource::Docker {
        let platform = match &config.emulator.docker.platform {
            Some(platform) => Some(platform.clone()),
            None => None,
        };
        Runner::Image { name: config.emulator.docker.image.clone(), platform }
    } else {
        Runner::Program(resolve_program_with(config, from_cli, from_env))
    }
}

/// Where the emulator keeps its firmware: in `roms` next to the binary.
pub fn roms_beside(program: &str) -> (roms: Option<String>)
    requires
        path::absolute(program@),
    ensures
        match path::directory(program@) {
            Some(directory) => roms matches Some(roms) && roms@ == path::below(
                directory,
                "roms"@,
            ),
            None => roms is None,
        },
{
    match parent(program) {
        Some(directory) => Some(join_path(directory.as_str(), "roms")),
        None => None,
    }
}

/// Where the emulator looks for its firmware: the project's own comes first,
/// the directory that was given next, and the one beside the program last.
pub fn rom_directory(own: Option<String>, given: Option<String>, beside: Option<String>) -> (roms:
    Option<String>)
    ensures
        roms == (match (own, given) {
            (Some(_), _) => own,
            (None, Some(_)) => given,
            (None, None) => beside,
        }),
{
    match (own, given) {
        (Some(own), _) => Some(own),
        (None, Some(given)) => Some(given),
        (None, None) => beside,
    }
}

/// The options of the emulator that make it write into a scratch directory.
pub open spec fn scratch_arguments(scratch: Seq<char>) -> Seq<Seq<char>> {
    seq![
        "-cfg_directory"@,
        scratch,
        "-nvram_directory"@,
        scratch,
        "-snapshot_directory"@,
        scratch,
        "-diff_directory"@,
        scratch,
        "-input_directory"@,
        scratch,
        "-state_directory"@,
        scratch,
        "-comment_directory"@,
        scratch,
    ]
}

/// An option and its value, where there is one.
pub open spec fn with_text(flag: Seq<char>, value: Option<Seq<char>>) -> Seq<Seq<char>> {
    match value {
        Some(value) => seq![flag, value],
        None => Seq::empty(),
    }
}

/// What the emulator is told: the machine, to run with the console as its only
/// interface, where to write, where the console is, and what to load.
pub open spec fn machine_arguments(
    machine: Seq<char>,
    scratch: Seq<char>,
    console: Seq<char>,
    roms: Option<Seq<char>>,
    binary: Option<Seq<char>>,
    sd_card: Option<Seq<char>>,
    extra: Seq<Seq<char>>,
) -> Seq<Seq<char>> {
    seq![machine, "-skip_gameinfo"@, "-video"@, "none"@, "-sound"@, "none"@] + scratch_arguments(
        scratch,
    ) + seq!["-terminal"@, "null_modem"@, "-bitb"@, "socket."@ + console] + with_text(
        "-rompath"@,
        roms,
    ) + with_text("-quik"@, binary) + with_text("-hard1"@, sd_card) + extra
}

fn push_optional(list: &mut Vec<String>, flag: &str, value: &Option<String>)
    ensures
        text::views(final(list)@) == text::views(old(list)@) + with_text(
            flag@,
            config::optional(*value),
        ),
{
    let ghost before = text::views(list@);
    if let Some(value) = value {
        push_text(list, flag);
        push_text(list, value.as_str());
    }
    assert(text::views(list@) == before + with_text(flag@, config::optional(*value)));
}

fn scratch_list(scratch: &str) -> (list: Vec<String>)
    ensures
        text::views(list@) == scratch_arguments(scratch@),
{
    let mut list: Vec<String> = Vec::new();
    push_text(&mut list, "-cfg_directory");
    push_text(&mut list, scratch);
    push_text(&mut list, "-nvram_directory");
    push_text(&mut list, scratch);
    push_text(&mut list, "-snapshot_directory");
    push_text(&mut list, scratch);
    push_text(&mut list, "-diff_directory");
    push_text(&mut list, scratch);
    push_text(&mut list, "-input_directory");
    push_text(&mut list, scratch);
    push_text(&mut list, "-state_directory");
    push_text(&mut list, scratch);
    push_text(&mut list, "-comment_directory");
    push_text(&mut list, scratch);
    assert(text::views(list@) == scratch_arguments(scratch@));
    list
}

fn console_list(console: &str) -> (list: Vec<String>)
    ensures
        text::views(list@) == seq!["-terminal"@, "null_modem"@, "-bitb"@, "socket."@ + console@],
{
    let mut list: Vec<String> = Vec::new();
    push_text(&mut list, "-terminal");
    push_text(&mut list, "null_modem");
    push_text(&mut list, "-bitb");
    push_text(&mut list, cat("socket.", console).as_str());
    assert(text::views(list@) == seq![
        "-terminal"@,
        "null_modem"@,
        "-bitb"@,
        "socket."@ + console@,
    ]);
    list
}

fn machine_list(
    machine: &str,
    scratch: &str,
    console: &str,
    roms: &Option<String>,
    binary: &Option<String>,
    sd_card: &Option<String>,
    extra: &Vec<String>,
) -> (list: Vec<String>)
    ensures
        text::views(list@) == machine_arguments(
            machine@,
            scratch@,
            console@,
            config::optional(*roms),
            config::optional(*binary),
            config::optional(*sd_card),
            text::views(extra@),
        ),
{
    let mut list: Vec<String> = Vec::new();
    push_text(&mut list, machine);
    push_text(&mut list, "-skip_gameinfo");
    push_text(&mut list, "-video");
    push_text(&mut list, "none");
    push_text(&mut list, "-sound");
    push_text(&mut list, "none");
    assert(text::views(list@) == seq![
        machine@,
        "-skip_gameinfo"@,
        "-video"@,
        "none"@,
        "-sound"@,
        "none"@,
    ]);
    push_all(&mut list, &scratch_list(scratch));
    push_all(&mut list, &console_list(console));
    push_optional(&mut list, "-rompath", roms);
    push_optional(&mut list, "-quik", binary);
    push_optional(&mut list, "-hard1", sd_card);
    push_all(&mut list, extra);
    list
}

/// The arguments of an emulator on this computer. The images are given by
/// their absolute paths, because it does not run in the user's directory.
pub fn program_arguments(
    options: &EmulatorOptions,
    port: u16,
    scratch: &str,
    roms: &Option<String>,
    binary: &Option<String>,
    sd_card: &Option<String>,
) -> (arguments: Vec<String>)
    ensures
        text::views(arguments@) == machine_arguments(
            options.machine@,
            scratch@,
            "127.0.0.1:"@ + text::digits(port as nat),
            config::optional(*roms),
            config::optional(*binary),
            config::optional(*sd_card),
            text::views(options.extra_args@),
        ),
{
    let console = cat("127.0.0.1:", decimal(port as u64).as_str());
    machine_list(
        options.machine.as_str(),
        scratch,
        console.as_str(),
        roms,
        binary,
        sd_card,
        &options.extra_args,
    )
}

/// Where a file of this computer is in the container: under the name it had,
/// because the emulator decides what a file is by its extension.
pub open spec fn mounted(file: Seq<char>) -> Seq<char> {
    match path::last_name(file) {
        Some(name) => "/work/"@ + name,
        None => "/work/file"@,
    }
}

/// The option that mounts a file or a directory.
pub open spec fn mount(source: Option<Seq<char>>, place: Seq<char>, access: Seq<char>) -> Seq<
    Seq<char>,
> {
    match source {
        Some(source) => seq!["--volume"@, builder::plain_path(source) + ":"@ + place + access],
        None => Seq::empty(),
    }
}

/// Where a mounted file is, if there is one.
pub open spec fn mounted_at(file: Option<Seq<char>>) -> Option<Seq<char>> {
    match file {
        Some(file) => Some(mounted(file)),
        None => None,
    }
}

/// The arguments that run the emulator from its image. What it is handed is
/// mounted: the binary to read, the SD card to write, and the ROM directory in
/// front of the firmware that the image comes with. The console reaches back
/// out of the container.
pub open spec fn image_arguments(
    name: Seq<char>,
    platform: Option<String>,
    session: Seq<char>,
    options: EmulatorOptions,
    port: u16,
    roms: Option<Seq<char>>,
    binary: Option<Seq<char>>,
    sd_card: Option<Seq<char>>,
) -> Seq<Seq<char>> {
    seq!["run"@, "--rm"@, "--name"@, session] + with_text("--platform"@, config::optional(platform))
        + seq![
        "--add-host"@,
        "host.docker.internal:host-gateway"@,
        "--env"@,
        "SDL_VIDEODRIVER=dummy"@,
    ] + (match binary {
        Some(file) => mount(binary, mounted(file), ":ro"@),
        None => Seq::empty(),
    }) + (match sd_card {
        Some(file) => mount(sd_card, mounted(file), ""@),
        None => Seq::empty(),
    }) + mount(roms, "/work/roms"@, ":ro"@) + seq![name] + machine_arguments(
        options.machine@,
        "/tmp"@,
        "host.docker.internal:"@ + text::digits(port as nat),
        (match roms {
            Some(_) => Some("/work/roms;roms"@),
            None => None,
        }),
        mounted_at(binary),
        mounted_at(sd_card),
        text::views(options.extra_args@),
    )
}

fn mounted_path(file: &str) -> (place: String)
    ensures
        place@ == mounted(file@),
{
    match file_name(file) {
        Some(name) => cat("/work/", name.as_str()),
        None => "/work/file".to_owned(),
    }
}

fn push_mount(list: &mut Vec<String>, source: &Option<String>, place: &str, access: &str)
    ensures
        text::views(final(list)@) == text::views(old(list)@) + mount(
            config::optional(*source),
            place@,
            access@,
        ),
{
    let ghost before = text::views(list@);
    if let Some(source) = source {
        let mut volume = cat(docker_volume_source(source.as_str()).as_str(), ":");
        volume.append(place);
        volume.append(access);
        push_text(list, "--volume");
        push_text(list, volume.as_str());
    }
    assert(text::views(list@) == before + mount(config::optional(*source), place@, access@));
}

/// The arguments that run the emulator from its image.
pub fn container_arguments(
    name: &str,
    platform: &Option<String>,
    session: &str,
    options: &EmulatorOptions,
    port: u16,
    roms: &Option<String>,
    binary: &Option<String>,
    sd_card: &Option<String>,
) -> (arguments: Vec<String>)
    ensures
        text::views(arguments@) == image_arguments(
            name@,
            *platform,
            session@,
            *options,
            port,
            config::optional(*roms),
            config::optional(*binary),
            config::optional(*sd_card),
        ),
{
    let mut arguments: Vec<String> = Vec::new();
    push_text(&mut arguments, "run");
    push_text(&mut arguments, "--rm");
    push_text(&mut arguments, "--name");
    push_text(&mut arguments, session);
    assert(text::views(arguments@) == seq!["run"@, "--rm"@, "--name"@, session@]);
    push_optional(&mut arguments, "--platform", platform);
    let ghost before = text::views(arguments@);
    push_text(&mut arguments, "--add-host");
    push_text(&mut arguments, "host.docker.internal:host-gateway");
    push_text(&mut arguments, "--env");
    push_text(&mut arguments, "SDL_VIDEODRIVER=dummy");
    assert(text::views(arguments@) == before + seq![
        "--add-host"@,
        "host.docker.internal:host-gateway"@,
        "--env"@,
        "SDL_VIDEODRIVER=dummy"@,
    ]);
    let ghost empty = Seq::<Seq<char>>::empty();
    let ghost now = text::views(arguments@);
    assert(now + empty == now);
    let binary_place = match binary {
        Some(file) => {
            let place = mounted_path(file.as_str());
            push_mount(&mut arguments, binary, place.as_str(), ":ro");
            Some(place)
        },
        None => None,
    };
    let ghost now = text::views(arguments@);
    assert(now + empty == now);
    let card_place = match sd_card {
        Some(file) => {
            let place = mounted_path(file.as_str());
            push_mount(&mut arguments, sd_card, place.as_str(), "");
            Some(place)
        },
        None => None,
    };
    push_mount(&mut arguments, roms, "/work/roms", ":ro");
    let ghost now = text::views(arguments@);
    push_text(&mut arguments, name);
    assert(text::views(arguments@) == now + seq![name@]);
    let rom_places = match roms {
        Some(_) => Some("/work/roms;roms".to_owned()),
        None => None,
    };
    let console = cat("host.docker.internal:", decimal(port as u64).as_str());
    let told = machine_list(
        options.machine.as_str(),
        "/tmp",
        console.as_str(),
        &rom_places,
        &binary_place,
        &card_place,
        &options.extra_args,
    );
    push_all(&mut arguments, &told);
    arguments
}

/// The value of an option, as the emulator reads its command line from a place
/// on: every option has one behind it, but for the one that skips the screens
/// about the machine.
pub open spec fn option_value(list: Seq<Seq<char>>, flag: Seq<char>, at: int) -> Option<Seq<char>>
    decreases list.len() - at,
{
    if at < 0 || at >= list.len() {
        None
    } else if list[at] == "-skip_gameinfo"@ {
        option_value(list, flag, at + 1)
    } else if at + 1 >= list.len() {
        None
    } else if list[at] == flag {
        Some(list[at + 1])
    } else {
        option_value(list, flag, at + 2)
    }
}

/// The options between the machine and what the settings add behind them.
pub open spec fn options_in(list: Seq<Seq<char>>, extra: Seq<Seq<char>>) -> Seq<Seq<char>> {
    list.subrange(1, list.len() - extra.len())
}

/// Whether the emulator is told to run a machine with the console as its only
/// interface, and to write where it may.
pub open spec fn runs_machine(
    list: Seq<Seq<char>>,
    extra: Seq<Seq<char>>,
    machine: Seq<char>,
    scratch: Seq<char>,
    console: Seq<char>,
) -> bool {
    let options = options_in(list, extra);
    &&& list.len() > extra.len()
    &&& list[0] == machine
    &&& list.skip(list.len() - extra.len()) == extra
    &&& options.contains("-skip_gameinfo"@)
    &&& option_value(options, "-video"@, 0) == Some("none"@)
    &&& option_value(options, "-sound"@, 0) == Some("none"@)
    &&& option_value(options, "-cfg_directory"@, 0) == Some(scratch)
    &&& option_value(options, "-nvram_directory"@, 0) == Some(scratch)
    &&& option_value(options, "-snapshot_directory"@, 0) == Some(scratch)
    &&& option_value(options, "-diff_directory"@, 0) == Some(scratch)
    &&& option_value(options, "-input_directory"@, 0) == Some(scratch)
    &&& option_value(options, "-state_directory"@, 0) == Some(scratch)
    &&& option_value(options, "-comment_directory"@, 0) == Some(scratch)
    &&& option_value(options, "-terminal"@, 0) == Some("null_modem"@)
    &&& option_value(options, "-bitb"@, 0) == Some("socket."@ + console)
}

/// The options that are always there, in their order.
spec fn standing_flags() -> Seq<Seq<char>> {
    seq![
        "-video"@,
        "-sound"@,
        "-cfg_directory"@,
        "-nvram_directory"@,
        "-snapshot_directory"@,
        "-diff_directory"@,
        "-input_directory"@,
        "-state_directory"@,
        "-comment_directory"@,
        "-terminal"@,
        "-bitb"@,
    ]
}

proof fn lemma_flags_apart()
    ensures
        standing_flags().no_duplicates(),
        !standing_flags().contains("-skip_gameinfo"@),
        !standing_flags().contains("-rompath"@),
        !standing_flags().contains("-quik"@),
        !standing_flags().contains("-hard1"@),
        "-rompath"@ != "-quik"@,
        "-rompath"@ != "-hard1"@,
        "-quik"@ != "-hard1"@,
        "-skip_gameinfo"@ != "-rompath"@,
        "-skip_gameinfo"@ != "-quik"@,
        "-skip_gameinfo"@ != "-hard1"@,
{
    reveal_strlit("-video");
    reveal_strlit("-sound");
    reveal_strlit("-cfg_directory");
    reveal_strlit("-nvram_directory");
    reveal_strlit("-snapshot_directory");
    reveal_strlit("-diff_directory");
    reveal_strlit("-input_directory");
    reveal_strlit("-state_directory");
    reveal_strlit("-comment_directory");
    reveal_strlit("-terminal");
    reveal_strlit("-bitb");
    reveal_strlit("-skip_gameinfo");
    reveal_strlit("-rompath");
    reveal_strlit("-quik");
    reveal_strlit("-hard1");
    assert("-video"@[1] == 'v' && "-sound"@[1] == 's' && "-hard1"@[1] == 'h');
    assert("-cfg_directory"@[1] == 'c' && "-cfg_directory"@[2] == 'f');
    assert("-nvram_directory"@[1] == 'n' && "-snapshot_directory"@[1] == 's');
    assert("-snapshot_directory"@[2] == 'n' && "-sound"@[2] == 'o');
    assert("-diff_directory"@[1] == 'd' && "-input_directory"@[1] == 'i');
    assert("-state_directory"@[1] == 's' && "-state_directory"@[2] == 't');
    assert("-comment_directory"@[1] == 'c' && "-comment_directory"@[2] == 'o');
    assert("-terminal"@[1] == 't' && "-bitb"@[1] == 'b' && "-quik"@[1] == 'q');
    assert("-skip_gameinfo"@[1] == 's' && "-skip_gameinfo"@[2] == 'k' && "-rompath"@[1] == 'r');
}

/// Options with other names are passed over.
proof fn lemma_passed_over(list: Seq<Seq<char>>, flag: Seq<char>, at: int, count: nat)
    requires
        0 <= at,
        at + 2 * count <= list.len(),
        forall|k: int|
            0 <= k < count ==> #[trigger] list[at + 2 * k] != flag && list[at + 2 * k]
                != "-skip_gameinfo"@,
    ensures
        option_value(list, flag, at) == option_value(list, flag, at + 2 * count),
    decreases count,
{
    if count > 0 {
        let fewer = (count - 1) as nat;
        assert(list[at + 2 * 0] != flag && list[at + 2 * 0] != "-skip_gameinfo"@);
        assert forall|k: int| 0 <= k < fewer implies #[trigger] list[at + 2 + 2 * k] != flag
            && list[at + 2 + 2 * k] != "-skip_gameinfo"@ by {
            assert(list[at + 2 * (k + 1)] != flag);
        }
        lemma_passed_over(list, flag, at + 2, fewer);
    }
}

/// What the emulator reads in its command line.
proof fn lemma_told(
    machine: Seq<char>,
    scratch: Seq<char>,
    console: Seq<char>,
    roms: Option<Seq<char>>,
    binary: Option<Seq<char>>,
    sd_card: Option<Seq<char>>,
    extra: Seq<Seq<char>>,
)
    ensures
        ({
            let list = machine_arguments(machine, scratch, console, roms, binary, sd_card, extra);
            let options = options_in(list, extra);
            &&& runs_machine(list, extra, machine, scratch, console)
            &&& option_value(options, "-rompath"@, 0) == roms
            &&& option_value(options, "-quik"@, 0) == binary
            &&& option_value(options, "-hard1"@, 0) == sd_card
        }),
{
    let list = machine_arguments(machine, scratch, console, roms, binary, sd_card, extra);
    let options = options_in(list, extra);
    let flags = standing_flags();
    lemma_flags_apart();
    let first = with_text("-rompath"@, roms);
    let second = with_text("-quik"@, binary);
    let third = with_text("-hard1"@, sd_card);
    assert(list.skip(list.len() - extra.len()) =~= extra);
    assert(options.len() == 23 + first.len() + second.len() + third.len());
    assert(options[0] == "-skip_gameinfo"@);
    assert(options.contains("-skip_gameinfo"@));
    assert(options[1] == flags[0] && options[3] == flags[1] && options[5] == flags[2]);
    assert(options[7] == flags[3] && options[9] == flags[4] && options[11] == flags[5]);
    assert(options[13] == flags[6] && options[15] == flags[7] && options[17] == flags[8]);
    assert(options[19] == flags[9] && options[21] == flags[10]);
    assert forall|k: int| 0 <= k < 11 implies #[trigger] options[1 + 2 * k] == flags[k] by {}
    assert forall|k: int| 0 <= k < 11 implies option_value(options, #[trigger] flags[k], 0)
        == Some(options[2 + 2 * k]) by {
        assert(option_value(options, flags[k], 0) == option_value(options, flags[k], 1));
        assert forall|j: int| 0 <= j < k implies #[trigger] options[1 + 2 * j] != flags[k]
            && options[1 + 2 * j] != "-skip_gameinfo"@ by {
            assert(flags[j] != flags[k]);
            assert(flags.contains(flags[j]));
        }
        lemma_passed_over(options, flags[k], 1, k as nat);
        assert(options[1 + 2 * k] == flags[k]);
        assert(flags.contains(flags[k]));
    }
    assert(flags[0] == "-video"@ && flags[1] == "-sound"@ && flags[2] == "-cfg_directory"@);
    assert(flags[3] == "-nvram_directory"@ && flags[4] == "-snapshot_directory"@);
    assert(flags[5] == "-diff_directory"@ && flags[6] == "-input_directory"@);
    assert(flags[7] == "-state_directory"@ && flags[8] == "-comment_directory"@);
    assert(flags[9] == "-terminal"@ && flags[10] == "-bitb"@);
    assert(options[2] == "none"@ && options[4] == "none"@);
    assert(options[20] == "null_modem"@ && options[22] == "socket."@ + console);
    lemma_beyond(options, "-rompath"@);
    lemma_beyond(options, "-quik"@);
    lemma_beyond(options, "-hard1"@);
    let rest = first + second + third;
    assert forall|i: int| 0 <= i < rest.len() implies #[trigger] options[23 + i] == rest[i] by {}
    reveal_with_fuel(option_value, 5);
    if roms is Some {
        assert(options[23] == "-rompath"@ && options[24] == roms->Some_0);
    }
    if binary is Some {
        let at = first.len() as int;
        assert(options[23 + at] == "-quik"@ && options[23 + (at + 1)] == binary->Some_0);
    }
    if sd_card is Some {
        let at = (first.len() + second.len()) as int;
        assert(options[23 + at] == "-hard1"@ && options[23 + (at + 1)] == sd_card->Some_0);
    }
}

proof fn lemma_beyond(options: Seq<Seq<char>>, flag: Seq<char>)
    requires
        options.len() >= 23,
        options[0] == "-skip_gameinfo"@,
        forall|k: int| 0 <= k < 11 ==> #[trigger] options[1 + 2 * k] == standing_flags()[k],
        !standing_flags().contains(flag),
        !standing_flags().contains("-skip_gameinfo"@),
    ensures
        option_value(options, flag, 0) == option_value(options, flag, 23),
{
    let flags = standing_flags();
    assert forall|j: int| 0 <= j < 11 implies #[trigger] options[1 + 2 * j] != flag && options[1
        + 2 * j] != "-skip_gameinfo"@ by {
        assert(flags.contains(flags[j]));
    }
    lemma_passed_over(options, flag, 1, 11);
}

/// An emulator on this computer runs the machine with its console on a port
/// here and writes into the scratch directory. It loads a binary exactly where
/// there is one, has an SD card exactly where there is one, and looks for its
/// firmware where it is told to, if it is.
pub proof fn an_emulator_here_is_told_what_to_run(
    options: &EmulatorOptions,
    port: u16,
    scratch: &str,
    roms: &Option<String>,
    binary: &Option<String>,
    sd_card: &Option<String>,
    arguments: Vec<String>,
)
    requires
        call_ensures(
            program_arguments,
            (options, port, scratch, roms, binary, sd_card),
            arguments,
        ),
    ensures
        ({
            let list = text::views(arguments@);
            let extra = text::views(options.extra_args@);
            let told = options_in(list, extra);
            &&& runs_machine(
                list,
                extra,
                options.machine@,
                scratch@,
                "127.0.0.1:"@ + text::digits(port as nat),
            )
            &&& option_value(told, "-quik"@, 0) == config::optional(*binary)
            &&& option_value(told, "-hard1"@, 0) == config::optional(*sd_card)
            &&& option_value(told, "-rompath"@, 0) == config::optional(*roms)
        }),
{
    lemma_told(
        options.machine@,
        scratch@,
        "127.0.0.1:"@ + text::digits(port as nat),
        config::optional(*roms),
        config::optional(*binary),
        config::optional(*sd_card),
        text::views(options.extra_args@),
    );
}

/// Where a file is in the container: in its working directory, under its own
/// name.
pub open spec fn keeps_its_name(place: Seq<char>, file: Seq<char>) -> bool {
    match path::last_name(file) {
        Some(name) => path::steps(place) == seq!["work"@, name] && path::absolute(place),
        None => true,
    }
}

/// Whether arguments run an image, which stands at a place among them, and
/// hand it what it is to run: the binary is mounted for reading and loaded from
/// there, the SD card is mounted for writing and attached from there, and the
/// firmware that was given comes before the image's own.
pub open spec fn runs_image(
    list: Seq<Seq<char>>,
    at: int,
    name: Seq<char>,
    platform: Option<Seq<char>>,
    session: Seq<char>,
    machine: Seq<char>,
    port: u16,
    roms: Option<Seq<char>>,
    binary: Option<Seq<char>>,
    sd_card: Option<Seq<char>>,
    extra: Seq<Seq<char>>,
) -> bool {
    let docker = list.take(at);
    let inside = list.skip(at + 1);
    let told = options_in(inside, extra);
    let load = option_value(told, "-quik"@, 0);
    let card = option_value(told, "-hard1"@, 0);
    let firmware = option_value(told, "-rompath"@, 0);
    &&& 8 <= at < list.len()
    &&& list[at] == name
    &&& docker[0] == "run"@ && docker[1] == "--rm"@
    &&& builder::gives(docker, "--name"@, session)
    &&& platform matches Some(platform) ==> builder::gives(docker, "--platform"@, platform)
    &&& builder::gives(docker, "--add-host"@, "host.docker.internal:host-gateway"@)
    &&& builder::gives(docker, "--env"@, "SDL_VIDEODRIVER=dummy"@)
    &&& runs_machine(
        inside,
        extra,
        machine,
        "/tmp"@,
        "host.docker.internal:"@ + text::digits(port as nat),
    )
    &&& load is Some == binary is Some
    &&& binary matches Some(file) ==> keeps_its_name(load->Some_0, file) && builder::gives(
        docker,
        "--volume"@,
        builder::plain_path(file) + ":"@ + load->Some_0 + ":ro"@,
    )
    &&& card is Some == sd_card is Some
    &&& sd_card matches Some(file) ==> keeps_its_name(card->Some_0, file) && builder::gives(
        docker,
        "--volume"@,
        builder::plain_path(file) + ":"@ + card->Some_0,
    )
    &&& firmware is Some == roms is Some
    &&& roms matches Some(directory) ==> firmware == Some("/work/roms;roms"@) && builder::gives(
        docker,
        "--volume"@,
        builder::plain_path(directory) + ":/work/roms:ro"@,
    )
}

proof fn lemma_keeps_its_name(file: Seq<char>)
    ensures
        keeps_its_name(mounted(file), file),
{
    if let Some(name) = path::last_name(file) {
        reveal_strlit("/work");
        reveal_strlit("/work/");
        reveal_strlit("work");
        reveal_strlit("/");
        reveal_strlit(".");
        reveal_strlit("..");
        path::lemma_steps(file);
        let names = path::steps(file);
        assert(path::names(names[names.len() - 1]) && !names[names.len() - 1].contains('/'));
        assert(path::all_steps(seq![name]));
        assert("/work/"@ =~= "/work"@ + "/"@);
        path::lemma_file_in("/work"@, name);
        assert(!path::absolute(name)) by {
            if path::absolute(name) {
                assert(name.contains('/'));
            }
        }
        assert(path::below("/work"@, name) == "/work/"@ + name);
        assert(path::all_steps(seq!["work"@]));
        assert(Seq::<char>::empty() + "/"@ + "work"@ =~= "/work"@);
        path::lemma_root_name("work"@);
        assert(seq!["work"@].push(name) =~= seq!["work"@, name]);
    }
}

/// An emulator from its image is told what to run: what is loaded, attached
/// and looked for inside the container is what was mounted there.
pub proof fn an_emulator_in_its_image_is_told_what_to_run(
    name: &str,
    platform: &Option<String>,
    session: &str,
    options: &EmulatorOptions,
    port: u16,
    roms: &Option<String>,
    binary: &Option<String>,
    sd_card: &Option<String>,
    arguments: Vec<String>,
)
    requires
        call_ensures(
            container_arguments,
            (name, platform, session, options, port, roms, binary, sd_card),
            arguments,
        ),
    ensures
        exists|at: int| #[trigger]
            runs_image(
                text::views(arguments@),
                at,
                name@,
                config::optional(*platform),
                session@,
                options.machine@,
                port,
                config::optional(*roms),
                config::optional(*binary),
                config::optional(*sd_card),
                text::views(options.extra_args@),
            ),
{
    let list = text::views(arguments@);
    let extra = text::views(options.extra_args@);
    let console = "host.docker.internal:"@ + text::digits(port as nat);
    let places = match roms {
        Some(_) => Some("/work/roms;roms"@),
        None => None::<Seq<char>>,
    };
    let one = config::optional(*binary);
    let two = config::optional(*sd_card);
    let three = config::optional(*roms);
    let told = machine_arguments(
        options.machine@,
        "/tmp"@,
        console,
        places,
        mounted_at(one),
        mounted_at(two),
        extra,
    );
    lemma_told(
        options.machine@,
        "/tmp"@,
        console,
        places,
        mounted_at(one),
        mounted_at(two),
        extra,
    );
    let front = seq!["run"@, "--rm"@, "--name"@, session@];
    let system = with_text("--platform"@, config::optional(*platform));
    let fixed = seq![
        "--add-host"@,
        "host.docker.internal:host-gateway"@,
        "--env"@,
        "SDL_VIDEODRIVER=dummy"@,
    ];
    let none = Seq::<Seq<char>>::empty();
    let first = match one {
        Some(file) => mount(one, mounted(file), ":ro"@),
        None => none,
    };
    let second = match two {
        Some(file) => mount(two, mounted(file), ""@),
        None => none,
    };
    let third = mount(three, "/work/roms"@, ":ro"@);
    let docker = front + system + fixed + first + second + third;
    let at = docker.len() as int;
    assert(list =~= docker + seq![name@] + told);
    assert(list.take(at) =~= docker);
    assert(list.skip(at + 1) =~= told);
    assert(docker[2] == "--name"@ && docker[3] == session@);
    let a: int = 4;
    let b: int = a + system.len();
    let c: int = b + 4;
    let d: int = c + first.len();
    let e: int = d + second.len();
    if platform is Some {
        assert(docker[a] == "--platform"@ && docker[a + 1] == system[1]);
    }
    assert(docker[b] == "--add-host"@ && docker[b + 1] == fixed[1]);
    assert(docker[b + 2] == "--env"@ && docker[b + 2 + 1] == fixed[3]);
    reveal_strlit("");
    reveal_strlit(":");
    reveal_strlit("/work/roms");
    reveal_strlit(":ro");
    reveal_strlit(":/work/roms:ro");
    if let Some(file) = one {
        lemma_keeps_its_name(file);
        assert(docker[c] == "--volume"@ && docker[c + 1] == first[1]);
    }
    if let Some(file) = two {
        lemma_keeps_its_name(file);
        assert(docker[d] == "--volume"@ && docker[d + 1] == second[1]);
        assert(second[1] =~= builder::plain_path(file) + ":"@ + mounted(file));
    }
    if let Some(directory) = three {
        assert(docker[e] == "--volume"@ && docker[e + 1] == third[1]);
        assert(third[1] =~= builder::plain_path(directory) + ":/work/roms:ro"@);
    }
    assert(runs_image(
        list,
        at,
        name@,
        config::optional(*platform),
        session@,
        options.machine@,
        port,
        three,
        one,
        two,
        extra,
    ));
}

/// The name of a session, which its scratch directory and its container have.
pub fn session_name(process: u32, port: u16) -> (name: String)
    ensures
        name@ == "rosco-cli-"@ + text::digits(process as nat) + "-"@ + text::digits(port as nat),
{
    let mut name = cat("rosco-cli-", decimal(process as u64).as_str());
    name.append("-");
    name.append(decimal(port as u64).as_str());
    name
}

/// Whether a line of the emulator's diagnostics is worth passing on. Its
/// warning about running without video is not, and neither are those about a
/// firmware that is not the one it was built around.
pub open spec fn worth_relaying(line: Seq<char>, own_firmware: bool) -> bool {
    !text::occurs(line, "-video none doesn't make much sense"@) && !(own_firmware && (text::occurs(
        line,
        "WRONG CHECKSUM"@,
    ) || text::occurs(line, "EXPECTED:"@) || text::occurs(line, "FOUND:"@) || text::occurs(
        line,
        "might not run correctly"@,
    )))
}

/// Whether a line of the emulator's diagnostics is worth passing on.
pub fn relays(line: &str, own_firmware: bool) -> (does: bool)
    ensures
        does == worth_relaying(line@, own_firmware),
{
    let checksums: bool = contains(line, "WRONG CHECKSUM") || contains(line, "EXPECTED:")
        || contains(line, "FOUND:") || contains(line, "might not run correctly");
    !contains(line, "-video none doesn't make much sense") && !(own_firmware && checksums)
}

/// What to do while the emulator has not connected its console yet.
pub enum Connecting {
    Wait,
    Fail(String),
}

/// Whether to wait on for the console: not for an emulator that has exited,
/// nor for longer than so many seconds.
pub fn still_connecting(exited: Option<String>, late: bool, seconds: u64) -> (next: Connecting)
    ensures
        match exited {
            Some(status) => next matches Connecting::Fail(words) && words@
                == "the emulator exited before connecting its console ("@ + status@ + ")"@,
            None => if late {
                next matches Connecting::Fail(words) && words@
                    == "the emulator did not connect its console within "@ + text::digits(
                    seconds as nat,
                ) + " seconds"@
            } else {
                next is Wait
            },
        },
{
    match exited {
        Some(status) => {
            let mut words = cat(
                "the emulator exited before connecting its console (",
                status.as_str(),
            );
            words.append(")");
            Connecting::Fail(words)
        },
        None => if late {
            let mut words = cat(
                "the emulator did not connect its console within ",
                decimal(seconds).as_str(),
            );
            words.append(" seconds");
            Connecting::Fail(words)
        } else {
            Connecting::Wait
        },
    }
}

/// What is said of an emulator that cannot be started.
pub fn could_not_start(program: &str) -> (message: String)
    ensures
        message@ == "could not start the emulator "@ + program@
            + "; point --emulator-path, emulator.program in rosco.toml, or ROSCO_EMULATOR at it"@,
{
    let mut message = cat("could not start the emulator ", program);
    message.append(
        "; point --emulator-path, emulator.program in rosco.toml, or ROSCO_EMULATOR at it",
    );
    message
}

/// The options of a run that ends by itself, and for how many seconds its
/// console is read at most. Used for scripted checks.
pub fn capture(options: EmulatorOptions, seconds: u32) -> (run: (EmulatorOptions, u64))
    ensures
        text::views(run.0.extra_args@) == text::views(options.extra_args@) + seq![
            "-seconds_to_run"@,
            text::digits(seconds as nat),
            "-nothrottle"@,
        ],
        run.0.runner == options.runner,
        run.0.machine == options.machine,
        run.0.program_binary == options.program_binary,
        run.0.firmware == options.firmware,
        run.0.rom_path == options.rom_path,
        run.0.sd_card == options.sd_card,
        run.1 == seconds + 30,
{
    let mut options = options;
    let ghost before = text::views(options.extra_args@);
    push_text(&mut options.extra_args, "-seconds_to_run");
    push_text(&mut options.extra_args, decimal(seconds as u64).as_str());
    push_text(&mut options.extra_args, "-nothrottle");
    assert(text::views(options.extra_args@) == before + seq![
        "-seconds_to_run"@,
        text::digits(seconds as nat),
        "-nothrottle"@,
    ]);
    (options, seconds as u64 + 30)
}

/// How far into an escape sequence a text has come.
#[derive(Clone, Copy, Debug, PartialEq, Eq, Structural)]
pub enum Escape {
    /// Not in one.
    Outside,
    /// Behind the escape character.
    Begun,
    /// In a control sequence, which a final byte ends.
    Control,
    /// In an operating system command, which a bell or another escape ends.
    Command,
    /// Behind the escape that ends such a command.
    CommandEnd,
}

/// Where a character leads.
pub open spec fn escape_step(escape: Escape, ch: char) -> Escape {
    match escape {
        Escape::Outside => if ch == '\u{1b}' {
            Escape::Begun
        } else {
            Escape::Outside
        },
        Escape::Begun => if ch == '[' {
            Escape::Control
        } else if ch == ']' {
            Escape::Command
        } else {
            Escape::Outside
        },
        Escape::Control => if '\u{40}' <= ch <= '\u{7e}' {
            Escape::Outside
        } else {
            Escape::Control
        },
        Escape::Command => if ch == '\u{7}' {
            Escape::Outside
        } else if ch == '\u{1b}' {
            Escape::CommandEnd
        } else {
            Escape::Command
        },
        Escape::CommandEnd => Escape::Outside,
    }
}

/// A text without its escape sequences, and where its end is.
pub open spec fn stripped(text: Seq<char>) -> (Seq<char>, Escape)
    decreases text.len(),
{
    if text.len() == 0 {
        (Seq::empty(), Escape::Outside)
    } else {
        let (kept, escape) = stripped(text.drop_last());
        let next = escape_step(escape, text.last());
        if escape == Escape::Outside && next == Escape::Outside {
            (kept.push(text.last()), next)
        } else {
            (kept, next)
        }
    }
}

/// Removes ANSI escape sequences from console output.
///
/// The rosco firmware colourises what it prints, so a literal `Memory checks:
/// passed` never appears in the raw stream: there is a colour change sitting
/// in the middle of it.
pub fn strip_ansi(text: &str) -> (plain: String)
    ensures
        plain@ == stripped(text@).0,
{
    let mut plain = String::new();
    let mut escape = Escape::Outside;
    assert(plain@ == Seq::<char>::empty());
    for ch in it: text.chars()
        invariant
            it.seq() == text@,
            (plain@, escape) == stripped(text@.take(it.index() as int)),
    {
        proof {
            let i = it.index() as int;
            assert(text@.take(i + 1).drop_last() == text@.take(i));
        }
        match escape {
            Escape::Outside => if ch == '\u{1b}' {
                escape = Escape::Begun;
            } else {
                plain.push(ch);
            },
            Escape::Begun => if ch == '[' {
                escape = Escape::Control;
            } else if ch == ']' {
                escape = Escape::Command;
            } else {
                escape = Escape::Outside;
            },
            Escape::Control => if '\u{40}' <= ch && ch <= '\u{7e}' {
                escape = Escape::Outside;
            },
            Escape::Command => if ch == '\u{7}' {
                escape = Escape::Outside;
            } else if ch == '\u{1b}' {
                escape = Escape::CommandEnd;
            },
            Escape::CommandEnd => {
                escape = Escape::Outside;
            },
        }
    }
    assert(text@.take(text@.len() as int) == text@);
    plain
}

/// What is left has no escape character in it.
pub proof fn no_escape_is_left(text: Seq<char>)
    ensures
        !stripped(text).0.contains('\u{1b}'),
    decreases text.len(),
{
    if text.len() > 0 {
        no_escape_is_left(text.drop_last());
    }
}

/// A text without escapes is left alone.
pub proof fn plain_text_is_left_alone(text: Seq<char>)
    requires
        !text.contains('\u{1b}'),
    ensures
        stripped(text) == (text, Escape::Outside),
    decreases text.len(),
{
    if text.len() > 0 {
        assert(text.contains(text.last()));
        assert forall|i: int| 0 <= i < text.drop_last().len() implies text.drop_last()[i]
            != '\u{1b}' by {
            assert(text.contains(text[i]));
        }
        plain_text_is_left_alone(text.drop_last());
        assert(text == text.drop_last().push(text.last()));
    } else {
        assert(text == Seq::<char>::empty());
    }
}

/// Whether one text is what is left of another when some of its characters are
/// left out.
pub open spec fn is_within(part: Seq<char>, whole: Seq<char>) -> bool
    decreases whole.len(),
{
    if part.len() == 0 {
        true
    } else if whole.len() == 0 {
        false
    } else if part.last() == whole.last() && is_within(part.drop_last(), whole.drop_last()) {
        true
    } else {
        is_within(part, whole.drop_last())
    }
}

/// Nothing is added, and what is left keeps its order.
pub proof fn what_is_left_was_there(text: Seq<char>)
    ensures
        is_within(stripped(text).0, text),
    decreases text.len(),
{
    if text.len() > 0 {
        let rest = text.drop_last();
        what_is_left_was_there(rest);
        let before = stripped(rest).0;
        let after = stripped(text).0;
        if after != before {
            assert(after.drop_last() == before);
        }
    }
}

/// A text is left alone up to its first escape.
pub proof fn a_plain_start_is_left_alone(text: Seq<char>, count: int)
    requires
        0 <= count <= text.len(),
        !text.take(count).contains('\u{1b}'),
    ensures
        text.take(count).is_prefix_of(stripped(text).0),
    decreases text.len() - count,
{
    let start = text.take(count);
    if count == text.len() {
        assert(start == text);
        plain_text_is_left_alone(text);
        assert(stripped(text).0.take(count) == start);
    } else {
        let rest = text.drop_last();
        assert(rest.take(count) == start);
        a_plain_start_is_left_alone(rest, count);
        let before = stripped(rest).0;
        let after = stripped(text).0;
        assert(after == before || after == before.push(text.last()));
        assert(after.take(count) == before.take(count));
    }
}

/// Whether a text is an escape sequence and nothing else: a control sequence
/// up to the byte that ends it, an operating system command up to the bell or
/// the two characters that end it, or an escape with one character behind it.
pub open spec fn is_escape(sequence: Seq<char>) -> bool {
    &&& sequence.len() >= 2
    &&& sequence[0] == '\u{1b}'
    &&& if sequence[1] == '[' {
        &&& sequence.len() >= 3
        &&& ends_control(sequence.last())
        &&& forall|i: int|
            2 <= i < sequence.len() - 1 ==> !ends_control(#[trigger] sequence[i])
    } else if sequence[1] == ']' {
        ||| {
            &&& sequence.len() >= 3
            &&& sequence.last() == '\u{7}'
            &&& plain_within(sequence, 2, sequence.len() - 1)
        }
        ||| {
            &&& sequence.len() >= 4
            &&& sequence[sequence.len() - 2] == '\u{1b}'
            &&& plain_within(sequence, 2, sequence.len() - 2)
        }
    } else {
        sequence.len() == 2
    }
}

/// Whether a character ends a control sequence.
pub open spec fn ends_control(ch: char) -> bool {
    0x40 <= ch as int && ch as int <= 0x7e
}

/// Whether no character from one place up to another ends a command.
pub open spec fn plain_within(sequence: Seq<char>, from: int, to: int) -> bool {
    forall|i: int|
        from <= i < to ==> (#[trigger] sequence[i]) != '\u{7}' && sequence[i] != '\u{1b}'
}

/// Whether a text is the start of an escape sequence whose end has not come.
pub open spec fn is_unfinished(sequence: Seq<char>) -> bool {
    &&& sequence.len() >= 1
    &&& sequence[0] == '\u{1b}'
    &&& if sequence.len() == 1 {
        true
    } else if sequence[1] == '[' {
        forall|i: int| 2 <= i < sequence.len() ==> !ends_control(#[trigger] sequence[i])
    } else if sequence[1] == ']' {
        ||| plain_within(sequence, 2, sequence.len() as int)
        ||| {
            &&& sequence.len() >= 3
            &&& sequence.last() == '\u{1b}'
            &&& plain_within(sequence, 2, sequence.len() - 1)
        }
    } else {
        false
    }
}

proof fn lemma_begun(sequence: Seq<char>, count: int)
    requires
        2 <= count <= sequence.len(),
        sequence[0] == '\u{1b}',
    ensures
        sequence[1] == '[' && (forall|i: int|
            2 <= i < count ==> !ends_control(#[trigger] sequence[i])) ==> stripped(
            sequence.take(count),
        ) == (Seq::<char>::empty(), Escape::Control),
        sequence[1] == ']' && plain_within(sequence, 2, count) ==> stripped(sequence.take(count))
            == (Seq::<char>::empty(), Escape::Command),
        count == 2 && sequence[1] != '[' && sequence[1] != ']' ==> stripped(sequence.take(count))
            == (Seq::<char>::empty(), Escape::Outside),
    decreases count,
{
    let start = sequence.take(count);
    assert(start.drop_last() == sequence.take(count - 1));
    if count == 2 {
        reveal_with_fuel(stripped, 3);
        assert(sequence.take(1).drop_last() == Seq::<char>::empty());
        assert(sequence.take(1).last() == '\u{1b}');
    } else {
        lemma_begun(sequence, count - 1);
        assert(start.last() == sequence[count - 1]);
        assert(ends_control(sequence[count - 1]) || !ends_control(sequence[count - 1]));
    }
}

proof fn lemma_whole_escape(sequence: Seq<char>)
    requires
        is_escape(sequence),
    ensures
        stripped(sequence) == (Seq::<char>::empty(), Escape::Outside),
{
    let len = sequence.len() as int;
    assert(sequence.take(len) == sequence);
    if sequence[1] == '[' {
        lemma_begun(sequence, len - 1);
        assert(sequence.drop_last() == sequence.take(len - 1));
    } else if sequence[1] == ']' {
        assert(sequence.drop_last() == sequence.take(len - 1));
        if sequence.last() == '\u{7}' && plain_within(sequence, 2, len - 1) {
            lemma_begun(sequence, len - 1);
        } else {
            lemma_begun(sequence, len - 2);
            let start = sequence.take(len - 1);
            assert(start.drop_last() == sequence.take(len - 2));
            assert(start.last() == sequence[len - 2]);
            assert(stripped(start) == (Seq::<char>::empty(), Escape::CommandEnd));
        }
    } else {
        lemma_begun(sequence, 2);
    }
}

proof fn lemma_part_of_escape(sequence: Seq<char>)
    requires
        is_unfinished(sequence),
    ensures
        stripped(sequence).0 == Seq::<char>::empty(),
{
    let len = sequence.len() as int;
    assert(sequence.take(len) == sequence);
    assert(sequence.drop_last() == sequence.take(len - 1));
    if len == 1 {
        reveal_with_fuel(stripped, 2);
    } else if sequence[1] == '[' {
        lemma_begun(sequence, len);
    } else if plain_within(sequence, 2, len) {
        lemma_begun(sequence, len);
    } else {
        lemma_begun(sequence, len - 1);
    }
}

proof fn lemma_stripped_apart(first: Seq<char>, second: Seq<char>)
    requires
        stripped(first).1 == Escape::Outside,
    ensures
        stripped(first + second) == (stripped(first).0 + stripped(second).0, stripped(second).1),
    decreases second.len(),
{
    if second.len() == 0 {
        assert(first + second == first);
        assert(stripped(first).0 + stripped(second).0 == stripped(first).0);
    } else {
        let rest = second.drop_last();
        lemma_stripped_apart(first, rest);
        assert((first + second).drop_last() == first + rest);
        assert((first + second).last() == second.last());
        assert(stripped(first + second).0 == stripped(first).0 + stripped(second).0);
    }
}

/// An escape sequence is cut out, and nothing else is: what stands before it is
/// kept, and what follows reads as it would alone.
pub proof fn an_escape_sequence_is_cut_out(
    raw: &str,
    before: Seq<char>,
    sequence: Seq<char>,
    after: &str,
    plain: String,
    rest: String,
)
    requires
        raw@ == before + sequence + after@,
        !before.contains('\u{1b}'),
        is_escape(sequence),
        call_ensures(strip_ansi, (raw,), plain),
        call_ensures(strip_ansi, (after,), rest),
    ensures
        plain@ == before + rest@,
{
    plain_text_is_left_alone(before);
    lemma_whole_escape(sequence);
    lemma_stripped_apart(before, sequence);
    assert(stripped(before).0 + stripped(sequence).0 == before);
    lemma_stripped_apart(before + sequence, after@);
}

/// An escape sequence that the text breaks off in is cut out as far as it goes.
pub proof fn an_unfinished_escape_is_cut_out(
    raw: &str,
    before: Seq<char>,
    sequence: Seq<char>,
    plain: String,
)
    requires
        raw@ == before + sequence,
        !before.contains('\u{1b}'),
        is_unfinished(sequence),
        call_ensures(strip_ansi, (raw,), plain),
    ensures
        plain@ == before,
{
    plain_text_is_left_alone(before);
    lemma_part_of_escape(sequence);
    lemma_stripped_apart(before, sequence);
    assert(before + Seq::<char>::empty() == before);
}

/// The firmware beside an emulator lies in the same directory as the emulator,
/// and there is none only beside the root.
pub proof fn the_roms_lie_beside_the_program(program: &str, roms: Option<String>)
    requires
        path::absolute(program@),
        call_ensures(roms_beside, (program,), roms),
    ensures
        roms is None <==> path::steps(program@).len() == 0,
        roms matches Some(roms) ==> path::absolute(roms@) && path::steps(roms@) == path::steps(
            program@,
        ).drop_last().push("roms"@),
{
    let names = path::steps(program@);
    if names.len() > 0 {
        let shorter = names.drop_last();
        let rest = text::joined(shorter, "/"@);
        reveal_strlit("/");
        reveal_strlit("roms");
        reveal_strlit(".");
        reveal_strlit("..");
        path::lemma_steps(program@);
        assert forall|i: int| 0 <= i < shorter.len() implies path::names(#[trigger] shorter[i])
            && !shorter[i].contains('/') by {
            assert(shorter[i] == names[i]);
        }
        path::lemma_rooted(shorter);
        assert("roms"@ != "."@ && "roms"@ != ".."@) by {
            assert("roms"@.len() == 4);
        }
        path::lemma_file_in("/"@ + rest, "roms"@);
    }
}

/// A path on the command line is run whatever the settings say. Without one the
/// settings say whether the image runs, and where the build is that does; only
/// where they say nothing of it does the environment.
pub proof fn the_emulator_that_is_meant_runs(
    config: Config,
    from_cli: Option<&str>,
    from_env: Option<&str>,
    runner: Runner,
)
    requires
        call_ensures(resolve_runner, (&config, from_cli, from_env), runner),
    ensures
        from_cli matches Some(program) ==> runner matches Runner::Program(run) && run@ == program@,
        runner is Image <==> from_cli is None && config.emulator.source == EmulatorSource::Docker,
        runner matches Runner::Image { name, .. } ==> name@ == config.emulator.docker.image@,
        from_cli is None && runner is Program ==> (config.emulator.program matches Some(program)
            ==> runner->Program_0@ == program@),
        from_cli is None && runner is Program && config.emulator.program is None ==> (
        from_env matches Some(program) ==> runner->Program_0@ == program@),
{
}

/// A scripted run is the same run, told to end by itself, and its console is
/// read for longer than it lasts.
pub proof fn a_scripted_run_ends_by_itself(
    options: EmulatorOptions,
    seconds: u32,
    port: u16,
    scratch: &str,
    roms: &Option<String>,
    binary: &Option<String>,
    sd_card: &Option<String>,
    run: (EmulatorOptions, u64),
    arguments: Vec<String>,
    usual: Vec<String>,
)
    requires
        call_ensures(capture, (options, seconds), run),
        call_ensures(
            program_arguments,
            (&options, port, scratch, roms, binary, sd_card),
            usual,
        ),
        call_ensures(
            program_arguments,
            (&run.0, port, scratch, roms, binary, sd_card),
            arguments,
        ),
    ensures
        ({
            let list = text::views(arguments@);
            let plain = text::views(usual@);
            &&& plain.is_prefix_of(list)
            &&& option_value(list, "-seconds_to_run"@, plain.len() as int) == Some(
                text::digits(seconds as nat),
            )
            &&& list.last() == "-nothrottle"@
            &&& run.1 > seconds
        }),
        run.0.runner == options.runner,
        run.0.firmware == options.firmware,
{
    let list = text::views(arguments@);
    let plain = text::views(usual@);
    let more = seq!["-seconds_to_run"@, text::digits(seconds as nat), "-nothrottle"@];
    assert(list == plain + more);
    assert(list.take(plain.len() as int) == plain);
    reveal_strlit("-seconds_to_run");
    reveal_strlit("-skip_gameinfo");
    assert("-seconds_to_run"@[2] != "-skip_gameinfo"@[2]);
    let end: int = plain.len() as int;
    assert(list[end] == more[0]);
    assert(list[end + 1] == more[1]);
    assert(list[end + 2] == more[2]);
}

/// No two sessions have the same name: it says which process started one, and
/// which port its console is on.
pub proof fn sessions_are_told_apart(
    process: u32,
    port: u16,
    name: String,
    other_process: u32,
    other_port: u16,
    other: String,
)
    requires
        call_ensures(session_name, (process, port), name),
        call_ensures(session_name, (other_process, other_port), other),
        name@ == other@,
    ensures
        process == other_process,
        port == other_port,
{
    let start = "rosco-cli-"@;
    let first = text::digits(process as nat);
    let second = text::digits(other_process as nat);
    let rest = text::digits(port as nat);
    let others = text::digits(other_port as nat);
    text::lemma_digits_read(process as nat);
    text::lemma_digits_read(other_process as nat);
    text::lemma_digits_read(port as nat);
    text::lemma_digits_read(other_port as nat);
    reveal_strlit("-");
    let at: int = start.len() as int;
    let end: int = at + first.len();
    let other_end: int = at + second.len();
    assert(name@[end] == '-');
    assert(other@[other_end] == '-');
    if end < other_end {
        assert(other@[end] == second[end - at]);
    } else if other_end < end {
        assert(name@[other_end] == first[other_end - at]);
    }
    assert(name@.subrange(at, end) == first);
    assert(other@.subrange(at, other_end) == second);
    assert(name@.skip(end + 1) == rest);
    assert(other@.skip(other_end + 1) == others);
}

/// What is passed on of a machine that runs a firmware of its own is passed on
/// of any, and what is held back for it alone speaks of a firmware that is not
/// the expected one. The warning about the missing screen is never passed on.
pub proof fn only_noise_is_held_back(line: &str, own: bool, usual: bool)
    requires
        call_ensures(relays, (line, true), own),
        call_ensures(relays, (line, false), usual),
    ensures
        own ==> usual,
        usual <==> !text::occurs(line@, "-video none doesn't make much sense"@),
        usual && !own <==> usual && (text::occurs(line@, "WRONG CHECKSUM"@) || text::occurs(
            line@,
            "EXPECTED:"@,
        ) || text::occurs(line@, "FOUND:"@) || text::occurs(line@, "might not run correctly"@)),
{
}

} // verus!
