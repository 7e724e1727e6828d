//! The settings that apply: what they are, where they are kept, and which
//! file decides each of them.
use vstd::prelude::*;
use vstd::string::*;

use crate::document;
use crate::document::read_table;
use crate::path;
use crate::path::{file_name, is_absolute, join_path, tidied};
use crate::text;
use crate::text::{cat, chars_of, same};
use crate::value;
use crate::value::{lookup, merge_tables, Node, Section, Setting};

verus! {

/// Per-project settings, kept next to the application sources.
pub const CONFIG_FILE: &'static str = "rosco.toml";

/// Per-user settings, shared by every project on this machine.
pub const GLOBAL_CONFIG_FILE: &'static str = "config.toml";

/// Overrides the directory holding the per-user settings file.
pub const CONFIG_HOME_ENV: &'static str = "ROSCO_CONFIG_HOME";

/// Overrides the directory holding what is built here.
pub const DATA_HOME_ENV: &'static str = "ROSCO_DATA_HOME";

/// What a project builds.
///
/// Almost every project is a program, which the firmware loads into memory
/// and jumps to. A firmware is what the machine starts in: it is burned into
/// ROM rather than sent over a wire, and only the emulator can run it here.
#[derive(Clone, Copy, Debug, PartialEq, Eq, Structural)]
pub enum ProjectKind {
    Program,
    Firmware,
}

impl Default for ProjectKind {
    fn default() -> (kind: ProjectKind)
        ensures
            kind == ProjectKind::Program,
    {
        ProjectKind::Program
    }
}

/// The word for a kind of project.
pub open spec fn kind_word(kind: ProjectKind) -> Seq<char> {
    match kind {
        ProjectKind::Program => "program"@,
        ProjectKind::Firmware => "firmware"@,
    }
}

impl ProjectKind {
    pub fn label(self) -> (label: &'static str)
        ensures
            label@ == kind_word(self),
    {
        match self {
            ProjectKind::Program => "program",
            ProjectKind::Firmware => "firmware",
        }
    }
}

/// Which computer the application is built for.
///
/// Almost everything else follows from it: the toolchain, the machine the
/// emulator runs, and how a binary reaches a board over UART.
#[derive(Clone, Copy, Debug, PartialEq, Eq, Structural)]
pub enum Board {
    RoscoM68k,
    Rosco6502,
}

impl Default for Board {
    fn default() -> (board: Board)
        ensures
            board == Board::RoscoM68k,
    {
        Board::RoscoM68k
    }
}

/// The name of a board.
pub open spec fn board_word(board: Board) -> Seq<char> {
    match board {
        Board::RoscoM68k => "rosco_m68k"@,
        Board::Rosco6502 => "rosco_6502"@,
    }
}

/// The image that holds a board's toolchain.
pub open spec fn board_image(board: Board) -> Seq<char> {
    match board {
        Board::RoscoM68k => "solderdemon/rosco_m68k:latest"@,
        Board::Rosco6502 => "solderdemon/rosco_6502:latest"@,
    }
}

/// The machine that a board's programs run on.
pub open spec fn board_machine(board: Board) -> Seq<char> {
    match board {
        Board::RoscoM68k => "rosco_m68k_010"@,
        Board::Rosco6502 => "rosco_6502"@,
    }
}

/// What the emulator calls a board's firmware image.
pub open spec fn board_rom(board: Board) -> Seq<char> {
    match board {
        Board::RoscoM68k => "rosco_m68k.rom"@,
        Board::Rosco6502 => "rosco_6502.rom"@,
    }
}

impl Board {
    pub fn label(self) -> (label: &'static str)
        ensures
            label@ == board_word(self),
    {
        match self {
            Board::RoscoM68k => "rosco_m68k",
            Board::Rosco6502 => "rosco_6502",
        }
    }

    /// Toolchain image, when nothing has said otherwise.
    pub fn docker_image(self) -> (image: &'static str)
        ensures
            image@ == board_image(self),
    {
        match self {
            Board::RoscoM68k => "solderdemon/rosco_m68k:latest",
            Board::Rosco6502 => "solderdemon/rosco_6502:latest",
        }
    }

    /// Machine the emulator runs for this board, when nothing has said
    /// otherwise. The m68k has four of them and they all run the same code.
    pub fn machine(self) -> (machine: &'static str)
        ensures
            machine@ == board_machine(self),
    {
        match self {
            Board::RoscoM68k => "rosco_m68k_010",
            Board::Rosco6502 => "rosco_6502",
        }
    }

    /// What the emulator calls this board's firmware image. A project that
    /// builds its own has to hand it over under that name.
    pub fn rom_file(self) -> (file: &'static str)
        ensures
            file@ == board_rom(self),
    {
        match self {
            Board::RoscoM68k => "rosco_m68k.rom",
            Board::Rosco6502 => "rosco_6502.rom",
        }
    }
}

/// Where the compilers that build the application come from.
#[derive(Clone, Copy, Debug, PartialEq, Eq, Structural)]
pub enum Toolchain {
    /// The toolchain image, which needs nothing installed on this computer.
    Docker,
    /// Compilers installed on this computer.
    Host,
}

impl Default for Toolchain {
    fn default() -> (toolchain: Toolchain)
        ensures
            toolchain == Toolchain::Docker,
    {
        Toolchain::Docker
    }
}

/// The word for a toolchain.
pub open spec fn toolchain_word(toolchain: Toolchain) -> Seq<char> {
    match toolchain {
        Toolchain::Docker => "docker"@,
        Toolchain::Host => "host"@,
    }
}

impl Toolchain {
    pub fn label(self) -> (label: &'static str)
        ensures
            label@ == toolchain_word(self),
    {
        match self {
            Toolchain::Docker => "docker",
            Toolchain::Host => "host",
        }
    }
}

/// Where the emulator that runs the program comes from.
#[derive(Clone, Copy, Debug, PartialEq, Eq, Structural)]
pub enum EmulatorSource {
    /// A build of the emulator on this computer.
    Host,
    /// The emulator image, which needs nothing installed on this computer.
    Docker,
}

impl Default for EmulatorSource {
    fn default() -> (source: EmulatorSource)
        ensures
            source == EmulatorSource::Host,
    {
        EmulatorSource::Host
    }
}

/// The word for where the emulator comes from.
pub open spec fn source_word(source: EmulatorSource) -> Seq<char> {
    match source {
        EmulatorSource::Host => "host"@,
        EmulatorSource::Docker => "docker"@,
    }
}

impl EmulatorSource {
    pub fn label(self) -> (label: &'static str)
        ensures
            label@ == source_word(self),
    {
        match self {
            EmulatorSource::Host => "host",
            EmulatorSource::Docker => "docker",
        }
    }
}

/// Where a program is run.
#[derive(Clone, Copy, Debug, PartialEq, Eq, Structural)]
pub enum Target {
    /// A board attached over UART.
    Hardware,
    /// The rosco emulator.
    Emulator,
}

impl Default for Target {
    fn default() -> (target: Target)
        ensures
            target == Target::Hardware,
    {
        Target::Hardware
    }
}

/// The word for a target.
pub open spec fn target_word(target: Target) -> Seq<char> {
    match target {
        Target::Hardware => "hardware"@,
        Target::Emulator => "emulator"@,
    }
}

impl Target {
    pub fn label(self) -> (label: &'static str)
        ensures
            label@ == target_word(self),
    {
        match self {
            Target::Hardware => "hardware",
            Target::Emulator => "emulator",
        }
    }
}

#[derive(Debug)]
pub struct Config {
    pub project: ProjectConfig,
    pub build: BuildConfig,
    pub serial: SerialConfig,
    pub upload: UploadConfig,
    pub emulator: EmulatorConfig,
    pub defaults: DefaultsConfig,
}

#[derive(Debug)]
pub struct ProjectConfig {
    /// The board this application is written for.
    pub board: Board,
    /// What it builds. Spelled `type` in the settings file.
    pub kind: ProjectKind,
    /// Path relative to the project root, when it is not the directory's
    /// name with an ending.
    pub artifact: Option<String>,
}

#[derive(Debug)]
pub struct BuildConfig {
    /// Where the compilers come from: a container, or this computer.
    pub toolchain: Toolchain,
    pub program: String,
    pub args: Vec<String>,
    pub clean_args: Vec<String>,
    pub working_directory: String,
    /// Variables for the build, in the order of their names.
    pub environment: Vec<(String, String)>,
    pub docker: DockerConfig,
}

/// Docker settings for the toolchain that builds the target application.
#[derive(Debug)]
pub struct DockerConfig {
    pub image: String,
    /// Docker platform, for example `linux/amd64` on ARM hosts.
    pub platform: Option<String>,
}

#[derive(Debug)]
pub struct SerialConfig {
    pub port: Option<String>,
    pub baud: u32,
    pub read_timeout_ms: u64,
}

/// Settings for running under the rosco emulator instead of real hardware.
#[derive(Debug)]
pub struct EmulatorConfig {
    /// Where the emulator comes from: a container, or this computer.
    pub source: EmulatorSource,
    /// Emulator executable. Left unset, the environment is consulted and then
    /// `rosco-emulator` is looked up on `PATH`.
    pub program: Option<String>,
    /// Machine to run.
    pub machine: String,
    /// Directory holding the firmware ROM sets, when not the emulator default.
    pub rom_path: Option<String>,
    /// Image to attach as the SPI SD card.
    pub sd_card: Option<String>,
    /// Extra arguments passed straight to the emulator.
    pub args: Vec<String>,
    /// The image used when `source` is `docker`.
    pub docker: EmulatorDockerConfig,
}

/// Docker settings for the emulator, which is a different image from the one
/// holding the toolchain and carries the firmware ROM sets with it.
#[derive(Debug)]
pub struct EmulatorDockerConfig {
    pub image: String,
    pub platform: Option<String>,
}

#[derive(Debug)]
pub struct UploadConfig {
    pub max_retries: u32,
    pub packet_timeout_ms: u64,
    /// Where a rosco_6502 program is loaded and started. The m68k firmware
    /// takes the address from the binary itself and ignores this.
    pub load_address: u32,
}

/// What the commands do when the corresponding flag is not passed.
#[derive(Debug)]
pub struct DefaultsConfig {
    /// Where `upload`, `monitor`, and `run` send the program.
    pub target: Target,
}

impl BuildConfig {
    /// Whether the variables are in the order of their names, none of them
    /// twice.
    pub open spec fn wf(&self) -> bool {
        forall|i: int, j: int|
            0 <= i < j < self.environment@.len() ==> text::precedes(
                (#[trigger] self.environment@[i]).0@,
                (#[trigger] self.environment@[j]).0@,
            )
    }
}

impl Config {
    /// Whether what is kept in order in the settings is.
    pub open spec fn wf(&self) -> bool {
        self.build.wf()
    }
}

impl Default for ProjectConfig {
    fn default() -> (config: ProjectConfig)
        ensures
            config == (ProjectConfig {
                board: Board::RoscoM68k,
                kind: ProjectKind::Program,
                artifact: None,
            }),
    {
        ProjectConfig { board: Board::RoscoM68k, kind: ProjectKind::Program, artifact: None }
    }
}

impl Default for DockerConfig {
    fn default() -> (config: DockerConfig)
        ensures
            config.image@ == board_image(Board::RoscoM68k),
            config.platform is None,
    {
        DockerConfig { image: "solderdemon/rosco_m68k:latest".to_owned(), platform: None }
    }
}

impl Default for BuildConfig {
    fn default() -> (config: BuildConfig)
        ensures
            config.toolchain == Toolchain::Docker,
            config.program@ == "make"@,
            text::views(config.args@) == seq!["all"@],
            text::views(config.clean_args@) == seq!["clean"@],
            config.working_directory@ == "."@,
            config.wf(),
            config.environment@.len() == 0,
            config.docker.image@ == board_image(Board::RoscoM68k),
            config.docker.platform is None,
    {
        let mut args: Vec<String> = Vec::new();
        args.push("all".to_owned());
        assert(text::views(args@) == seq!["all"@]);
        let mut clean_args: Vec<String> = Vec::new();
        clean_args.push("clean".to_owned());
        assert(text::views(clean_args@) == seq!["clean"@]);
        BuildConfig {
            toolchain: Toolchain::Docker,
            program: "make".to_owned(),
            args,
            clean_args,
            working_directory: ".".to_owned(),
            environment: Vec::new(),
            docker: DockerConfig::default(),
        }
    }
}

impl Default for SerialConfig {
    fn default() -> (config: SerialConfig)
        ensures
            config == (SerialConfig { port: None, baud: 38_400, read_timeout_ms: 50 }),
    {
        SerialConfig { port: None, baud: 38_400, read_timeout_ms: 50 }
    }
}

impl Default for EmulatorDockerConfig {
    fn default() -> (config: EmulatorDockerConfig)
        ensures
            config.image@ == "solderdemon/rosco-emulator:latest"@,
            config.platform is None,
    {
        EmulatorDockerConfig {
            image: "solderdemon/rosco-emulator:latest".to_owned(),
            platform: None,
        }
    }
}

impl Default for EmulatorConfig {
    fn default() -> (config: EmulatorConfig)
        ensures
            config.source == EmulatorSource::Host,
            config.program is None,
            config.machine@ == board_machine(Board::RoscoM68k),
            config.rom_path is None,
            config.sd_card is None,
            config.args@.len() == 0,
            config.docker.image@ == "solderdemon/rosco-emulator:latest"@,
            config.docker.platform is None,
    {
        EmulatorConfig {
            source: EmulatorSource::Host,
            program: None,
            machine: "rosco_m68k_010".to_owned(),
            rom_path: None,
            sd_card: None,
            args: Vec::new(),
            docker: EmulatorDockerConfig::default(),
        }
    }
}

impl Default for UploadConfig {
    fn default() -> (config: UploadConfig)
        ensures
            config == (UploadConfig {
                max_retries: 6,
                packet_timeout_ms: 5_000,
                load_address: 0x0800,
            }),
    {
        UploadConfig { max_retries: 6, packet_timeout_ms: 5_000, load_address: 0x0800 }
    }
}

impl Default for DefaultsConfig {
    fn default() -> (config: DefaultsConfig)
        ensures
            config.target == Target::Hardware,
    {
        DefaultsConfig { target: Target::Hardware }
    }
}

impl Default for Config {
    fn default() -> (config: Config)
        ensures
            config.wf(),
            config.project == (ProjectConfig {
                board: Board::RoscoM68k,
                kind: ProjectKind::Program,
                artifact: None,
            }),
            config.build.toolchain == Toolchain::Docker,
            config.build.program@ == "make"@,
            text::views(config.build.args@) == seq!["all"@],
            text::views(config.build.clean_args@) == seq!["clean"@],
            config.build.working_directory@ == "."@,
            config.build.environment@.len() == 0,
            config.build.docker.image@ == board_image(Board::RoscoM68k),
            config.build.docker.platform is None,
            config.serial == (SerialConfig { port: None, baud: 38_400, read_timeout_ms: 50 }),
            config.upload == (UploadConfig {
                max_retries: 6,
                packet_timeout_ms: 5_000,
                load_address: 0x0800,
            }),
            config.emulator.source == EmulatorSource::Host,
            config.emulator.program is None,
            config.emulator.machine@ == board_machine(Board::RoscoM68k),
            config.emulator.rom_path is None,
            config.emulator.sd_card is None,
            config.emulator.args@.len() == 0,
            config.emulator.docker.image@ == "solderdemon/rosco-emulator:latest"@,
            config.emulator.docker.platform is None,
            config.defaults.target == Target::Hardware,
    {
        Config {
            project: ProjectConfig::default(),
            build: BuildConfig::default(),
            serial: SerialConfig::default(),
            upload: UploadConfig::default(),
            emulator: EmulatorConfig::default(),
            defaults: DefaultsConfig::default(),
        }
    }
}

/// What an optional text says.
pub open spec fn optional(words: Option<String>) -> Option<Seq<char>> {
    match words {
        Some(words) => Some(words@),
        None => None,
    }
}

/// A path taken from where a base leads, unless it starts at the root.
pub fn resolve_from(base: &str, path: &str) -> (resolved: String)
    ensures
        resolved@ == path::below(base@, path@),
{
    if is_absolute(path) {
        path.to_owned()
    } else {
        join_path(base, path)
    }
}

/// Where a project is built.
pub open spec fn build_place(config: Config, project_root: Seq<char>) -> Seq<char> {
    path::tidy(path::below(project_root, config.build.working_directory@))
}

/// The ending of what a project builds: a binary to load, or a ROM image to
/// burn.
pub open spec fn artifact_ending(kind: ProjectKind) -> Seq<char> {
    match kind {
        ProjectKind::Program => ".bin"@,
        ProjectKind::Firmware => ".rom"@,
    }
}

/// What a build makes: the artifact that is set, or one named after the
/// directory it is made in.
pub open spec fn artifact_place(config: Config, project_root: Seq<char>) -> Option<Seq<char>> {
    let directory = build_place(config, project_root);
    match (optional(config.project.artifact), path::last_name(directory)) {
        (Some(artifact), _) => Some(path::below(project_root, artifact)),
        (None, Some(name)) => Some(
            path::below(directory, name + artifact_ending(config.project.kind)),
        ),
        (None, None) => None,
    }
}

impl Config {
    /// The directory that the build runs in. The default working directory is
    /// `.`, and a path with that still in it reads badly in every message.
    pub fn build_directory(&self, project_root: &str) -> (directory: String)
        ensures
            directory@ == build_place(*self, project_root@),
    {
        tidied(join_path(project_root, self.build.working_directory.as_str()).as_str())
    }

    /// The file that the build makes, or a complaint where its name cannot be
    /// worked out.
    pub fn artifact_path(&self, project_root: &str) -> (file: Result<String, String>)
        ensures
            match artifact_place(*self, project_root@) {
                Some(place) => file matches Ok(file) && file@ == place,
                None => file matches Err(words) && words@
                    == "cannot infer artifact name; set project.artifact in rosco.toml"@,
            },
    {
        if let Some(artifact) = &self.project.artifact {
            return Ok(resolve_from(project_root, artifact.as_str()));
        }
        let directory = self.build_directory(project_root);
        match file_name(directory.as_str()) {
            Some(name) => {
                let ending = match self.project.kind {
                    ProjectKind::Program => ".bin",
                    ProjectKind::Firmware => ".rom",
                };
                let file = cat(name.as_str(), ending);
                Ok(join_path(directory.as_str(), file.as_str()))
            },
            None => {
                Err("cannot infer artifact name; set project.artifact in rosco.toml".to_owned())
            },
        }
    }
}

/// The computer that the commands run on.
#[derive(Clone, Copy, Debug, PartialEq, Eq, Structural)]
pub enum Host {
    Linux,
    MacOs,
    Windows,
}

/// What the process environment says about where files are kept.
#[derive(Debug)]
pub struct Environment {
    /// `ROSCO_CONFIG_HOME`
    pub config_home: Option<String>,
    /// `ROSCO_DATA_HOME`
    pub data_home: Option<String>,
    /// `APPDATA`
    pub app_data: Option<String>,
    /// `LOCALAPPDATA`
    pub local_app_data: Option<String>,
    /// `XDG_CONFIG_HOME`
    pub xdg_config_home: Option<String>,
    /// `XDG_DATA_HOME`
    pub xdg_data_home: Option<String>,
    /// `HOME`
    pub home: Option<String>,
}

/// A variable that is set, and not to nothing.
pub open spec fn given(variable: Option<String>) -> Option<Seq<char>> {
    match variable {
        Some(words) => if words@.len() > 0 {
            Some(words@)
        } else {
            None
        },
        None => None,
    }
}

fn non_empty(variable: &Option<String>) -> (words: Option<String>)
    ensures
        optional(words) == given(*variable),
{
    match variable {
        Some(words) => if chars_of(words.as_str()).len() > 0 {
            Some(words.clone())
        } else {
            None
        },
        None => None,
    }
}

/// The directory for a kind of file that belongs to this user: what the host
/// calls it, or a place under the home directory.
pub open spec fn user_directory(
    host: Host,
    windows: Option<Seq<char>>,
    xdg: Option<Seq<char>>,
    home: Option<Seq<char>>,
) -> Option<Seq<char>> {
    if host == Host::Windows {
        windows
    } else if xdg is Some {
        xdg
    } else {
        home
    }
}

/// The directory that holds the per-user settings.
pub open spec fn settings_directory(env: Environment, host: Host) -> Option<Seq<char>> {
    match given(env.config_home) {
        Some(directory) => Some(directory),
        None => {
            let home = match given(env.home) {
                Some(home) => Some(path::below(home, ".config"@)),
                None => None,
            };
            match user_directory(host, given(env.app_data), given(env.xdg_config_home), home) {
                Some(directory) => Some(path::below(directory, "rosco"@)),
                None => None,
            }
        },
    }
}

/// Where the per-user settings file lives.
pub open spec fn settings_place(env: Environment, host: Host) -> Option<Seq<char>> {
    match settings_directory(env, host) {
        Some(directory) => Some(path::below(directory, GLOBAL_CONFIG_FILE@)),
        None => None,
    }
}

/// What is said where there is no such directory.
pub open spec fn no_settings_directory(host: Host) -> Seq<char> {
    if host == Host::Windows {
        "could not locate the settings directory; APPDATA is unset. Set ROSCO_CONFIG_HOME to choose one."@
    } else {
        "could not locate the settings directory; HOME is unset. Set ROSCO_CONFIG_HOME to choose one."@
    }
}

/// Where things too large for a settings file go.
pub open spec fn data_place(env: Environment, host: Host) -> Option<Seq<char>> {
    match given(env.data_home) {
        Some(directory) => Some(directory),
        None => {
            let home = match given(env.home) {
                Some(home) => Some(path::below(path::below(home, ".local"@), "share"@)),
                None => None,
            };
            match user_directory(host, given(env.local_app_data), given(env.xdg_data_home), home) {
                Some(directory) => Some(path::below(directory, "rosco"@)),
                None => None,
            }
        },
    }
}

/// The directory that holds the per-user settings. `ROSCO_CONFIG_HOME` wins,
/// so a test or a CI job can keep its settings out of the developer's.
pub fn settings_home(env: &Environment, host: Host) -> (directory: Result<String, String>)
    ensures
        match settings_directory(*env, host) {
            Some(place) => directory matches Ok(directory) && directory@ == place,
            None => directory matches Err(words) && words@ == no_settings_directory(host),
        },
{
    if let Some(directory) = non_empty(&env.config_home) {
        return Ok(directory);
    }
    let directory = if let Host::Windows = host {
        match non_empty(&env.app_data) {
            Some(directory) => directory,
            None => {
                return Err(
                    "could not locate the settings directory; APPDATA is unset. Set ROSCO_CONFIG_HOME to choose one.".to_owned(),
                );
            },
        }
    } else if let Some(directory) = non_empty(&env.xdg_config_home) {
        directory
    } else {
        match non_empty(&env.home) {
            Some(home) => join_path(home.as_str(), ".config"),
            None => {
                return Err(
                    "could not locate the settings directory; HOME is unset. Set ROSCO_CONFIG_HOME to choose one.".to_owned(),
                );
            },
        }
    };
    Ok(join_path(directory.as_str(), "rosco"))
}

/// Where the per-user settings file lives.
pub fn global_config_path(env: &Environment, host: Host) -> (file: Result<String, String>)
    ensures
        match settings_place(*env, host) {
            Some(place) => file matches Ok(file) && file@ == place,
            None => file matches Err(words) && words@ == no_settings_directory(host),
        },
{
    match settings_home(env, host) {
        Ok(directory) => Ok(join_path(directory.as_str(), GLOBAL_CONFIG_FILE)),
        Err(words) => Err(words),
    }
}

/// What is said where there is no directory to install into.
pub open spec fn no_data_directory(host: Host) -> Seq<char> {
    if host == Host::Windows {
        "could not locate a directory to install into; LOCALAPPDATA is unset. Set ROSCO_DATA_HOME to choose one."@
    } else {
        "could not locate a directory to install into; HOME is unset. Set ROSCO_DATA_HOME to choose one."@
    }
}

/// Where things too large for a settings file go, which so far means an
/// emulator built here. `ROSCO_DATA_HOME` wins, as it does for the settings.
pub fn data_dir(env: &Environment, host: Host) -> (directory: Result<String, String>)
    ensures
        match data_place(*env, host) {
            Some(place) => directory matches Ok(directory) && directory@ == place,
            None => directory matches Err(words) && words@ == no_data_directory(host),
        },
{
    if let Some(directory) = non_empty(&env.data_home) {
        return Ok(directory);
    }
    let directory = if let Host::Windows = host {
        match non_empty(&env.local_app_data) {
            Some(directory) => directory,
            None => {
                return Err(
                    "could not locate a directory to install into; LOCALAPPDATA is unset. Set ROSCO_DATA_HOME to choose one.".to_owned(),
                );
            },
        }
    } else if let Some(directory) = non_empty(&env.xdg_data_home) {
        directory
    } else {
        match non_empty(&env.home) {
            Some(home) => join_path(join_path(home.as_str(), ".local").as_str(), "share"),
            None => {
                return Err(
                    "could not locate a directory to install into; HOME is unset. Set ROSCO_DATA_HOME to choose one.".to_owned(),
                );
            },
        }
    };
    Ok(join_path(directory.as_str(), "rosco"))
}

/// One settings file that was read.
pub struct Layer {
    pub path: String,
    pub table: Section,
}

/// Which file a setting came from.
#[derive(Clone, Copy, Debug, PartialEq, Eq, Structural)]
pub enum Origin {
    Default,
    Global,
    Project,
}

/// The word for where a setting came from.
pub open spec fn origin_word(origin: Origin) -> Seq<char> {
    match origin {
        Origin::Default => "default"@,
        Origin::Global => "global"@,
        Origin::Project => "project"@,
    }
}

impl Origin {
    pub fn label(self) -> (label: &'static str)
        ensures
            label@ == origin_word(self),
    {
        match self {
            Origin::Default => "default",
            Origin::Global => "global",
            Origin::Project => "project",
        }
    }
}

/// The settings files that apply, lowest precedence first.
pub struct Layers {
    pub global_path: Option<String>,
    pub project_path: Option<String>,
    pub global: Option<Layer>,
    pub project: Option<Layer>,
}

/// What a layer says: nothing, where its file does not exist.
pub open spec fn said(layer: Option<Layer>) -> Map<Seq<char>, Node> {
    match layer {
        Some(layer) => layer.table@,
        None => Map::empty(),
    }
}

/// One table laid over another.
pub open spec fn over(below: Map<Seq<char>, Node>, above: Map<Seq<char>, Node>) -> Map<
    Seq<char>,
    Node,
> {
    value::laid_over(Node::Section(below), Node::Section(above))->Section_0
}

/// Whether a value stands for a word: the word itself, or a section of one
/// entry of that name with nothing in it, as an enumeration may be written.
pub open spec fn spells(node: Node, word: Seq<char>) -> bool {
    ||| node == Node::Text(word)
    ||| node matches Node::Section(map) && map.dom() == Set::empty().insert(word) && (map[word]
        == Node::Section(Map::empty()) || map[word] == Node::Array(Seq::empty()))
}

/// The board a settings table names, or the default one when it does not.
pub open spec fn named_board(table: Map<Seq<char>, Node>) -> Board {
    match value::found(table, "project.board"@) {
        Some(node) => if spells(node, "rosco_6502"@) {
            Board::Rosco6502
        } else {
            Board::RoscoM68k
        },
        None => Board::RoscoM68k,
    }
}

/// What a board brings with it: the image that holds its toolchain and the
/// machine its programs run on.
pub open spec fn board_map(board: Board) -> Map<Seq<char>, Node> {
    let docker = Map::empty().insert("image"@, Node::Text(board_image(board)));
    let build = Map::empty().insert("docker"@, Node::Section(docker));
    let emulator = Map::empty().insert("machine"@, Node::Text(board_machine(board)));
    Map::empty().insert("build"@, Node::Section(build)).insert("emulator"@, Node::Section(emulator))
}

impl Layers {
    pub open spec fn wf(&self) -> bool {
        &&& self.global matches Some(layer) ==> layer.table.wf()
        &&& self.project matches Some(layer) ==> layer.table.wf()
    }

    /// What the two files say together, the project's on top.
    pub open spec fn files(&self) -> Map<Seq<char>, Node> {
        over(said(self.global), said(self.project))
    }

    /// Everything that is settled: the files, over what the board they name
    /// brings with it.
    pub open spec fn settled(&self) -> Map<Seq<char>, Node> {
        over(board_map(named_board(self.files())), self.files())
    }

    /// The layers of a project before any file has been read.
    pub fn unread(global_path: Option<String>, project_root: Option<String>) -> (layers: Layers)
        ensures
            layers.wf(),
            layers.global_path == global_path,
            optional(layers.project_path) == (match project_root {
                Some(root) => Some(path::below(root@, CONFIG_FILE@)),
                None => None,
            }),
            layers.global is None,
            layers.project is None,
    {
        let project_path = match project_root {
            Some(root) => Some(join_path(root.as_str(), CONFIG_FILE)),
            None => None,
        };
        Layers { global_path, project_path, global: None, project: None }
    }

    /// The files folded together, with the project's values on top and what
    /// the board brings underneath, leaving anything written in either file
    /// in charge.
    pub fn config(&self) -> (table: Section)
        requires
            self.wf(),
        ensures
            table.wf(),
            table@ == self.settled(),
    {
        let mut files = match &self.global {
            Some(layer) => layer.table.copied(),
            None => Section::new(),
        };
        proof {
            lemma_over_nothing(said(self.global));
        }
        if let Some(layer) = &self.project {
            files = merge_tables(files, layer.table.copied());
        }
        assert(files@ == self.files());
        let board = board_in(&files);
        merge_tables(board_defaults(board), files)
    }

    /// Which file supplies `key`, or `Default` when neither does.
    pub fn origin(&self, key: &str) -> (origin: Origin)
        requires
            self.wf(),
        ensures
            origin == (if value::found(said(self.project), key@) is Some {
                Origin::Project
            } else if value::found(said(self.global), key@) is Some {
                Origin::Global
            } else {
                Origin::Default
            }),
    {
        proof {
            text::lemma_pieces(key@, '.');
        }
        if supplies(&self.project, key) {
            Origin::Project
        } else if supplies(&self.global, key) {
            Origin::Global
        } else {
            Origin::Default
        }
    }
}

fn supplies(layer: &Option<Layer>, key: &str) -> (does: bool)
    requires
        layer matches Some(layer) ==> layer.table.wf(),
    ensures
        does == (value::found(said(*layer), key@) is Some),
{
    proof {
        text::lemma_pieces(key@, '.');
    }
    match layer {
        Some(layer) => lookup(&layer.table, key).is_some(),
        None => false,
    }
}

proof fn lemma_over_nothing(map: Map<Seq<char>, Node>)
    ensures
        over(map, Map::empty()) == map,
{
    let left = over(map, Map::empty());
    assert forall|k: Seq<char>| #[trigger] map.contains_key(k) implies left.contains_key(k) by {}
    value::lemma_one_map(left, map);
}

/// Reads a settings file that `path` names.
pub fn read_layer(path: &str, source: &str) -> (layer: Result<Layer, String>)
    ensures
        match document::toml_read(source@) {
            Ok(map) => layer matches Ok(layer) && layer.path@ == path@ && layer.table.wf()
                && layer.table@ == map,
            Err(words) => layer matches Err(message) && message@ == "invalid "@ + path@ + ": "@
                + words,
        },
{
    match read_table(source) {
        Ok(table) => Ok(Layer { path: path.to_owned(), table }),
        Err(words) => {
            let mut message = cat("invalid ", path);
            message.append(": ");
            message.append(words.as_str());
            Err(message)
        },
    }
}

fn board_defaults(board: Board) -> (table: Section)
    ensures
        table.wf(),
        table@ == board_map(board),
{
    let mut docker = Section::new();
    docker.insert("image".to_owned(), Setting::Text(board.docker_image().to_owned()));
    let mut build = Section::new();
    build.insert("docker".to_owned(), Setting::Section(docker));
    let mut emulator = Section::new();
    emulator.insert("machine".to_owned(), Setting::Text(board.machine().to_owned()));
    let mut table = Section::new();
    table.insert("build".to_owned(), Setting::Section(build));
    table.insert("emulator".to_owned(), Setting::Section(emulator));
    table
}

fn board_in(table: &Section) -> (board: Board)
    requires
        table.wf(),
    ensures
        board == named_board(table@),
{
    match lookup(table, "project.board") {
        Some(setting) => if stands_for(setting, "rosco_6502") {
            Board::Rosco6502
        } else {
            Board::RoscoM68k
        },
        None => Board::RoscoM68k,
    }
}

fn stands_for(setting: &Setting, word: &str) -> (does: bool)
    requires
        setting.wf(),
    ensures
        does == spells(setting@, word@),
{
    match setting {
        Setting::Text(words) => same(words.as_str(), word),
        Setting::Section(section) => {
            let ghost entries = section.entries@;
            let ghost map = section@;
            assert(section.wf());
            if section.entries.len() != 1 {
                proof {
                    if entries.len() > 1 {
                        value::lemma_entry(entries, entries.len(), 0);
                        value::lemma_entry(entries, entries.len(), 1);
                        text::lemma_precedes_irreflexive(entries[0].0@);
                        assert(map.dom().contains(entries[0].0@));
                        assert(map.dom().contains(entries[1].0@));
                    } else {
                        assert(!map.dom().contains(word@));
                        assert(Set::empty().insert(word@).contains(word@));
                    }
                }
                return false;
            }
            proof {
                value::lemma_entry(entries, 1, 0);
                reveal_with_fuel(value::map_of, 2);
                assert(map.dom() == Set::empty().insert(entries[0].0@));
                assert(map.dom().contains(entries[0].0@));
            }
            if !same(section.entries[0].0.as_str(), word) {
                return false;
            }
            assert(map[word@] == value::node_of(entries[0].1));
            match &section.entries[0].1 {
                Setting::Section(inner) => {
                    assert(entries[0].1.wf());
                    assert(inner.wf());
                    proof {
                        if inner.entries@.len() > 0 {
                            value::lemma_entry(inner.entries@, inner.entries@.len(), 0);
                        }
                    }
                    inner.entries.len() == 0
                },
                Setting::Array(items) => {
                    proof {
                        value::lemma_items(items@, items@.len());
                        assert(items@.len() == 0 ==> value::nodes_of(items@, items@.len())
                            == Seq::<Node>::empty());
                    }
                    items.len() == 0
                },
                _ => false,
            }
        },
        _ => false,
    }
}

/// A table with a text under a name, where there is one.
pub open spec fn with_optional(
    map: Map<Seq<char>, Node>,
    key: Seq<char>,
    words: Option<String>,
) -> Map<Seq<char>, Node> {
    match words {
        Some(words) => map.insert(key, Node::Text(words@)),
        None => map,
    }
}

/// A list of texts.
pub open spec fn texts(list: Seq<String>) -> Node {
    Node::Array(Seq::new(list.len(), |i: int| Node::Text(list[i]@)))
}

/// The first variables of a list, by name.
pub open spec fn variables(list: Seq<(String, String)>, count: nat) -> Map<Seq<char>, Node>
    decreases count,
{
    if count == 0 || count > list.len() {
        Map::empty()
    } else {
        variables(list, (count - 1) as nat).insert(
            list[count - 1].0@,
            Node::Text(list[count - 1].1@),
        )
    }
}

pub open spec fn project_map(config: ProjectConfig) -> Map<Seq<char>, Node> {
    with_optional(
        Map::empty().insert("board"@, Node::Text(board_word(config.board))).insert(
            "type"@,
            Node::Text(kind_word(config.kind)),
        ),
        "artifact"@,
        config.artifact,
    )
}

pub open spec fn image_map(image: Seq<char>, platform: Option<String>) -> Map<Seq<char>, Node> {
    with_optional(Map::empty().insert("image"@, Node::Text(image)), "platform"@, platform)
}

pub open spec fn build_map(config: BuildConfig) -> Map<Seq<char>, Node> {
    Map::empty().insert("toolchain"@, Node::Text(toolchain_word(config.toolchain))).insert(
        "program"@,
        Node::Text(config.program@),
    ).insert("args"@, texts(config.args@)).insert("clean_args"@, texts(config.clean_args@)).insert(
        "working_directory"@,
        Node::Text(config.working_directory@),
    ).insert(
        "environment"@,
        Node::Section(variables(config.environment@, config.environment@.len())),
    ).insert(
        "docker"@,
        Node::Section(image_map(config.docker.image@, config.docker.platform)),
    )
}

pub open spec fn serial_map(config: SerialConfig) -> Map<Seq<char>, Node> {
    with_optional(
        Map::empty().insert("baud"@, Node::Integer(config.baud as int)).insert(
            "read_timeout_ms"@,
            Node::Integer(config.read_timeout_ms as int),
        ),
        "port"@,
        config.port,
    )
}

pub open spec fn upload_map(config: UploadConfig) -> Map<Seq<char>, Node> {
    Map::empty().insert("max_retries"@, Node::Integer(config.max_retries as int)).insert(
        "packet_timeout_ms"@,
        Node::Integer(config.packet_timeout_ms as int),
    ).insert("load_address"@, Node::Integer(config.load_address as int))
}

pub open spec fn emulator_map(config: EmulatorConfig) -> Map<Seq<char>, Node> {
    let settled = Map::empty().insert("source"@, Node::Text(source_word(config.source))).insert(
        "machine"@,
        Node::Text(config.machine@),
    ).insert("args"@, texts(config.args@)).insert(
        "docker"@,
        Node::Section(image_map(config.docker.image@, config.docker.platform)),
    );
    with_optional(
        with_optional(
            with_optional(settled, "program"@, config.program),
            "rom_path"@,
            config.rom_path,
        ),
        "sd_card"@,
        config.sd_card,
    )
}

pub open spec fn defaults_map(config: DefaultsConfig) -> Map<Seq<char>, Node> {
    Map::empty().insert("target"@, Node::Text(target_word(config.target)))
}

/// The whole configuration as a table.
pub open spec fn config_map(config: Config) -> Map<Seq<char>, Node> {
    Map::empty().insert("project"@, Node::Section(project_map(config.project))).insert(
        "build"@,
        Node::Section(build_map(config.build)),
    ).insert("serial"@, Node::Section(serial_map(config.serial))).insert(
        "upload"@,
        Node::Section(upload_map(config.upload)),
    ).insert("emulator"@, Node::Section(emulator_map(config.emulator))).insert(
        "defaults"@,
        Node::Section(defaults_map(config.defaults)),
    )
}

/// Whether the waits of a configuration are numbers that a settings file can
/// hold.
pub open spec fn writable(config: Config) -> bool {
    config.serial.read_timeout_ms <= i64::MAX && config.upload.packet_timeout_ms <= i64::MAX
}

fn put_optional(section: &mut Section, key: &str, words: &Option<String>)
    requires
        old(section).wf(),
    ensures
        final(section).wf(),
        final(section)@ == with_optional(old(section)@, key@, *words),
{
    if let Some(words) = words {
        section.insert(key.to_owned(), Setting::Text(words.clone()));
    }
}

fn put_text(section: &mut Section, key: &str, words: &str)
    requires
        old(section).wf(),
    ensures
        final(section).wf(),
        final(section)@ == old(section)@.insert(key@, Node::Text(words@)),
{
    section.insert(key.to_owned(), Setting::Text(words.to_owned()));
}

fn put_number(section: &mut Section, key: &str, number: u64)
    requires
        old(section).wf(),
        number <= i64::MAX,
    ensures
        final(section).wf(),
        final(section)@ == old(section)@.insert(key@, Node::Integer(number as int)),
{
    section.insert(key.to_owned(), Setting::Integer(number as i64));
}

fn put_section(section: &mut Section, key: &str, inner: Section)
    requires
        old(section).wf(),
        inner.wf(),
    ensures
        final(section).wf(),
        final(section)@ == old(section)@.insert(key@, Node::Section(inner@)),
{
    section.insert(key.to_owned(), Setting::Section(inner));
}

fn put_texts(section: &mut Section, key: &str, list: &Vec<String>)
    requires
        old(section).wf(),
    ensures
        final(section).wf(),
        final(section)@ == old(section)@.insert(key@, texts(list@)),
{
    let mut items: Vec<Setting> = Vec::new();
    for i in 0..list.len()
        invariant
            items@.len() == i,
            forall|j: int|
                0 <= j < i ==> (#[trigger] items@[j]).wf() && value::node_of(items@[j])
                    == Node::Text(list@[j]@),
    {
        items.push(Setting::Text(list[i].clone()));
    }
    proof {
        value::lemma_items(items@, items@.len());
        assert(Node::Array(value::nodes_of(items@, items@.len())) == texts(list@)) by {
            assert(value::nodes_of(items@, items@.len()) == texts(list@)->Array_0);
        }
    }
    section.insert(key.to_owned(), Setting::Array(items));
}

fn image_section(image: &String, platform: &Option<String>) -> (section: Section)
    ensures
        section.wf(),
        section@ == image_map(image@, *platform),
{
    let mut section = Section::new();
    put_text(&mut section, "image", image.as_str());
    put_optional(&mut section, "platform", platform);
    section
}

/// Every variable of a build is in the table of them, under its own name.
pub proof fn every_variable_is_passed_on(build: BuildConfig, count: nat, at: int)
    requires
        build.wf(),
        0 <= at < count <= build.environment@.len(),
    ensures
        variables(build.environment@, count).contains_key(build.environment@[at].0@),
        variables(build.environment@, count)[build.environment@[at].0@] == Node::Text(
            build.environment@[at].1@,
        ),
    decreases count,
{
    if at < count - 1 {
        every_variable_is_passed_on(build, (count - 1) as nat, at);
        text::lemma_precedes_irreflexive(build.environment@[at].0@);
    }
}

fn environment_section(build: &BuildConfig) -> (section: Section)
    requires
        build.wf(),
    ensures
        section.wf(),
        section@ == variables(build.environment@, build.environment@.len()),
{
    let list = &build.environment;
    let mut section = Section::new();
    for i in 0..list.len()
        invariant
            section.wf(),
            section@ == variables(list@, i as nat),
    {
        put_text(&mut section, list[i].0.as_str(), list[i].1.as_str());
    }
    section
}

impl Config {
    /// The whole configuration as a table, for listing and reading single
    /// keys.
    pub fn to_value(&self) -> (table: Result<Section, String>)
        requires
            self.wf(),
        ensures
            match table {
                Ok(table) => writable(*self) && table.wf() && table@ == config_map(*self),
                Err(words) => !writable(*self) && words@
                    == "could not render the settings as TOML: out-of-range value for u64 type"@,
            },
    {
        if self.serial.read_timeout_ms > 0x7fff_ffff_ffff_ffff || self.upload.packet_timeout_ms
            > 0x7fff_ffff_ffff_ffff {
            return Err(
                "could not render the settings as TOML: out-of-range value for u64 type".to_owned(),
            );
        }
        let mut project = Section::new();
        put_text(&mut project, "board", self.project.board.label());
        put_text(&mut project, "type", self.project.kind.label());
        put_optional(&mut project, "artifact", &self.project.artifact);
        let mut build = Section::new();
        put_text(&mut build, "toolchain", self.build.toolchain.label());
        put_text(&mut build, "program", self.build.program.as_str());
        put_texts(&mut build, "args", &self.build.args);
        put_texts(&mut build, "clean_args", &self.build.clean_args);
        put_text(&mut build, "working_directory", self.build.working_directory.as_str());
        put_section(&mut build, "environment", environment_section(&self.build));
        put_section(
            &mut build,
            "docker",
            image_section(&self.build.docker.image, &self.build.docker.platform),
        );
        let mut serial = Section::new();
        put_number(&mut serial, "baud", self.serial.baud as u64);
        put_number(&mut serial, "read_timeout_ms", self.serial.read_timeout_ms);
        put_optional(&mut serial, "port", &self.serial.port);
        let mut upload = Section::new();
        put_number(&mut upload, "max_retries", self.upload.max_retries as u64);
        put_number(&mut upload, "packet_timeout_ms", self.upload.packet_timeout_ms);
        put_number(&mut upload, "load_address", self.upload.load_address as u64);
        let mut emulator = Section::new();
        put_text(&mut emulator, "source", self.emulator.source.label());
        put_text(&mut emulator, "machine", self.emulator.machine.as_str());
        put_texts(&mut emulator, "args", &self.emulator.args);
        put_section(
            &mut emulator,
            "docker",
            image_section(&self.emulator.docker.image, &self.emulator.docker.platform),
        );
        put_optional(&mut emulator, "program", &self.emulator.program);
        put_optional(&mut emulator, "rom_path", &self.emulator.rom_path);
        put_optional(&mut emulator, "sd_card", &self.emulator.sd_card);
        let mut defaults = Section::new();
        put_text(&mut defaults, "target", self.defaults.target.label());
        let mut table = Section::new();
        put_section(&mut table, "project", project);
        put_section(&mut table, "build", build);
        put_section(&mut table, "serial", serial);
        put_section(&mut table, "upload", upload);
        put_section(&mut table, "emulator", emulator);
        put_section(&mut table, "defaults", defaults);
        Ok(table)
    }
}

/// The names of the settings that hold nothing until they are given a value.
pub open spec fn optional_names() -> Seq<Seq<char>> {
    seq![
        "build.docker.platform"@,
        "emulator.docker.platform"@,
        "emulator.program"@,
        "emulator.rom_path"@,
        "emulator.sd_card"@,
        "project.artifact"@,
        "serial.port"@,
    ]
}

/// Settings that hold nothing until you give them a value, so that writing
/// out the configuration does not reveal them.
pub fn optional_settings() -> (names: Vec<String>)
    ensures
        text::views(names@) == optional_names(),
{
    let mut names: Vec<String> = Vec::new();
    names.push("build.docker.platform".to_owned());
    names.push("emulator.docker.platform".to_owned());
    names.push("emulator.program".to_owned());
    names.push("emulator.rom_path".to_owned());
    names.push("emulator.sd_card".to_owned());
    names.push("project.artifact".to_owned());
    names.push("serial.port".to_owned());
    assert(text::views(names@) == optional_names());
    names
}

/// Whether a table has something other than a section somewhere before the
/// end of a path, so that nothing can stand at that end.
pub open spec fn blocks(node: Node, path: Seq<Seq<char>>) -> bool
    decreases path.len(),
{
    if path.len() == 0 {
        false
    } else {
        match node {
            Node::Section(map) => map.contains_key(path[0]) && blocks(
                map[path[0]],
                path.drop_first(),
            ),
            _ => true,
        }
    }
}

proof fn lemma_above_wins(below: Node, above: Node, path: Seq<Seq<char>>)
    requires
        value::at_path(above, path) matches Some(node) && node !is Section,
    ensures
        value::at_path(value::laid_over(below, above), path) == value::at_path(above, path),
    decreases path.len(),
{
    if path.len() > 0 {
        if let (Node::Section(under), Node::Section(map)) = (below, above) {
            if under.contains_key(path[0]) {
                lemma_above_wins(under[path[0]], map[path[0]], path.drop_first());
            }
        }
    }
}

proof fn lemma_below_shows(below: Node, above: Node, path: Seq<Seq<char>>)
    requires
        value::at_path(above, path) is None,
        !blocks(above, path),
    ensures
        value::at_path(value::laid_over(below, above), path) == value::at_path(below, path),
        blocks(value::laid_over(below, above), path) ==> blocks(below, path),
    decreases path.len(),
{
    if path.len() > 0 {
        if let (Node::Section(under), Node::Section(map)) = (below, above) {
            if map.contains_key(path[0]) && under.contains_key(path[0]) {
                lemma_below_shows(under[path[0]], map[path[0]], path.drop_first());
            }
        }
    }
}

/// Whether a table leaves a setting to whatever lies below it.
pub open spec fn leaves_open(table: Map<Seq<char>, Node>, key: Seq<char>) -> bool {
    value::found(table, key) is None && !blocks(Node::Section(table), text::pieces(key, '.'))
}

/// A value in the project's file is the one in force.
pub proof fn the_project_decides(layers: Layers, key: Seq<char>)
    requires
        value::found(said(layers.project), key) matches Some(node) && node !is Section,
    ensures
        value::found(layers.settled(), key) == value::found(said(layers.project), key),
{
    let path = text::pieces(key, '.');
    lemma_above_wins(Node::Section(said(layers.global)), Node::Section(said(layers.project)), path);
    lemma_above_wins(
        Node::Section(board_map(named_board(layers.files()))),
        Node::Section(layers.files()),
        path,
    );
}

/// A value in the user's file is the one in force wherever the project's file
/// leaves the setting open.
pub proof fn the_user_decides_next(layers: Layers, key: Seq<char>)
    requires
        leaves_open(said(layers.project), key),
        value::found(said(layers.global), key) matches Some(node) && node !is Section,
    ensures
        value::found(layers.settled(), key) == value::found(said(layers.global), key),
{
    let path = text::pieces(key, '.');
    lemma_below_shows(Node::Section(said(layers.global)), Node::Section(said(layers.project)), path);
    lemma_above_wins(
        Node::Section(board_map(named_board(layers.files()))),
        Node::Section(layers.files()),
        path,
    );
}

/// What a board brings is only a default: it is in force where both files
/// leave the setting open, and nowhere else.
pub proof fn the_board_decides_last(layers: Layers, key: Seq<char>)
    requires
        leaves_open(said(layers.project), key),
        leaves_open(said(layers.global), key),
    ensures
        value::found(layers.settled(), key) == value::found(
            board_map(named_board(layers.files())),
            key,
        ),
{
    let path = text::pieces(key, '.');
    lemma_below_shows(Node::Section(said(layers.global)), Node::Section(said(layers.project)), path);
    lemma_below_shows(
        Node::Section(board_map(named_board(layers.files()))),
        Node::Section(layers.files()),
        path,
    );
}

/// What a table holds under a name in a section.
pub open spec fn setting_in(
    table: Map<Seq<char>, Node>,
    section: Seq<char>,
    name: Seq<char>,
) -> Option<Node> {
    value::found(table, section + "."@ + name)
}

/// What a table holds under a name in a section of a section.
pub open spec fn setting_within(
    table: Map<Seq<char>, Node>,
    section: Seq<char>,
    inner: Seq<char>,
    name: Seq<char>,
) -> Option<Node> {
    value::found(table, section + "."@ + inner + "."@ + name)
}

/// What an optional text is written as.
pub open spec fn as_text(words: Option<String>) -> Option<Node> {
    match words {
        Some(words) => Some(Node::Text(words@)),
        None => None,
    }
}

proof fn lemma_in_section(
    table: Map<Seq<char>, Node>,
    section: Seq<char>,
    name: Seq<char>,
    held: Map<Seq<char>, Node>,
)
    requires
        !section.contains('.'),
        !name.contains('.'),
        table.contains_key(section),
        table[section] == Node::Section(held),
    ensures
        setting_in(table, section, name) == if held.contains_key(name) {
            Some(held[name])
        } else {
            None
        },
{
    let path = seq![section, name];
    reveal_strlit(".");
    assert("."@ == seq!['.']);
    reveal_with_fuel(text::joined, 3);
    assert(path.drop_last() == seq![section]);
    assert(text::joined(path, "."@) == section + "."@ + name);
    text::splitting_undoes_joining(path, '.');
    reveal_with_fuel(value::at_path, 3);
    assert(path.drop_first() == seq![name]);
    assert(seq![name].drop_first() == Seq::<Seq<char>>::empty());
}

proof fn lemma_within_section(
    table: Map<Seq<char>, Node>,
    section: Seq<char>,
    inner: Seq<char>,
    name: Seq<char>,
    held: Map<Seq<char>, Node>,
    deep: Map<Seq<char>, Node>,
)
    requires
        !section.contains('.'),
        !inner.contains('.'),
        !name.contains('.'),
        table.contains_key(section),
        table[section] == Node::Section(held),
        held.contains_key(inner),
        held[inner] == Node::Section(deep),
    ensures
        setting_within(table, section, inner, name) == if deep.contains_key(name) {
            Some(deep[name])
        } else {
            None
        },
{
    let path = seq![section, inner, name];
    reveal_strlit(".");
    assert("."@ == seq!['.']);
    reveal_with_fuel(text::joined, 4);
    assert(path.drop_last() == seq![section, inner]);
    assert(seq![section, inner].drop_last() == seq![section]);
    assert(text::joined(path, "."@) == section + "."@ + inner + "."@ + name);
    text::splitting_undoes_joining(path, '.');
    reveal_with_fuel(value::at_path, 4);
    assert(path.drop_first() == seq![inner, name]);
    assert(seq![inner, name].drop_first() == seq![name]);
    assert(seq![name].drop_first() == Seq::<Seq<char>>::empty());
}

proof fn lemma_sections_apart(config: Config)
    ensures
        config_map(config).contains_key("project"@),
        config_map(config)["project"@] == Node::Section(project_map(config.project)),
        !"project"@.contains('.'),
        config_map(config).contains_key("build"@),
        config_map(config)["build"@] == Node::Section(build_map(config.build)),
        !"build"@.contains('.'),
        config_map(config).contains_key("serial"@),
        config_map(config)["serial"@] == Node::Section(serial_map(config.serial)),
        !"serial"@.contains('.'),
        config_map(config).contains_key("upload"@),
        config_map(config)["upload"@] == Node::Section(upload_map(config.upload)),
        !"upload"@.contains('.'),
        config_map(config).contains_key("emulator"@),
        config_map(config)["emulator"@] == Node::Section(emulator_map(config.emulator)),
        !"emulator"@.contains('.'),
        config_map(config).contains_key("defaults"@),
        config_map(config)["defaults"@] == Node::Section(defaults_map(config.defaults)),
        !"defaults"@.contains('.'),
{
    reveal_strlit("project");
    reveal_strlit("build");
    reveal_strlit("serial");
    reveal_strlit("upload");
    reveal_strlit("emulator");
    reveal_strlit("defaults");
    assert("project"@[0] == 'p' && "build"@[0] == 'b' && "serial"@[0] == 's' && "upload"@[0] == 'u'
        && "emulator"@[0] == 'e' && "defaults"@[0] == 'd');
}

proof fn lemma_project_settings(config: Config)
    ensures
        setting_in(config_map(config), "project"@, "board"@) == Some(Node::Text(board_word(config.project.board))),
        setting_in(config_map(config), "project"@, "type"@) == Some(Node::Text(kind_word(config.project.kind))),
        setting_in(config_map(config), "project"@, "artifact"@) == as_text(config.project.artifact),
{
    lemma_sections_apart(config);
    let held = project_map(config.project);
    reveal_strlit("board");
    reveal_strlit("type");
    reveal_strlit("artifact");
    assert("board"@.len() != "type"@.len());
    assert("board"@.len() != "artifact"@.len());
    assert("type"@.len() != "artifact"@.len());
    lemma_in_section(config_map(config), "project"@, "board"@, held);
    lemma_in_section(config_map(config), "project"@, "type"@, held);
    lemma_in_section(config_map(config), "project"@, "artifact"@, held);
}

proof fn lemma_build_settings(config: Config)
    ensures
        setting_in(config_map(config), "build"@, "toolchain"@) == Some(Node::Text(toolchain_word(config.build.toolchain))),
        setting_in(config_map(config), "build"@, "program"@) == Some(Node::Text(config.build.program@)),
        setting_in(config_map(config), "build"@, "args"@) == Some(texts(config.build.args@)),
        setting_in(config_map(config), "build"@, "clean_args"@) == Some(texts(config.build.clean_args@)),
        setting_in(config_map(config), "build"@, "working_directory"@) == Some(Node::Text(config.build.working_directory@)),
        build_map(config.build).contains_key("docker"@),
        build_map(config.build)["docker"@] == Node::Section(
            image_map(config.build.docker.image@, config.build.docker.platform),
        ),
        build_map(config.build).contains_key("environment"@),
        build_map(config.build)["environment"@] == Node::Section(
            variables(config.build.environment@, config.build.environment@.len()),
        ),
{
    lemma_sections_apart(config);
    let held = build_map(config.build);
    reveal_strlit("toolchain");
    reveal_strlit("program");
    reveal_strlit("args");
    reveal_strlit("clean_args");
    reveal_strlit("working_directory");
    reveal_strlit("environment");
    reveal_strlit("docker");
    assert("toolchain"@.len() != "program"@.len());
    assert("toolchain"@.len() != "args"@.len());
    assert("toolchain"@.len() != "clean_args"@.len());
    assert("toolchain"@.len() != "working_directory"@.len());
    assert("toolchain"@.len() != "environment"@.len());
    assert("toolchain"@.len() != "docker"@.len());
    assert("program"@.len() != "args"@.len());
    assert("program"@.len() != "clean_args"@.len());
    assert("program"@.len() != "working_directory"@.len());
    assert("program"@.len() != "environment"@.len());
    assert("program"@.len() != "docker"@.len());
    assert("args"@.len() != "clean_args"@.len());
    assert("args"@.len() != "working_directory"@.len());
    assert("args"@.len() != "environment"@.len());
    assert("args"@.len() != "docker"@.len());
    assert("clean_args"@.len() != "working_directory"@.len());
    assert("clean_args"@.len() != "environment"@.len());
    assert("clean_args"@.len() != "docker"@.len());
    assert("working_directory"@.len() != "environment"@.len());
    assert("working_directory"@.len() != "docker"@.len());
    assert("environment"@.len() != "docker"@.len());
    lemma_in_section(config_map(config), "build"@, "toolchain"@, held);
    lemma_in_section(config_map(config), "build"@, "program"@, held);
    lemma_in_section(config_map(config), "build"@, "args"@, held);
    lemma_in_section(config_map(config), "build"@, "clean_args"@, held);
    lemma_in_section(config_map(config), "build"@, "working_directory"@, held);
}

proof fn lemma_serial_settings(config: Config)
    ensures
        setting_in(config_map(config), "serial"@, "baud"@) == Some(Node::Integer(config.serial.baud as int)),
        setting_in(config_map(config), "serial"@, "read_timeout_ms"@) == Some(
            Node::Integer(config.serial.read_timeout_ms as int),
        ),
        setting_in(config_map(config), "serial"@, "port"@) == as_text(config.serial.port),
{
    lemma_sections_apart(config);
    let held = serial_map(config.serial);
    reveal_strlit("baud");
    reveal_strlit("read_timeout_ms");
    reveal_strlit("port");
    assert("baud"@.len() != "read_timeout_ms"@.len());
    assert("baud"@[0] != "port"@[0]);
    assert("read_timeout_ms"@.len() != "port"@.len());
    lemma_in_section(config_map(config), "serial"@, "baud"@, held);
    lemma_in_section(config_map(config), "serial"@, "read_timeout_ms"@, held);
    lemma_in_section(config_map(config), "serial"@, "port"@, held);
}

proof fn lemma_upload_settings(config: Config)
    ensures
        setting_in(config_map(config), "upload"@, "max_retries"@) == Some(
            Node::Integer(config.upload.max_retries as int),
        ),
        setting_in(config_map(config), "upload"@, "packet_timeout_ms"@) == Some(
            Node::Integer(config.upload.packet_timeout_ms as int),
        ),
        setting_in(config_map(config), "upload"@, "load_address"@) == Some(
            Node::Integer(config.upload.load_address as int),
        ),
{
    lemma_sections_apart(config);
    let held = upload_map(config.upload);
    reveal_strlit("max_retries");
    reveal_strlit("packet_timeout_ms");
    reveal_strlit("load_address");
    assert("max_retries"@.len() != "packet_timeout_ms"@.len());
    assert("max_retries"@.len() != "load_address"@.len());
    assert("packet_timeout_ms"@.len() != "load_address"@.len());
    lemma_in_section(config_map(config), "upload"@, "max_retries"@, held);
    lemma_in_section(config_map(config), "upload"@, "packet_timeout_ms"@, held);
    lemma_in_section(config_map(config), "upload"@, "load_address"@, held);
}

proof fn lemma_emulator_settings(config: Config)
    ensures
        setting_in(config_map(config), "emulator"@, "source"@) == Some(Node::Text(source_word(config.emulator.source))),
        setting_in(config_map(config), "emulator"@, "machine"@) == Some(Node::Text(config.emulator.machine@)),
        setting_in(config_map(config), "emulator"@, "args"@) == Some(texts(config.emulator.args@)),
        setting_in(config_map(config), "emulator"@, "program"@) == as_text(config.emulator.program),
        setting_in(config_map(config), "emulator"@, "rom_path"@) == as_text(config.emulator.rom_path),
        setting_in(config_map(config), "emulator"@, "sd_card"@) == as_text(config.emulator.sd_card),
        emulator_map(config.emulator).contains_key("docker"@),
        emulator_map(config.emulator)["docker"@] == Node::Section(
            image_map(config.emulator.docker.image@, config.emulator.docker.platform),
        ),
{
    lemma_sections_apart(config);
    let held = emulator_map(config.emulator);
    reveal_strlit("source");
    reveal_strlit("machine");
    reveal_strlit("args");
    reveal_strlit("docker");
    reveal_strlit("program");
    reveal_strlit("rom_path");
    reveal_strlit("sd_card");
    assert("source"@.len() != "machine"@.len());
    assert("source"@.len() != "args"@.len());
    assert("source"@[0] != "docker"@[0]);
    assert("source"@.len() != "program"@.len());
    assert("source"@.len() != "rom_path"@.len());
    assert("source"@.len() != "sd_card"@.len());
    assert("machine"@.len() != "args"@.len());
    assert("machine"@.len() != "docker"@.len());
    assert("machine"@[0] != "program"@[0]);
    assert("machine"@.len() != "rom_path"@.len());
    assert("machine"@[0] != "sd_card"@[0]);
    assert("args"@.len() != "docker"@.len());
    assert("args"@.len() != "program"@.len());
    assert("args"@.len() != "rom_path"@.len());
    assert("args"@.len() != "sd_card"@.len());
    assert("docker"@.len() != "program"@.len());
    assert("docker"@.len() != "rom_path"@.len());
    assert("docker"@.len() != "sd_card"@.len());
    assert("program"@.len() != "rom_path"@.len());
    assert("program"@[0] != "sd_card"@[0]);
    assert("rom_path"@.len() != "sd_card"@.len());
    lemma_in_section(config_map(config), "emulator"@, "source"@, held);
    lemma_in_section(config_map(config), "emulator"@, "machine"@, held);
    lemma_in_section(config_map(config), "emulator"@, "args"@, held);
    lemma_in_section(config_map(config), "emulator"@, "program"@, held);
    lemma_in_section(config_map(config), "emulator"@, "rom_path"@, held);
    lemma_in_section(config_map(config), "emulator"@, "sd_card"@, held);
}

proof fn lemma_defaults_settings(config: Config)
    ensures
        setting_in(config_map(config), "defaults"@, "target"@) == Some(Node::Text(target_word(config.defaults.target))),
{
    lemma_sections_apart(config);
    let held = defaults_map(config.defaults);
    reveal_strlit("target");
    lemma_in_section(config_map(config), "defaults"@, "target"@, held);
}

proof fn lemma_image_settings(config: Config)
    ensures
        setting_within(config_map(config), "build"@, "docker"@, "image"@) == Some(
            Node::Text(config.build.docker.image@),
        ),
        setting_within(config_map(config), "build"@, "docker"@, "platform"@) == as_text(
            config.build.docker.platform,
        ),
        setting_within(config_map(config), "emulator"@, "docker"@, "image"@) == Some(
            Node::Text(config.emulator.docker.image@),
        ),
        setting_within(config_map(config), "emulator"@, "docker"@, "platform"@) == as_text(
            config.emulator.docker.platform,
        ),
{
    lemma_sections_apart(config);
    lemma_build_settings(config);
    lemma_emulator_settings(config);
    let table = config_map(config);
    reveal_strlit("docker");
    reveal_strlit("image");
    reveal_strlit("platform");
    assert("image"@.len() != "platform"@.len());
    lemma_within_section(
        table,
        "build"@,
        "docker"@,
        "image"@,
        build_map(config.build),
        image_map(config.build.docker.image@, config.build.docker.platform),
    );
    lemma_within_section(
        table,
        "build"@,
        "docker"@,
        "platform"@,
        build_map(config.build),
        image_map(config.build.docker.image@, config.build.docker.platform),
    );
    lemma_within_section(
        table,
        "emulator"@,
        "docker"@,
        "image"@,
        emulator_map(config.emulator),
        image_map(config.emulator.docker.image@, config.emulator.docker.platform),
    );
    lemma_within_section(
        table,
        "emulator"@,
        "docker"@,
        "platform"@,
        emulator_map(config.emulator),
        image_map(config.emulator.docker.image@, config.emulator.docker.platform),
    );
}

/// Every setting is in the table of the configuration, under the name that it
/// is set by, and one that holds nothing is not there.
pub proof fn every_setting_is_under_its_name(config: Config, table: Section)
    requires
        config.wf(),
        call_ensures(Config::to_value, (&config,), Ok::<Section, String>(table)),
    ensures
        setting_in(table@, "project"@, "board"@) == Some(Node::Text(board_word(config.project.board))),
        setting_in(table@, "project"@, "type"@) == Some(Node::Text(kind_word(config.project.kind))),
        setting_in(table@, "project"@, "artifact"@) == as_text(config.project.artifact),
        setting_in(table@, "build"@, "toolchain"@) == Some(Node::Text(toolchain_word(config.build.toolchain))),
        setting_in(table@, "build"@, "program"@) == Some(Node::Text(config.build.program@)),
        setting_in(table@, "build"@, "args"@) == Some(texts(config.build.args@)),
        setting_in(table@, "build"@, "clean_args"@) == Some(texts(config.build.clean_args@)),
        setting_in(table@, "build"@, "working_directory"@) == Some(Node::Text(config.build.working_directory@)),
        setting_in(table@, "serial"@, "baud"@) == Some(Node::Integer(config.serial.baud as int)),
        setting_in(table@, "serial"@, "read_timeout_ms"@) == Some(
            Node::Integer(config.serial.read_timeout_ms as int),
        ),
        setting_in(table@, "serial"@, "port"@) == as_text(config.serial.port),
        setting_in(table@, "upload"@, "max_retries"@) == Some(
            Node::Integer(config.upload.max_retries as int),
        ),
        setting_in(table@, "upload"@, "packet_timeout_ms"@) == Some(
            Node::Integer(config.upload.packet_timeout_ms as int),
        ),
        setting_in(table@, "upload"@, "load_address"@) == Some(
            Node::Integer(config.upload.load_address as int),
        ),
        setting_in(table@, "emulator"@, "source"@) == Some(Node::Text(source_word(config.emulator.source))),
        setting_in(table@, "emulator"@, "machine"@) == Some(Node::Text(config.emulator.machine@)),
        setting_in(table@, "emulator"@, "args"@) == Some(texts(config.emulator.args@)),
        setting_in(table@, "emulator"@, "program"@) == as_text(config.emulator.program),
        setting_in(table@, "emulator"@, "rom_path"@) == as_text(config.emulator.rom_path),
        setting_in(table@, "emulator"@, "sd_card"@) == as_text(config.emulator.sd_card),
        setting_in(table@, "defaults"@, "target"@) == Some(Node::Text(target_word(config.defaults.target))),
        setting_within(table@, "build"@, "docker"@, "image"@) == Some(
            Node::Text(config.build.docker.image@),
        ),
        setting_within(table@, "build"@, "docker"@, "platform"@) == as_text(
            config.build.docker.platform,
        ),
        setting_within(table@, "emulator"@, "docker"@, "image"@) == Some(
            Node::Text(config.emulator.docker.image@),
        ),
        setting_within(table@, "emulator"@, "docker"@, "platform"@) == as_text(
            config.emulator.docker.platform,
        ),
{
    lemma_project_settings(config);
    lemma_build_settings(config);
    lemma_serial_settings(config);
    lemma_upload_settings(config);
    lemma_emulator_settings(config);
    lemma_defaults_settings(config);
    lemma_image_settings(config);
}

proof fn lemma_own_directory(base: Seq<char>)
    ensures
        path::steps(path::below(base, "rosco"@)) == path::steps(base).push("rosco"@),
{
    reveal_strlit("rosco");
    reveal_strlit(".");
    reveal_strlit("..");
    assert("rosco"@.len() != ".."@.len() && "rosco"@.len() != "."@.len());
    path::lemma_file_in(base, "rosco"@);
}

/// Where a variable leads to, where it is set to something.
pub open spec fn leads_to(
    variable: Option<String>,
    further: Seq<Seq<char>>,
    place: Result<String, String>,
) -> bool {
    variable matches Some(words) && words@.len() > 0 && (place matches Ok(place) && path::steps(
        place@,
    ) == path::steps(words@) + further)
}

/// Whether a variable says nothing: it is not set, or set to nothing.
pub open spec fn says_nothing(variable: Option<String>) -> bool {
    variable matches Some(words) ==> words@.len() == 0
}

/// The settings are where they are asked to be, and otherwise in a directory of
/// their own where the host keeps settings; there is no such place only where
/// the environment names none.
pub proof fn the_settings_live_where_the_environment_says(
    env: Environment,
    host: Host,
    directory: Result<String, String>,
)
    requires
        call_ensures(settings_home, (&env, host), directory),
    ensures
        !says_nothing(env.config_home) ==> leads_to(env.config_home, Seq::empty(), directory),
        says_nothing(env.config_home) && host == Host::Windows ==> if says_nothing(env.app_data) {
            directory is Err
        } else {
            leads_to(env.app_data, seq!["rosco"@], directory)
        },
        says_nothing(env.config_home) && host != Host::Windows && !says_nothing(
            env.xdg_config_home,
        ) ==> leads_to(env.xdg_config_home, seq!["rosco"@], directory),
        says_nothing(env.config_home) && host != Host::Windows && says_nothing(env.xdg_config_home)
            ==> if says_nothing(env.home) {
            directory is Err
        } else {
            leads_to(env.home, seq![".config"@, "rosco"@], directory)
        },
{
    let own = seq!["rosco"@];
    if let Some(words) = env.config_home {
        assert(path::steps(words@) + Seq::<Seq<char>>::empty() == path::steps(words@));
    }
    if let Some(words) = env.app_data {
        lemma_own_directory(words@);
        assert(path::steps(words@) + own == path::steps(words@).push("rosco"@));
    }
    if let Some(words) = env.xdg_config_home {
        lemma_own_directory(words@);
        assert(path::steps(words@) + own == path::steps(words@).push("rosco"@));
    }
    if let Some(words) = env.home {
        reveal_strlit(".config");
        reveal_strlit(".");
        reveal_strlit("..");
        assert(".config"@.len() != ".."@.len() && ".config"@.len() != "."@.len());
        path::lemma_file_in(words@, ".config"@);
        lemma_own_directory(path::below(words@, ".config"@));
        assert(path::steps(words@) + seq![".config"@, "rosco"@] == path::steps(words@).push(
            ".config"@,
        ).push("rosco"@));
    }
}

/// What is built here goes where it is asked to, and otherwise into a directory
/// of its own where the host keeps such things.
pub proof fn what_is_built_goes_where_the_environment_says(
    env: Environment,
    host: Host,
    directory: Result<String, String>,
)
    requires
        call_ensures(data_dir, (&env, host), directory),
    ensures
        !says_nothing(env.data_home) ==> leads_to(env.data_home, Seq::empty(), directory),
        says_nothing(env.data_home) && host == Host::Windows ==> if says_nothing(
            env.local_app_data,
        ) {
            directory is Err
        } else {
            leads_to(env.local_app_data, seq!["rosco"@], directory)
        },
        says_nothing(env.data_home) && host != Host::Windows && !says_nothing(env.xdg_data_home)
            ==> leads_to(env.xdg_data_home, seq!["rosco"@], directory),
        says_nothing(env.data_home) && host != Host::Windows && says_nothing(env.xdg_data_home)
            ==> if says_nothing(env.home) {
            directory is Err
        } else {
            leads_to(env.home, seq![".local"@, "share"@, "rosco"@], directory)
        },
{
    let own = seq!["rosco"@];
    if let Some(words) = env.data_home {
        assert(path::steps(words@) + Seq::<Seq<char>>::empty() == path::steps(words@));
    }
    if let Some(words) = env.local_app_data {
        lemma_own_directory(words@);
        assert(path::steps(words@) + own == path::steps(words@).push("rosco"@));
    }
    if let Some(words) = env.xdg_data_home {
        lemma_own_directory(words@);
        assert(path::steps(words@) + own == path::steps(words@).push("rosco"@));
    }
    if let Some(words) = env.home {
        reveal_strlit(".local");
        reveal_strlit("share");
        reveal_strlit(".");
        reveal_strlit("..");
        assert("share"@.len() != ".."@.len() && "share"@.len() != "."@.len());
        assert(".local"@.len() != ".."@.len() && ".local"@.len() != "."@.len());
        path::lemma_file_in(words@, ".local"@);
        path::lemma_file_in(path::below(words@, ".local"@), "share"@);
        lemma_own_directory(path::below(path::below(words@, ".local"@), "share"@));
        assert(path::steps(words@) + seq![".local"@, "share"@, "rosco"@] == path::steps(
            words@,
        ).push(".local"@).push("share"@).push("rosco"@));
    }
}

/// What the build makes is found again: a file that is set is taken from the
/// project, and one that is not is named after the directory it is made in,
/// with the ending of what the project builds.
pub proof fn an_artifact_is_named_after_its_directory(
    config: Config,
    project_root: &str,
    directory: String,
    file: String,
)
    requires
        call_ensures(Config::build_directory, (&config, project_root), directory),
        call_ensures(Config::artifact_path, (&config, project_root), Ok::<String, String>(file)),
    ensures
        config.project.artifact matches Some(artifact) ==> path::steps(file@) == if path::absolute(
            artifact@,
        ) {
            path::steps(artifact@)
        } else {
            path::steps(project_root@) + path::steps(artifact@)
        },
        config.project.artifact is None ==> path::steps(directory@).len() > 0 && path::steps(file@)
            == path::steps(directory@).push(
            path::steps(directory@).last() + if config.project.kind == ProjectKind::Firmware {
                ".rom"@
            } else {
                ".bin"@
            },
        ),
{
    if let Some(artifact) = config.project.artifact {
        path::a_path_below_continues_the_other(project_root@, artifact@);
    } else {
        let names = path::steps(directory@);
        let name = names.last();
        let ending = artifact_ending(config.project.kind);
        let whole = name + ending;
        path::lemma_steps(directory@);
        assert(path::names(names[names.len() - 1]));
        reveal_strlit(".bin");
        reveal_strlit(".rom");
        reveal_strlit(".");
        reveal_strlit("..");
        assert(ending.len() == 4);
        assert(!whole.contains('/')) by {
            assert(!names[names.len() - 1].contains('/'));
            if whole.contains('/') {
                let k = choose|k: int| 0 <= k < whole.len() && whole[k] == '/';
                if k < name.len() {
                    assert(name.contains(name[k]));
                } else {
                    assert(ending[k - name.len()] == '/');
                }
            }
        }
        assert(path::names(whole));
        path::lemma_file_in(directory@, whole);
    }
}

/// What a board brings is called after it: its firmware, its toolchain image
/// and the machine it is emulated by.
pub proof fn what_a_board_brings_is_called_after_it(
    board: Board,
    name: &'static str,
    rom: &'static str,
    image: &'static str,
    machine: &'static str,
)
    requires
        call_ensures(Board::label, (board,), name),
        call_ensures(Board::rom_file, (board,), rom),
        call_ensures(Board::docker_image, (board,), image),
        call_ensures(Board::machine, (board,), machine),
    ensures
        rom@ == name@ + ".rom"@,
        image@ == "solderdemon/"@ + name@ + ":latest"@,
        name@.is_prefix_of(machine@),
{
    reveal_strlit("rosco_m68k");
    reveal_strlit("rosco_6502");
    reveal_strlit(".rom");
    reveal_strlit("rosco_m68k.rom");
    reveal_strlit("rosco_6502.rom");
    reveal_strlit("solderdemon/");
    reveal_strlit(":latest");
    reveal_strlit("solderdemon/rosco_m68k:latest");
    reveal_strlit("solderdemon/rosco_6502:latest");
    reveal_strlit("rosco_m68k_010");
    assert(rom@ == name@ + ".rom"@);
    assert(image@ == "solderdemon/"@ + name@ + ":latest"@);
    assert(machine@.take(10) == name@);
}

/// A board is read as it is written, and without one the default board is
/// meant.
pub proof fn a_board_is_read_as_it_is_written(
    table: Map<Seq<char>, Node>,
    board: Board,
    name: &'static str,
)
    requires
        call_ensures(Board::label, (board,), name),
        value::found(table, "project.board"@) == Some(Node::Text(name@)) || value::found(
            table,
            "project.board"@,
        ) is None && board == Board::RoscoM68k,
    ensures
        named_board(table) == board,
{
    reveal_strlit("rosco_m68k");
    reveal_strlit("rosco_6502");
    assert("rosco_m68k"@[6] != "rosco_6502"@[6]);
}

/// A setting that may hold nothing is among those that are named for it, each
/// under the name that it is set by.
pub proof fn what_can_be_left_unset_is_named(names: Vec<String>)
    requires
        call_ensures(optional_settings, (), names),
    ensures
        ({
            let list = text::views(names@);
            &&& list.len() == 7
            &&& list.contains("project"@ + "."@ + "artifact"@)
            &&& list.contains("serial"@ + "."@ + "port"@)
            &&& list.contains("emulator"@ + "."@ + "program"@)
            &&& list.contains("emulator"@ + "."@ + "rom_path"@)
            &&& list.contains("emulator"@ + "."@ + "sd_card"@)
            &&& list.contains("build"@ + "."@ + "docker"@ + "."@ + "platform"@)
            &&& list.contains("emulator"@ + "."@ + "docker"@ + "."@ + "platform"@)
        }),
{
    let list = text::views(names@);
    reveal_strlit(".");
    reveal_strlit("project");
    reveal_strlit("serial");
    reveal_strlit("emulator");
    reveal_strlit("build");
    reveal_strlit("docker");
    reveal_strlit("artifact");
    reveal_strlit("port");
    reveal_strlit("program");
    reveal_strlit("rom_path");
    reveal_strlit("sd_card");
    reveal_strlit("platform");
    reveal_strlit("build.docker.platform");
    reveal_strlit("emulator.docker.platform");
    reveal_strlit("emulator.program");
    reveal_strlit("emulator.rom_path");
    reveal_strlit("emulator.sd_card");
    reveal_strlit("project.artifact");
    reveal_strlit("serial.port");
    assert(list[0] == "build"@ + "."@ + "docker"@ + "."@ + "platform"@);
    assert(list[1] == "emulator"@ + "."@ + "docker"@ + "."@ + "platform"@);
    assert(list[2] == "emulator"@ + "."@ + "program"@);
    assert(list[3] == "emulator"@ + "."@ + "rom_path"@);
    assert(list[4] == "emulator"@ + "."@ + "sd_card"@);
    assert(list[5] == "project"@ + "."@ + "artifact"@);
    assert(list[6] == "serial"@ + "."@ + "port"@);
}

/// A configuration that nobody has touched is that of the default board: it
/// says what the settings say where there is no file at all. Its numbers are
/// those that the boards come with.
pub proof fn a_configuration_nobody_touched(config: Config, layers: Layers, table: Section)
    requires
        call_ensures(<Config as Default>::default, (), config),
        layers.global is None,
        layers.project is None,
        call_ensures(Layers::config, (&layers,), table),
    ensures
        setting_within(table@, "build"@, "docker"@, "image"@) == Some(
            Node::Text(config.build.docker.image@),
        ),
        setting_in(table@, "emulator"@, "machine"@) == Some(Node::Text(config.emulator.machine@)),
        config.project.board == named_board(table@),
        config.wf(),
        config.upload.max_retries == 6,
        config.upload.packet_timeout_ms == 5_000,
        config.upload.load_address == 0x0800,
        config.serial.baud == 38_400,
        config.serial.read_timeout_ms == 50,
{
    let none = Map::<Seq<char>, Node>::empty();
    lemma_over_nothing(none);
    assert(layers.files() == none);
    text::lemma_pieces("project.board"@, '.');
    assert(value::found(none, "project.board"@) is None);
    let map = board_map(Board::RoscoM68k);
    lemma_over_nothing(map);
    assert(table@ == map);
    reveal_strlit("build");
    reveal_strlit("emulator");
    reveal_strlit("docker");
    reveal_strlit("image");
    reveal_strlit("machine");
    assert("build"@.len() != "emulator"@.len());
    let docker = none.insert("image"@, Node::Text(board_image(Board::RoscoM68k)));
    let build = none.insert("docker"@, Node::Section(docker));
    let emulator = none.insert("machine"@, Node::Text(board_machine(Board::RoscoM68k)));
    lemma_within_section(map, "build"@, "docker"@, "image"@, build, docker);
    lemma_in_section(map, "emulator"@, "machine"@, emulator);
    assert(named_board(map) == Board::RoscoM68k) by {
        reveal_strlit("project");
        reveal_strlit("board");
        reveal_strlit(".");
        reveal_strlit("project.board");
        assert("project.board"@ == "project"@ + "."@ + "board"@);
        let path = seq!["project"@, "board"@];
        assert("."@ == seq!['.']);
        reveal_with_fuel(text::joined, 3);
        assert(path.drop_last() == seq!["project"@]);
        assert(text::joined(path, "."@) == "project"@ + "."@ + "board"@);
        text::splitting_undoes_joining(path, '.');
        assert("project"@[0] == 'p' && "build"@[0] == 'b' && "emulator"@[0] == 'e');
        assert(!map.contains_key("project"@));
    }
}

/// A configuration can be written down exactly where its waits are numbers that
/// a settings file can hold.
pub proof fn a_wait_has_to_fit_into_a_file(config: Config, table: Result<Section, String>)
    requires
        config.wf(),
        call_ensures(Config::to_value, (&config,), table),
    ensures
        table is Ok <==> config.serial.read_timeout_ms < 0x8000_0000_0000_0000
            && config.upload.packet_timeout_ms < 0x8000_0000_0000_0000,
{
}

} // verus!
