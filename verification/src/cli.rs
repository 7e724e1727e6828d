//! What a command line can ask for.
use vstd::prelude::*;
use vstd::string::*;

use crate::config::{Board, ProjectKind, Target};

verus! {

/// A request: the application directory and what to do there.
#[derive(Debug)]
pub struct Cli {
    pub project: String,
    pub command: RoscoCommand,
}

#[derive(Debug)]
pub enum RoscoCommand {
    /// Create a new project.
    Init(InitArgs),
    /// Compile the current application.
    Build(BuildArgs),
    /// Upload a binary through UART.
    Upload(UploadArgs),
    /// Open an interactive UART session.
    Monitor(MonitorArgs),
    /// Build, upload, and open an interactive UART session.
    Run(RunArgs),
    /// List serial ports that may be connected to a board.
    Ports(PortsArgs),
    /// Read and write saved settings.
    Config(ConfigArgs),
    /// Check Docker, the toolchain, the emulator, and UART setup.
    Doctor,
}

#[derive(Debug)]
pub struct InitArgs {
    /// The directory to create, with a language before it in the older form.
    pub name: Vec<String>,
    pub board: Option<Board>,
    pub language: Option<ProjectLanguage>,
    pub kind: Option<ProjectKind>,
    pub target: Option<Target>,
    /// Run the emulator from its image.
    pub emulator_docker: bool,
    /// The emulator this project runs on.
    pub emulator_path: Option<String>,
    pub toolchain: ToolchainArgs,
    /// Take the default for anything not given instead of asking for it.
    pub yes: bool,
}

#[derive(Clone, Copy, Debug, PartialEq, Eq, Structural)]
pub enum ProjectLanguage {
    C,
    Asm,
}

/// The word for a language.
pub open spec fn language_word(language: ProjectLanguage) -> Seq<char> {
    match language {
        ProjectLanguage::C => "c"@,
        ProjectLanguage::Asm => "asm"@,
    }
}

impl ProjectLanguage {
    pub fn label(self) -> (label: &'static str)
        ensures
            label@ == language_word(self),
    {
        match self {
            ProjectLanguage::C => "c",
            ProjectLanguage::Asm => "asm",
        }
    }
}

#[derive(Debug)]
pub struct BuildArgs {
    /// Run the configured clean command before building.
    pub clean: bool,
    pub toolchain: ToolchainArgs,
}

/// Where this run takes its compilers from, when it is not what
/// `build.toolchain` says.
#[derive(Clone, Copy, Debug)]
pub struct ToolchainArgs {
    /// Build in the toolchain image.
    pub docker: bool,
    /// Build with the compilers installed on this computer.
    pub host: bool,
}

impl Default for ToolchainArgs {
    fn default() -> (args: ToolchainArgs)
        ensures
            !args.docker && !args.host,
    {
        ToolchainArgs { docker: false, host: false }
    }
}

#[derive(Debug)]
pub struct UploadArgs {
    /// Binary to upload; the project's artifact when there is none.
    pub file: Option<String>,
    pub serial: SerialArgs,
    pub emulator: EmulatorArgs,
}

#[derive(Debug)]
pub struct MonitorArgs {
    pub serial: SerialArgs,
    pub emulator: EmulatorArgs,
}

#[derive(Debug)]
pub struct RunArgs {
    pub clean: bool,
    pub toolchain: ToolchainArgs,
    pub serial: SerialArgs,
    pub emulator: EmulatorArgs,
}

#[derive(Debug)]
pub struct ConfigArgs {
    pub command: ConfigCommand,
}

#[derive(Debug)]
pub enum ConfigCommand {
    /// Show every setting in force and which file supplies it.
    List,
    /// Print one setting's value.
    Get { key: String },
    /// Save a setting so it no longer has to be passed as an option.
    Save { key: String, value: String, scope: ScopeArgs },
    /// Remove a saved setting.
    Unset { key: String, scope: ScopeArgs },
    /// Print the path of a settings file.
    Path { scope: ScopeArgs },
    /// Open a settings file in an editor.
    Edit { scope: ScopeArgs },
}

#[derive(Clone, Copy, Debug)]
pub struct ScopeArgs {
    /// Use the per-user settings file shared by every project.
    pub global: bool,
    /// Use the settings file in the project directory.
    pub local: bool,
}

impl Default for ScopeArgs {
    fn default() -> (args: ScopeArgs)
        ensures
            !args.global && !args.local,
    {
        ScopeArgs { global: false, local: false }
    }
}

#[derive(Debug)]
pub struct PortsArgs {
    /// Show built-in and non-USB serial ports too.
    pub all: bool,
}

#[derive(Debug)]
pub struct EmulatorArgs {
    /// Use the rosco emulator instead of a board attached over UART.
    pub emulator: bool,
    /// Use a board attached over UART, overriding `defaults.target`.
    pub hardware: bool,
    pub machine: Option<String>,
    /// Emulator executable, when it is not on `PATH`.
    pub emulator_path: Option<String>,
    /// Directory holding the firmware ROM sets.
    pub rom_path: Option<String>,
    /// Image to attach as the emulated SD card.
    pub sd_card: Option<String>,
}

impl Default for EmulatorArgs {
    fn default() -> (args: EmulatorArgs)
        ensures
            !args.emulator && !args.hardware,
            args.machine is None && args.emulator_path is None,
            args.rom_path is None && args.sd_card is None,
    {
        EmulatorArgs {
            emulator: false,
            hardware: false,
            machine: None,
            emulator_path: None,
            rom_path: None,
            sd_card: None,
        }
    }
}

#[derive(Debug)]
pub struct SerialArgs {
    /// Serial device, for example `/dev/ttyUSB0` or `COM3`.
    pub port: Option<String>,
    pub baud: Option<u32>,
}

impl Default for SerialArgs {
    fn default() -> (args: SerialArgs)
        ensures
            args.port is None && args.baud is None,
    {
        SerialArgs { port: None, baud: None }
    }
}

} // verus!
