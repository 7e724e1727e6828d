//! The decisions behind `rosco`, a command line for building, uploading and
//! watching programs for rosco_m68k and rosco_6502.
//!
//! Nothing here reads a file, starts a process or opens a port. A caller does
//! that and hands in what it found; what comes back says what to do next. The
//! conversations that take several turns - a Kermit transfer, a load through
//! the monitor, a build, the questions of `init` - are state machines that
//! are told one event at a time.
//!
//! - `text` and `path` are the ground everything stands on.
//! - `kermit`, `sender` and `ihex` carry a program to a board.
//! - `value`, `document`, `config` and `settings` are the settings: what they
//!   say, how the files are read and edited, how they are layered, and the
//!   command that shows and saves them.
//! - `toolchain` and `builder` build a project, `emulator` and `install` run
//!   it without a board, `serial` watches it.
//! - `prompt`, `questions` and `init` make a new project; `report` says what
//!   is here and what comes next.
//! - `cli` is what can be asked for and `app` how it is carried out.
pub mod text;
pub mod kermit;
pub mod sender;
pub mod ihex;
pub mod value;
pub mod document;
pub mod path;
pub mod cli;
pub mod config;
pub mod settings;
pub mod toolchain;
pub mod builder;
pub mod emulator;
pub mod serial;
pub mod prompt;
pub mod init;
pub mod install;
pub mod app;
pub mod questions;
pub mod report;
