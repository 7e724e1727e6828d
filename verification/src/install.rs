//! What happens when the emulator is not on this computer yet.
//!
//! A missing emulator has three answers: its image, a build already here, or
//! one built from source. So the question is asked rather than reported as a
//! failure, and the answer is saved, so it is asked once and not on every run.
use vstd::prelude::*;
use vstd::string::*;

use crate::builder;
use crate::builder::{refusal_message, Probe};
use crate::config;
use crate::config::{data_dir, Config, EmulatorSource, Environment, Host, Layers};
use crate::emulator;
use crate::emulator::{Runner, DEFAULT_PROGRAM};
use crate::path;
use crate::path::{drop_trailing, from_host, is_name, is_root, join_path, leads_on, to_host};
use crate::prompt::Choice;
use crate::settings::Scope;
use crate::text;
use crate::text::{cat, chars_of, decimal, is_among, join, push_text, same, split};
use crate::value;

verus! {

/// What runs the machine, or what has to happen before anything can.
pub enum Readiness {
    Run(Runner),
    /// Say what is missing and ask what to do about it, starting on the answer
    /// worth trying first, which is never the one that just failed.
    Offer { problem: String, start: usize },
    Fail(String),
}

/// Why there is nothing to run, named after whatever was consulted last.
pub open spec fn missing_words(config: Config, program: Seq<char>, from_env: bool) -> Seq<char> {
    if config.emulator.program is Some {
        "emulator.program points at "@ + program + ", and there is nothing there."@
    } else if from_env {
        "ROSCO_EMULATOR points at "@ + program + ", and there is nothing there."@
    } else {
        "rosco-emulator is not on PATH, and no emulator is saved in the settings."@
    }
}

/// Why there is nothing to run, named after whatever was consulted last.
pub fn missing_program(config: &Config, program: &str, from_env: bool) -> (words: String)
    ensures
        words@ == missing_words(*config, program@, from_env),
{
    if config.emulator.program.is_some() {
        let mut words = cat("emulator.program points at ", program);
        words.append(", and there is nothing there.");
        words
    } else if from_env {
        let mut words = cat("ROSCO_EMULATOR points at ", program);
        words.append(", and there is nothing there.");
        words
    } else {
        "rosco-emulator is not on PATH, and no emulator is saved in the settings.".to_owned()
    }
}

/// What is said where there is no Docker.
pub open spec fn no_docker() -> Seq<char> {
    "docker is not installed, or is not on PATH."@
}

/// What runs the machine this time, having made sure it is actually there:
/// `found` is the binary that a program turned out to be, and `probe` what
/// Docker said when it was asked for itself.
///
/// A path on the command line is an answer to the question already, so a
/// wrong one is a typo to report, not a menu.
pub fn ready(
    config: &Config,
    runner: Runner,
    found: Option<String>,
    probe: Probe,
    from_cli: Option<&str>,
    from_env: bool,
) -> (readiness: Readiness)
    ensures
        match runner {
            Runner::Program(program) => match (found, from_cli) {
                (Some(found), _) => readiness == Readiness::Run(Runner::Program(found)),
                (None, Some(given)) => readiness matches Readiness::Fail(words) && words@
                    == "no emulator at "@ + given@
                    + "; --emulator-path takes the emulator binary, or the tree it was built in"@,
                (None, None) => readiness matches Readiness::Offer { problem, start } && problem@
                    == missing_words(*config, program@, from_env) && start == 0,
            },
            Runner::Image { name, platform } => match probe {
                Probe::Ready => readiness == Readiness::Run(runner),
                Probe::Missing => readiness matches Readiness::Offer { problem, start } && problem@
                    == no_docker() && start == 1,
                Probe::Refused(stderr) => readiness matches Readiness::Offer { problem, start }
                    && problem@ == builder::refusal_words(stderr@) && start == 1,
            },
        },
{
    match runner {
        Runner::Program(program) => {
            if let Some(found) = found {
                return Readiness::Run(Runner::Program(found));
            }
            if let Some(given) = from_cli {
                let mut words = cat("no emulator at ", given);
                words.append(
                    "; --emulator-path takes the emulator binary, or the tree it was built in",
                );
                return Readiness::Fail(words);
            }
            let problem = missing_program(config, program.as_str(), from_env);
            Readiness::Offer { problem, start: 0 }
        },
        Runner::Image { name, platform } => match probe {
            Probe::Ready => Readiness::Run(Runner::Image { name, platform }),
            Probe::Missing => Readiness::Offer {
                problem: "docker is not installed, or is not on PATH.".to_owned(),
                start: 1,
            },
            Probe::Refused(stderr) => Readiness::Offer {
                problem: refusal_message(stderr.as_str()),
                start: 1,
            },
        },
    }
}

/// How to set an emulator up later.
pub open spec fn advice_words() -> Seq<char> {
    "  Its image needs nothing installed: `rosco config set emulator.source docker`.\n  Or build it from https://github.com/solderdemon/rosco-emulator and say where it went:\n    `rosco config set emulator.program <path>/rosco`.\n  --emulator-path and ROSCO_EMULATOR point at one for a single run."@
}

/// How to set an emulator up later.
pub fn advice() -> (words: &'static str)
    ensures
        words@ == advice_words(),
{
    "  Its image needs nothing installed: `rosco config set emulator.source docker`.\n  Or build it from https://github.com/solderdemon/rosco-emulator and say where it went:\n    `rosco config set emulator.program <path>/rosco`.\n  --emulator-path and ROSCO_EMULATOR point at one for a single run."
}

/// What is said where there is nobody to ask.
pub fn nobody_to_ask(problem: &str) -> (message: String)
    ensures
        message@ == problem@ + "\n"@ + advice_words(),
{
    let mut message = cat(problem, "\n");
    message.append(advice());
    message
}

/// What is said to somebody who would rather not.
pub fn nothing_chosen() -> (message: String)
    ensures
        message@ == "no emulator chosen.\n"@ + advice_words(),
{
    cat("no emulator chosen.\n", advice())
}

/// The ways to get an emulator.
#[derive(Clone, Copy, Debug, PartialEq, Eq, Structural)]
pub enum Way {
    Image,
    BuildHere,
    Existing,
    Cancel,
}

/// The way that an answer stands for.
pub fn way(answer: usize) -> (way: Way)
    ensures
        way == (if answer == 0 {
            Way::Image
        } else if answer == 1 {
            Way::BuildHere
        } else if answer == 2 {
            Way::Existing
        } else {
            Way::Cancel
        }),
{
    if answer == 0 {
        Way::Image
    } else if answer == 1 {
        Way::BuildHere
    } else if answer == 2 {
        Way::Existing
    } else {
        Way::Cancel
    }
}

/// What a list of choices says.
pub open spec fn choice_views(choices: Seq<Choice>) -> Seq<(Seq<char>, Seq<char>)> {
    Seq::new(choices.len(), |i: int| (choices[i].label@, choices[i].detail@))
}

/// The ways to get an emulator, in the order in which `way` knows them.
pub fn ways() -> (choices: Vec<Choice<'static>>)
    ensures
        choice_views(choices@) == seq![
            ("Docker"@, "run its image; nothing to install"@),
            ("Build it here"@, "clone the emulator and build it, which takes a while"@),
            ("Existing build"@, "point at an emulator already on this computer"@),
            ("Cancel"@, "stop, and print how to set one up later"@),
        ],
{
    let mut choices: Vec<Choice<'static>> = Vec::new();
    choices.push(Choice { label: "Docker", detail: "run its image; nothing to install" });
    choices.push(
        Choice {
            label: "Build it here",
            detail: "clone the emulator and build it, which takes a while",
        },
    );
    choices.push(
        Choice {
            label: "Existing build",
            detail: "point at an emulator already on this computer",
        },
    );
    choices.push(Choice { label: "Cancel", detail: "stop, and print how to set one up later" });
    assert(choice_views(choices@) == seq![
        ("Docker"@, "run its image; nothing to install"@),
        ("Build it here"@, "clone the emulator and build it, which takes a while"@),
        ("Existing build"@, "point at an emulator already on this computer"@),
        ("Cancel"@, "stop, and print how to set one up later"@),
    ]);
    choices
}

/// Whether to build now, after it was said what that takes.
pub fn confirmations() -> (choices: Vec<Choice<'static>>)
    ensures
        choice_views(choices@) == seq![
            ("Build"@, "clone and compile now"@),
            ("Back"@, "return to the other ways of getting one"@),
        ],
{
    let mut choices: Vec<Choice<'static>> = Vec::new();
    choices.push(Choice { label: "Build", detail: "clone and compile now" });
    choices.push(Choice { label: "Back", detail: "return to the other ways of getting one" });
    assert(choice_views(choices@) == seq![
        ("Build"@, "clone and compile now"@),
        ("Back"@, "return to the other ways of getting one"@),
    ]);
    choices
}

/// The names and values of some settings.
pub open spec fn setting_views(list: Seq<(String, String)>) -> Seq<(Seq<char>, Seq<char>)> {
    Seq::new(list.len(), |i: int| (list[i].0@, list[i].1@))
}

/// Running the emulator from its image, which is only ever as far as Docker
/// itself: the settings to save and what runs it, or what is in the way.
pub fn use_image(config: &Config, probe: Probe) -> (outcome: Result<
    (Vec<(String, String)>, Runner),
    String,
>)
    ensures
        match probe {
            Probe::Ready => outcome matches Ok((settings, runner)) && {
                &&& setting_views(settings@) == seq![("emulator.source"@, "docker"@)]
                &&& runner matches Runner::Image { name, platform } && name@
                    == config.emulator.docker.image@ && config::optional(platform)
                    == config::optional(config.emulator.docker.platform)
            },
            Probe::Missing => outcome matches Err(words) && words@ == no_docker(),
            Probe::Refused(stderr) => outcome matches Err(words) && words@
                == builder::refusal_words(stderr@),
        },
{
    match probe {
        Probe::Ready => {
            let mut settings: Vec<(String, String)> = Vec::new();
            settings.push(("emulator.source".to_owned(), "docker".to_owned()));
            assert(setting_views(settings@) == seq![("emulator.source"@, "docker"@)]);
            let platform = match &config.emulator.docker.platform {
                Some(platform) => Some(platform.clone()),
                None => None,
            };
            let name = config.emulator.docker.image.clone();
            Ok((settings, Runner::Image { name, platform }))
        },
        Probe::Missing => Err("docker is not installed, or is not on PATH.".to_owned()),
        Probe::Refused(stderr) => Err(refusal_message(stderr.as_str())),
    }
}

/// The settings that a build on this computer is recorded with. A path alone
/// would be read past by settings that send every run to the image, so where
/// that is what they say, the source is recorded with it.
pub open spec fn recorded(config: Config, program: Seq<char>) -> Seq<(Seq<char>, Seq<char>)> {
    if config.emulator.source == EmulatorSource::Docker {
        seq![("emulator.program"@, program), ("emulator.source"@, "host"@)]
    } else {
        seq![("emulator.program"@, program)]
    }
}

/// The settings that a build on this computer is recorded with.
pub fn program_settings(config: &Config, program: &str) -> (settings: Vec<(String, String)>)
    ensures
        setting_views(settings@) == recorded(*config, program@),
{
    let mut settings: Vec<(String, String)> = Vec::new();
    settings.push(("emulator.program".to_owned(), program.to_owned()));
    if config.emulator.source == EmulatorSource::Docker {
        settings.push(("emulator.source".to_owned(), "host".to_owned()));
    }
    assert(setting_views(settings@) == recorded(*config, program@));
    settings
}

/// Once its settings are saved, a build on this computer is what runs: a
/// configuration that says what was recorded is resolved to it.
pub proof fn what_was_recorded_is_what_runs(
    before: Config,
    after: Config,
    program: Seq<char>,
    from_env: Option<&str>,
)
    requires
        after.emulator.program matches Some(saved) && saved@ == program,
        recorded(before, program).contains(("emulator.source"@, "host"@)) ==> after.emulator.source
            == EmulatorSource::Host,
        recorded(before, program).len() == 1 ==> after.emulator.source == before.emulator.source,
    ensures
        after.emulator.source == EmulatorSource::Host,
        emulator::chosen_program(after, None, from_env) == program,
{
    if before.emulator.source == EmulatorSource::Docker {
        assert(recorded(before, program)[1] == ("emulator.source"@, "host"@));
    }
}

/// Which file an answer is saved in: the project's if that is where one of the
/// settings is decided, and the user's otherwise.
pub fn remember_scope(layers: &Layers, settings: &Vec<(String, String)>) -> (scope: Scope)
    requires
        layers.wf(),
    ensures
        scope == (if exists|i: int|
            0 <= i < settings@.len() && value::found(
                config::said(layers.project),
                (#[trigger] settings@[i]).0@,
            ) is Some {
            Scope::Project
        } else {
            Scope::Global
        }),
{
    for i in 0..settings.len()
        invariant
            layers.wf(),
            forall|j: int|
                0 <= j < i ==> value::found(
                    config::said(layers.project),
                    (#[trigger] settings@[j]).0@,
                ) is None,
    {
        if layers.origin(settings[i].0.as_str()) == config::Origin::Project {
            return Scope::Project;
        }
    }
    Scope::Global
}

/// The names of some settings.
pub open spec fn setting_names(list: Seq<(String, String)>) -> Seq<Seq<char>> {
    Seq::new(list.len(), |i: int| list[i].0@)
}

/// What is said once an answer is saved.
pub fn saved_message(settings: &Vec<(String, String)>, path: &str) -> (message: String)
    ensures
        message@ == "Saved "@ + text::joined(setting_names(settings@), " and "@) + " to "@ + path@,
{
    let mut names: Vec<String> = Vec::new();
    for i in 0..settings.len()
        invariant
            text::views(names@) == setting_names(settings@).take(i as int),
    {
        push_text(&mut names, settings[i].0.as_str());
        assert(text::views(names@) == setting_names(settings@).take(i + 1));
    }
    assert(setting_names(settings@).take(settings@.len() as int) == setting_names(settings@));
    let mut message = cat("Saved ", join(&names, " and ").as_str());
    message.append(" to ");
    message.append(path);
    message
}

/// Those of the first tools that are not among the ones that can be started.
pub open spec fn absent(tools: Seq<Seq<char>>, available: Seq<Seq<char>>, count: nat) -> Seq<
    Seq<char>,
>
    decreases count,
{
    if count == 0 || count > tools.len() {
        Seq::empty()
    } else if available.contains(tools[count - 1]) {
        absent(tools, available, (count - 1) as nat)
    } else {
        absent(tools, available, (count - 1) as nat).push(tools[count - 1])
    }
}

/// What the emulator's build needs that is not here. SDL is a library rather
/// than a program, so pkg-config is what can be asked about it, and only when
/// it is installed itself.
pub open spec fn build_needs(available: Seq<Seq<char>>, sdl: bool) -> Seq<Seq<char>> {
    let tools = seq!["git"@, "make"@, "python3"@, "c++"@];
    let missing = absent(tools, available, 4);
    if available.contains("pkg-config"@) && !sdl {
        missing.push("libsdl2-dev"@)
    } else {
        missing
    }
}

/// What is said of them, as one sentence.
pub open spec fn needs_words(missing: Seq<Seq<char>>, host: Host) -> Seq<char> {
    "the emulator's build needs "@ + text::joined(missing, ", "@) + ", which "@ + (if missing.len()
        == 1 {
        "is"@
    } else {
        "are"@
    }) + " not here."@ + (if host == Host::Linux {
        "\n  On Debian or Ubuntu: `sudo apt install build-essential git python3 pkg-config libsdl2-dev libsdl2-ttf-dev libfontconfig-dev libx11-dev libxinerama-dev libxext-dev libxi-dev libgl-dev libasound2-dev libpulse-dev`."@
    } else {
        Seq::empty()
    }) + "\n  https://github.com/solderdemon/rosco-emulator#building lists them all."@
}

/// Everything the emulator's build needs that is not here, as one sentence;
/// `available` names the programs that can be started, and `sdl` says whether
/// pkg-config knows the library.
pub fn missing_build_tools(available: &Vec<String>, sdl: bool, host: Host) -> (words: Option<
    String,
>)
    ensures
        words is None <==> build_needs(text::views(available@), sdl).len() == 0,
        words matches Some(words) ==> words@ == needs_words(
            build_needs(text::views(available@), sdl),
            host,
        ),
{
    let ghost here = text::views(available@);
    let ghost needed = seq!["git"@, "make"@, "python3"@, "c++"@];
    let mut tools: Vec<String> = Vec::new();
    push_text(&mut tools, "git");
    push_text(&mut tools, "make");
    push_text(&mut tools, "python3");
    push_text(&mut tools, "c++");
    assert(text::views(tools@) == needed);
    let mut missing: Vec<String> = Vec::new();
    assert(text::views(missing@) == absent(needed, here, 0));
    assert(tools@.len() == 4);
    for i in 0..tools.len()
        invariant
            here == text::views(available@),
            text::views(tools@) == needed,
            text::views(missing@) == absent(needed, here, i as nat),
    {
        assert(needed[i as int] == tools@[i as int]@);
        if !is_among(tools[i].as_str(), available) {
            push_text(&mut missing, tools[i].as_str());
        }
    }
    if is_among("pkg-config", available) && !sdl {
        push_text(&mut missing, "libsdl2-dev");
    }
    let ghost all = build_needs(here, sdl);
    assert(text::views(missing@) == all);
    assert(missing@.len() == all.len());
    if missing.len() == 0 {
        return None;
    }
    let mut words = cat("the emulator's build needs ", join(&missing, ", ").as_str());
    words.append(", which ");
    if missing.len() == 1 {
        words.append("is");
    } else {
        words.append("are");
    }
    words.append(" not here.");
    if let Host::Linux = host {
        words.append(
            "\n  On Debian or Ubuntu: `sudo apt install build-essential git python3 pkg-config libsdl2-dev libsdl2-ttf-dev libfontconfig-dev libx11-dev libxinerama-dev libxext-dev libxi-dev libgl-dev libasound2-dev libpulse-dev`.",
        );
    }
    words.append("\n  https://github.com/solderdemon/rosco-emulator#building lists them all.");
    assert(words@ == needs_words(all, host));
    Some(words)
}

/// What to do about the source tree before it is built.
pub enum Checkout {
    /// It is there already.
    Use,
    Clone,
    Refuse(String),
}

/// What to do about the source tree: `checked_out` says whether it holds a
/// checkout, and `there` whether anything is.
pub fn checkout(tree: &str, checked_out: bool, there: bool) -> (next: Checkout)
    ensures
        if checked_out {
            next is Use
        } else if there {
            next matches Checkout::Refuse(words) && words@ == tree@
                + " exists and is not a checkout of the emulator"@
        } else {
            next is Clone
        },
{
    if checked_out {
        Checkout::Use
    } else if there {
        Checkout::Refuse(cat(tree, " exists and is not a checkout of the emulator"))
    } else {
        Checkout::Clone
    }
}

/// The arguments that clone the emulator into a tree.
pub fn clone_arguments(tree: &str) -> (arguments: Vec<String>)
    ensures
        text::views(arguments@) == seq![
            "clone"@,
            "--depth"@,
            "1"@,
            "https://github.com/solderdemon/rosco-emulator"@,
            tree@,
        ],
{
    let mut arguments: Vec<String> = Vec::new();
    push_text(&mut arguments, "clone");
    push_text(&mut arguments, "--depth");
    push_text(&mut arguments, "1");
    push_text(&mut arguments, "https://github.com/solderdemon/rosco-emulator");
    push_text(&mut arguments, tree);
    assert(text::views(arguments@) == seq![
        "clone"@,
        "--depth"@,
        "1"@,
        "https://github.com/solderdemon/rosco-emulator"@,
        tree@,
    ]);
    arguments
}

/// The arguments that build it. The Qt debugger is the one dependency worth
/// dropping: nothing here ever opens a window.
pub fn make_arguments(jobs: usize) -> (arguments: Vec<String>)
    ensures
        text::views(arguments@) == seq![
            "-j"@ + text::digits(jobs as nat),
            "REGENIE=1"@,
            "USE_QTDEBUG=0"@,
        ],
{
    let mut arguments: Vec<String> = Vec::new();
    push_text(&mut arguments, cat("-j", decimal(jobs as u64).as_str()).as_str());
    push_text(&mut arguments, "REGENIE=1");
    push_text(&mut arguments, "USE_QTDEBUG=0");
    assert(text::views(arguments@) == seq![
        "-j"@ + text::digits(jobs as nat),
        "REGENIE=1"@,
        "USE_QTDEBUG=0"@,
    ]);
    arguments
}

/// Where a build goes when the user has no opinion: beside the settings
/// rather than in whatever directory the command happened to run in.
pub fn default_source_dir(env: &Environment, host: Host) -> (directory: Result<String, String>)
    ensures
        match config::data_place(*env, host) {
            Some(place) => directory matches Ok(directory) && directory@ == path::below(
                place,
                "rosco-emulator"@,
            ),
            None => directory matches Err(words) && words@ == config::no_data_directory(host),
        },
{
    match data_dir(env, host) {
        Ok(place) => Ok(join_path(place.as_str(), "rosco-emulator")),
        Err(words) => Err(words),
    }
}

/// Whether a path starts in the home directory, the way a shell writes it.
pub open spec fn from_home(path: Seq<char>) -> bool {
    text::pieces(path, '/')[0] == "~"@
}

/// The pieces of a path from the first one that names something.
pub open spec fn from_first_name(pieces: Seq<Seq<char>>) -> Seq<Seq<char>>
    decreases pieces.len(),
{
    if pieces.len() > 0 && !path::names(pieces[0]) {
        from_first_name(pieces.drop_first())
    } else {
        pieces
    }
}

/// What a path says behind its first piece, as it is written there, from the
/// first name to the last.
pub open spec fn behind_first(path: Seq<char>) -> Seq<char> {
    let rest = text::pieces(path, '/').drop_first();
    text::joined(path::up_to_last_name(from_first_name(rest), 0), "/"@)
}

/// A path as the shell would have expanded it. Any other stays as it is typed.
pub open spec fn expanded(path: Seq<char>, home: Option<Seq<char>>, host: Host) -> Seq<char> {
    let read = path::read_from(path, host);
    match home {
        Some(home) => if from_home(read) {
            path::written_for(path::below(home, behind_first(read)), host)
        } else {
            path
        },
        None => path,
    }
}

/// `~` as the shell would have expanded it, since nothing here goes through
/// one and a leading tilde is the natural thing to type. The path is as it is
/// typed on this host, and so is what comes of it.
pub fn expand_home(path: &str, home: Option<&str>, host: Host) -> (expanded_path: String)
    ensures
        expanded_path@ == expanded(
            path@,
            (match home {
                Some(home) => Some(home@),
                None => None,
            }),
            host,
        ),
{
    let home = match home {
        Some(home) => home,
        None => {
            return path.to_owned();
        },
    };
    let read = from_host(path, host);
    let mut pieces = split(read.as_str(), '/');
    let ghost all = text::pieces(read@, '/');
    proof {
        text::lemma_pieces(read@, '/');
        assert(pieces@.len() == all.len());
        assert(all[0] == pieces@[0]@);
    }
    if !same(pieces[0].as_str(), "~") {
        return path.to_owned();
    }
    let _ = pieces.remove(0);
    let ghost rest = all.drop_first();
    assert(text::views(pieces@) == rest);
    while pieces.len() > 0 && !is_name(pieces[0].as_str())
        invariant
            from_first_name(text::views(pieces@)) == from_first_name(rest),
        decreases pieces@.len(),
    {
        let ghost before = text::views(pieces@);
        assert(before[0] == pieces@[0]@);
        let _ = pieces.remove(0);
        assert(text::views(pieces@) == before.drop_first());
    }
    assert(pieces@.len() > 0 ==> text::views(pieces@)[0] == pieces@[0]@);
    assert(text::views(pieces@) == from_first_name(rest));
    drop_trailing(&mut pieces, 0);
    let inside_home = join(&pieces, "/");
    to_host(join_path(home, inside_home.as_str()).as_str(), host)
}

/// Whether a name stands on its own, with no directory before it.
pub open spec fn bare(program: Seq<char>, host: Host) -> bool {
    let read = path::read_from(program, host);
    path::step_count(read) <= 1 || path::root_only(read, host)
}

/// A file, and the same with the ending that the host leaves off the name a
/// program is called by.
pub open spec fn spellings(path: Seq<char>, suffix: Seq<char>) -> Seq<Seq<char>> {
    if suffix.len() == 0 {
        seq![path]
    } else {
        seq![path, path + suffix]
    }
}

/// Where a bare name is looked for: in the first directories of `PATH`.
pub open spec fn on_path(
    program: Seq<char>,
    directories: Seq<Seq<char>>,
    suffix: Seq<char>,
    host: Host,
    count: nat,
) -> Seq<Seq<char>>
    decreases count,
{
    if count == 0 || count > directories.len() {
        Seq::empty()
    } else {
        let before = on_path(program, directories, suffix, host, (count - 1) as nat);
        let directory = directories[count - 1];
        if directory.len() == 0 {
            before
        } else {
            let file = path::below(directory, path::read_from(program, host));
            before + spellings(path::written_for(file, host), suffix)
        }
    }
}

/// The files that a program may be, in the order in which they are tried: a
/// name on its own is looked up on `PATH`, anything else is taken as a path.
pub open spec fn places(
    program: Seq<char>,
    home: Option<Seq<char>>,
    directories: Seq<Seq<char>>,
    suffix: Seq<char>,
    host: Host,
) -> Seq<Seq<char>> {
    if bare(program, host) {
        on_path(program, directories, suffix, host, directories.len())
    } else {
        spellings(expanded(program, home, host), suffix)
    }
}

fn push_spellings(list: &mut Vec<String>, path: &str, suffix: &str)
    ensures
        text::views(final(list)@) == text::views(old(list)@) + spellings(path@, suffix@),
{
    let ghost before = text::views(list@);
    push_text(list, path);
    if chars_of(suffix).len() > 0 {
        push_text(list, cat(path, suffix).as_str());
    }
    assert(text::views(list@) == before + spellings(path@, suffix@));
}

/// The files that a program may be, in the order in which they are tried. The
/// program is as it is typed on this host, and so are the files.
pub fn locate(
    program: &str,
    home: Option<&str>,
    directories: &Vec<String>,
    suffix: &str,
    host: Host,
) -> (files: Vec<String>)
    ensures
        text::views(files@) == places(
            program@,
            (match home {
                Some(home) => Some(home@),
                None => None,
            }),
            text::views(directories@),
            suffix@,
            host,
        ),
{
    let mut files: Vec<String> = Vec::new();
    assert(text::views(files@) == Seq::<Seq<char>>::empty());
    let read = from_host(program, host);
    if leads_on(read.as_str()) && !is_root(read.as_str(), host) {
        push_spellings(&mut files, expand_home(program, home, host).as_str(), suffix);
        assert(text::views(files@) == spellings(
            expanded(
                program@,
                (match home {
                    Some(home) => Some(home@),
                    None => None,
                }),
                host,
            ),
            suffix@,
        ));
        return files;
    }
    let ghost all = text::views(directories@);
    for i in 0..directories.len()
        invariant
            all == text::views(directories@),
            read@ == path::read_from(program@, host),
            text::views(files@) == on_path(program@, all, suffix@, host, i as nat),
    {
        assert(all[i as int] == directories@[i as int]@);
        if chars_of(directories[i].as_str()).len() > 0 {
            let file = join_path(directories[i].as_str(), read.as_str());
            push_spellings(&mut files, to_host(file.as_str(), host).as_str(), suffix);
        }
    }
    assert(directories@.len() == all.len());
    files
}

/// The emulator inside a directory, for a path that names the tree it was
/// built in rather than the binary: the files it may be, in order.
pub fn inside(directory: &str, suffix: &str) -> (files: Vec<String>)
    ensures
        text::views(files@) == spellings(path::below(directory@, "rosco"@), suffix@) + spellings(
            path::below(directory@, DEFAULT_PROGRAM@),
            suffix@,
        ),
{
    let mut files: Vec<String> = Vec::new();
    assert(text::views(files@) == Seq::<Seq<char>>::empty());
    push_spellings(&mut files, join_path(directory, "rosco").as_str(), suffix);
    assert(text::views(files@) == spellings(path::below(directory@, "rosco"@), suffix@));
    push_spellings(&mut files, join_path(directory, DEFAULT_PROGRAM).as_str(), suffix);
    files
}

/// Only what is there is run: a program that was found, or the image where
/// Docker answers. A wrong path on the command line is reported, and anything
/// else that is missing is asked about, starting on a way that did not just
/// fail.
pub proof fn only_what_is_there_is_run(
    config: Config,
    runner: Runner,
    found: Option<String>,
    probe: Probe,
    from_cli: Option<&str>,
    from_env: bool,
    readiness: Readiness,
    first: Way,
)
    requires
        call_ensures(ready, (&config, runner, found, probe, from_cli, from_env), readiness),
        readiness matches Readiness::Offer { start, .. } ==> call_ensures(way, (start,), first),
    ensures
        readiness matches Readiness::Run(Runner::Program(program)) ==> runner is Program && found
            == Some(program),
        readiness matches Readiness::Run(Runner::Image { name, platform }) ==> probe is Ready
            && runner == (Runner::Image { name, platform }),
        readiness is Run <==> (if runner is Program {
            found is Some
        } else {
            probe is Ready
        }),
        readiness is Fail <==> runner is Program && found is None && from_cli is Some,
        readiness is Offer && runner is Program ==> first == Way::Image,
        readiness is Offer && runner is Image ==> first == Way::BuildHere,
{
}

proof fn lemma_absent(tools: Seq<Seq<char>>, available: Seq<Seq<char>>, count: nat)
    requires
        count <= tools.len(),
    ensures
        absent(tools, available, count).len() == 0 <==> forall|i: int|
            0 <= i < count ==> available.contains(#[trigger] tools[i]),
    decreases count,
{
    if count > 0 {
        lemma_absent(tools, available, (count - 1) as nat);
        if available.contains(tools[count - 1]) {
            assert forall|i: int|
                (forall|j: int| 0 <= j < count - 1 ==> available.contains(#[trigger] tools[j]))
                    && 0 <= i < count implies available.contains(#[trigger] tools[i]) by {
                if i == count - 1 {
                }
            }
        }
    }
}

/// The emulator's build can go ahead exactly where all its programs can be
/// started and nothing is known to speak against its library.
pub proof fn a_build_needs_all_its_tools(
    available: &Vec<String>,
    sdl: bool,
    host: Host,
    words: Option<String>,
)
    requires
        call_ensures(missing_build_tools, (available, sdl, host), words),
    ensures
        ({
            let here = text::views(available@);
            words is None <==> here.contains("git"@) && here.contains("make"@) && here.contains(
                "python3"@,
            ) && here.contains("c++"@) && (sdl || !here.contains("pkg-config"@))
        }),
{
    let here = text::views(available@);
    let tools = seq!["git"@, "make"@, "python3"@, "c++"@];
    lemma_absent(tools, here, 4);
    assert(tools[0] == "git"@ && tools[1] == "make"@ && tools[2] == "python3"@ && tools[3]
        == "c++"@);
}

/// An answer is saved in the project's settings exactly where one of the
/// settings it consists of is decided there, since anything else would be read
/// past.
pub proof fn an_answer_is_saved_where_it_will_be_read(
    layers: Layers,
    settings: &Vec<(String, String)>,
    scope: Scope,
    at: int,
    name: &str,
    origin: config::Origin,
)
    requires
        layers.wf(),
        call_ensures(remember_scope, (&layers, settings), scope),
        0 <= at < settings@.len(),
        settings@[at].0@ == name@,
        call_ensures(Layers::origin, (&layers, name), origin),
    ensures
        origin == config::Origin::Project ==> scope == Scope::Project,
        settings@.len() == 1 && origin != config::Origin::Project ==> scope == Scope::Global,
{
}

/// Whether one of the directories that are searched holds a file under a name,
/// or under the name with the ending that the host leaves off.
pub open spec fn lies_in_one(
    file: Seq<char>,
    name: Seq<char>,
    directories: Seq<Seq<char>>,
    suffix: Seq<char>,
) -> bool {
    exists|i: int|
        0 <= i < directories.len() && (#[trigger] directories[i]).len() > 0 && (file
            == path::below(directories[i], name) || file == path::below(directories[i], name)
            + suffix)
}

proof fn lemma_on_path(
    program: Seq<char>,
    directories: Seq<Seq<char>>,
    suffix: Seq<char>,
    count: nat,
)
    requires
        count <= directories.len(),
    ensures
        ({
            let files = on_path(program, directories, suffix, Host::Linux, count);
            &&& forall|k: int|
                0 <= k < files.len() ==> lies_in_one(
                    #[trigger] files[k],
                    program,
                    directories,
                    suffix,
                )
            &&& forall|i: int|
                0 <= i < count && (#[trigger] directories[i]).len() > 0 ==> files.contains(
                    path::below(directories[i], program),
                )
        }),
    decreases count,
{
    let files = on_path(program, directories, suffix, Host::Linux, count);
    if count > 0 {
        let last = directories[count - 1];
        let before = on_path(program, directories, suffix, Host::Linux, (count - 1) as nat);
        lemma_on_path(program, directories, suffix, (count - 1) as nat);
        if last.len() > 0 {
            let more = spellings(path::below(last, program), suffix);
            assert(files == before + more);
            assert forall|k: int| 0 <= k < files.len() implies lies_in_one(
                #[trigger] files[k],
                program,
                directories,
                suffix,
            ) by {
                if k < before.len() {
                    assert(files[k] == before[k]);
                } else {
                    assert(files[k] == more[k - before.len()]);
                    assert(directories[count - 1].len() > 0);
                }
            }
            assert forall|i: int|
                0 <= i < count && (#[trigger] directories[i]).len() > 0 implies files.contains(
                path::below(directories[i], program),
            ) by {
                let file = path::below(directories[i], program);
                if i < count - 1 {
                    let k = choose|k: int| 0 <= k < before.len() && before[k] == file;
                    assert(files[k] == file);
                } else {
                    assert(files[before.len() as int] == more[0]);
                }
            }
        } else {
            assert(files == before);
        }
    }
}

/// A name on its own is looked up in every directory that is searched, and
/// nowhere else.
pub proof fn a_name_is_looked_up_in_every_directory(
    program: &str,
    home: Option<&str>,
    directories: &Vec<String>,
    suffix: &str,
    files: Vec<String>,
)
    requires
        call_ensures(locate, (program, home, directories, suffix, Host::Linux), files),
        path::step_count(program@) <= 1,
    ensures
        ({
            let search = text::views(directories@);
            let tried = text::views(files@);
            &&& forall|k: int|
                0 <= k < tried.len() ==> lies_in_one(#[trigger] tried[k], program@, search, suffix@)
            &&& forall|i: int|
                0 <= i < search.len() && (#[trigger] search[i]).len() > 0 ==> tried.contains(
                    path::below(search[i], program@),
                )
        }),
{
    let search = text::views(directories@);
    lemma_on_path(program@, search, suffix@, search.len());
}

/// Anything but a name on its own is the file to run, as it is typed where it
/// does not start in the home directory, whatever directories are searched.
pub proof fn a_path_is_not_looked_up(
    program: &str,
    home: Option<&str>,
    directories: &Vec<String>,
    files: Vec<String>,
)
    requires
        call_ensures(locate, (program, home, directories, "", Host::Linux), files),
        path::step_count(program@) > 1,
        !from_home(program@),
    ensures
        text::views(files@) == seq![program@],
{
    reveal_strlit("");
}

/// What a tree holds is tried under both of the emulator's names, the one it is
/// built under first.
pub proof fn a_tree_stands_in_for_what_was_built_in_it(directory: &str, files: Vec<String>)
    requires
        call_ensures(inside, (directory, ""), files),
    ensures
        files@.len() == 2,
        path::steps(files@[0]@) == path::steps(directory@).push("rosco"@),
        path::steps(files@[1]@) == path::steps(directory@).push("rosco-emulator"@),
{
    reveal_strlit("");
    reveal_strlit("rosco");
    reveal_strlit("rosco-emulator");
    reveal_strlit(".");
    reveal_strlit("..");
    let list = text::views(files@);
    assert(list.len() == 2);
    assert(list[0] == files@[0]@ && list[1] == files@[1]@);
    assert("rosco"@.len() != ".."@.len() && "rosco"@.len() != "."@.len());
    assert("rosco-emulator"@.len() != ".."@.len() && "rosco-emulator"@.len() != "."@.len());
    path::lemma_file_in(directory@, "rosco"@);
    path::lemma_file_in(directory@, "rosco-emulator"@);
}

proof fn lemma_in_order(program: Seq<char>, directories: Seq<Seq<char>>, count: nat)
    requires
        count <= directories.len(),
    ensures
        on_path(program, directories, Seq::empty(), Host::Linux, count) == directories.take(
            count as int,
        ).filter(|directory: Seq<char>| directory.len() > 0).map_values(
            |directory: Seq<char>| path::below(directory, program),
        ),
    decreases count,
{
    let said = |directory: Seq<char>| directory.len() > 0;
    let file = |directory: Seq<char>| path::below(directory, program);
    let some = directories.take(count as int);
    let files = on_path(program, directories, Seq::empty(), Host::Linux, count);
    reveal(Seq::filter);
    if count > 0 {
        let shorter = directories.take(count - 1);
        lemma_in_order(program, directories, (count - 1) as nat);
        assert(some.drop_last() == shorter);
        assert(some.last() == directories[count - 1]);
        let before = shorter.filter(said);
        if directories[count - 1].len() > 0 {
            assert(some.filter(said) == before.push(directories[count - 1]));
            assert(some.filter(said).map_values(file) == before.map_values(file).push(
                file(directories[count - 1]),
            ));
            assert(files == before.map_values(file) + seq![file(directories[count - 1])]);
        } else {
            assert(some.filter(said) == before);
        }
    } else {
        assert(some.filter(said) == Seq::<Seq<char>>::empty());
        assert(files == some.filter(said).map_values(file));
    }
}

/// The directories that are searched for a name are searched in their order,
/// and one that is empty is passed over.
pub proof fn directories_are_searched_in_order(
    program: &str,
    home: Option<&str>,
    directories: &Vec<String>,
    files: Vec<String>,
)
    requires
        call_ensures(locate, (program, home, directories, "", Host::Linux), files),
        path::step_count(program@) <= 1,
    ensures
        text::views(files@) == text::views(directories@).filter(
            |directory: Seq<char>| directory.len() > 0,
        ).map_values(|directory: Seq<char>| path::below(directory, program@)),
{
    let search = text::views(directories@);
    reveal_strlit("");
    assert(""@ == Seq::<char>::empty());
    lemma_in_order(program@, search, search.len());
    assert(search.take(search.len() as int) == search);
}

/// A path below a tilde lies below the home directory, and any other path is
/// left as it is typed.
pub proof fn a_tilde_is_the_home_directory(
    path: &str,
    home: &str,
    list: Seq<Seq<char>>,
    expanded_path: String,
)
    requires
        list.len() > 0,
        path::all_steps(list),
        path@ == "~/"@ + text::joined(list, "/"@),
        call_ensures(expand_home, (path, Some(home), Host::Linux), expanded_path),
    ensures
        expanded_path@ == path::below(home@, text::joined(list, "/"@)),
        path::steps(expanded_path@) == path::steps(home@) + list,
{
    let rest = text::joined(list, "/"@);
    let tilde = seq!["~"@];
    let all = tilde + list;
    reveal_strlit("~");
    reveal_strlit("/");
    reveal_strlit("~/");
    assert("/"@ == seq!['/']);
    assert("~/"@ == "~"@ + "/"@);
    assert forall|i: int| 0 <= i < all.len() implies !(#[trigger] all[i]).contains('/') by {
        if i > 0 {
            assert(all[i] == list[i - 1]);
            assert(!list[i - 1].contains('/'));
        } else {
            assert(all[0] == "~"@);
        }
    }
    lemma_joined_behind("~"@, list);
    assert(text::joined(all, "/"@) == path@);
    text::splitting_undoes_joining(all, '/');
    assert(text::pieces(path@, '/') == all);
    assert(all.drop_first() == list);
    assert(path::names(list[0]));
    assert(path::names(list[list.len() - 1]));
    assert(from_first_name(list) == list);
    assert(path::up_to_last_name(list, 0) == list);
    path::joined_names_are_the_steps(list);
    path::lemma_joined_start(list);
    path::a_path_below_continues_the_other(home@, rest);
}

proof fn lemma_joined_behind(first: Seq<char>, list: Seq<Seq<char>>)
    requires
        list.len() > 0,
    ensures
        text::joined(seq![first] + list, "/"@) == first + "/"@ + text::joined(list, "/"@),
    decreases list.len(),
{
    let all = seq![first] + list;
    reveal_with_fuel(text::joined, 3);
    if list.len() == 1 {
        assert(all.drop_last() == seq![first]);
        assert(text::joined(all, "/"@) == first + "/"@ + list[0]);
    } else {
        let shorter = list.drop_last();
        lemma_joined_behind(first, shorter);
        assert(all.drop_last() == seq![first] + shorter);
        assert(text::joined(all, "/"@) == first + "/"@ + text::joined(list, "/"@));
    }
}

} // verus!
