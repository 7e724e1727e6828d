//! What `rosco` says about a setup: what it found, and what to do next.
use vstd::prelude::*;
use vstd::string::*;

use crate::builder;
use crate::builder::command_names;
use crate::config;
use crate::config::{Config, ProjectKind, Target, Toolchain};
use crate::init::{EmulatorSetup, ProjectPlan};
use crate::serial::PortSummary;
use crate::text;
use crate::text::{cat, decimal, is_among, join, push_all, push_text};
use crate::toolchain;
use crate::toolchain::{required, Tool};

verus! {

/// What was found out about the emulator.
pub enum EmulatorFinding {
    /// A build on this computer, and whether it runs.
    Program { name: String, runs: bool },
    /// Its image, and whether it is here.
    Image { name: String, pulled: bool },
    Failed(String),
}

/// What was found out about the per-user settings.
pub enum SettingsFinding {
    There(String),
    NotYet(String),
    Failed(String),
}

/// What was found out about this computer.
pub struct Findings {
    /// What is wrong with Docker, if anything.
    pub docker: Option<String>,
    /// Whether the toolchain image is here.
    pub image_pulled: bool,
    /// The programs that can be started.
    pub available: Vec<String>,
    /// What would install the board's toolchain.
    pub hint: Option<String>,
    pub emulator: EmulatorFinding,
    pub settings: SettingsFinding,
    /// The serial ports, or why they could not be listed.
    pub ports: Result<Vec<PortSummary>, String>,
}

/// The line about something that is there or not.
pub open spec fn check_line(label: Seq<char>, program: Seq<char>, available: bool) -> Seq<char> {
    (if available {
        "[ OK ] "@
    } else {
        "[WARN] "@
    }) + label + ": "@ + program
}

/// The line about something that is there or not.
pub fn print_check(label: &str, program: &str, available: bool) -> (line: String)
    ensures
        line@ == check_line(label@, program@, available),
{
    let mut line = if available {
        cat("[ OK ] ", label)
    } else {
        cat("[WARN] ", label)
    };
    line.append(": ");
    line.append(program);
    line
}

/// The lines about Docker and the toolchain image.
pub open spec fn docker_lines(config: Config, findings: Findings) -> Seq<Seq<char>> {
    match findings.docker {
        Some(error) => seq!["[WARN] Docker: "@ + error@],
        None => if findings.image_pulled {
            seq![
                check_line("Docker"@, "docker"@, true),
                check_line("toolchain image"@, config.build.docker.image@, true),
            ]
        } else {
            seq![
                check_line("Docker"@, "docker"@, true),
                check_line("toolchain image"@, config.build.docker.image@, false),
                "[ -- ] the image is pulled on the first build"@,
            ]
        },
    }
}

/// The lines about the first of the programs that a build calls.
pub open spec fn tool_lines(
    tools: Seq<(Seq<char>, Seq<char>)>,
    available: Seq<Seq<char>>,
) -> Seq<Seq<char>> {
    Seq::new(
        tools.len(),
        |i: int| check_line(tools[i].1, tools[i].0, available.contains(tools[i].0)),
    )
}

/// The line about what would install them, where one is not there.
pub open spec fn hint_lines(
    tools: Seq<(Seq<char>, Seq<char>)>,
    available: Seq<Seq<char>>,
    hint: Option<String>,
) -> Seq<Seq<char>> {
    match hint {
        Some(hint) => if toolchain::tools_missing(tools, available, tools.len()).len() > 0 {
            seq!["[ -- ] a build on this computer needs: "@ + hint@]
        } else {
            Seq::empty()
        },
        None => Seq::empty(),
    }
}

/// The lines about the emulator.
pub open spec fn emulator_lines(finding: EmulatorFinding) -> Seq<Seq<char>> {
    match finding {
        EmulatorFinding::Program { name, runs } => seq![check_line("emulator"@, name@, runs)],
        EmulatorFinding::Image { name, pulled } => if pulled {
            seq![check_line("emulator image"@, name@, true)]
        } else {
            seq![
                check_line("emulator image"@, name@, false),
                "[ -- ] the image is pulled on the first emulator run"@,
            ]
        },
        EmulatorFinding::Failed(error) => seq!["[WARN] emulator: "@ + error@],
    }
}

/// The line about the per-user settings.
pub open spec fn settings_line(finding: SettingsFinding) -> Seq<char> {
    match finding {
        SettingsFinding::There(path) => check_line("user settings"@, path@, true),
        SettingsFinding::NotYet(path) => "[ -- ] user settings: "@ + path@ + " (not created yet)"@,
        SettingsFinding::Failed(error) => "[WARN] user settings: "@ + error@,
    }
}

/// How many of the first ports are USB ones.
pub open spec fn usb_count(ports: Seq<PortSummary>, count: nat) -> nat
    decreases count,
{
    if count == 0 || count > ports.len() {
        0
    } else {
        usb_count(ports, (count - 1) as nat) + if ports[count - 1].is_usb {
            1nat
        } else {
            0
        }
    }
}

/// The line about the serial ports.
pub open spec fn ports_line(ports: Result<Vec<PortSummary>, String>) -> Seq<char> {
    match ports {
        Ok(ports) => if ports@.len() == 0 {
            "[WARN] UART: no serial ports found"@
        } else if usb_count(ports@, ports@.len()) == 0 {
            "[WARN] UART: no USB serial ports found ("@ + text::digits(ports@.len())
                + " non-USB port(s) ignored)"@
        } else {
            "[ OK ] UART: "@ + text::digits(usb_count(ports@, ports@.len()))
                + " USB serial port(s) found"@
        },
        Err(error) => "[WARN] UART: "@ + error@,
    }
}

/// Everything that `rosco doctor` prints.
pub open spec fn examination(config: Config, findings: Findings) -> Seq<Seq<char>> {
    let tools = toolchain::required_tools(config.project.board);
    let available = text::views(findings.available@);
    seq![
        "[ -- ] project: "@ + config::board_word(config.project.board) + ", built with the "@
            + config::toolchain_word(config.build.toolchain) + " toolchain"@,
    ] + docker_lines(config, findings) + tool_lines(tools, available) + hint_lines(
        tools,
        available,
        findings.hint,
    ) + emulator_lines(findings.emulator) + seq![
        settings_line(findings.settings),
        ports_line(findings.ports),
    ]
}

fn docker_report(config: &Config, findings: &Findings) -> (lines: Vec<String>)
    ensures
        text::views(lines@) == docker_lines(*config, *findings),
{
    let mut lines: Vec<String> = Vec::new();
    match &findings.docker {
        Some(error) => {
            push_text(&mut lines, cat("[WARN] Docker: ", error.as_str()).as_str());
        },
        None => {
            let image = config.build.docker.image.as_str();
            push_text(&mut lines, print_check("Docker", "docker", true).as_str());
            push_text(
                &mut lines,
                print_check("toolchain image", image, findings.image_pulled).as_str(),
            );
            if !findings.image_pulled {
                push_text(&mut lines, "[ -- ] the image is pulled on the first build");
            }
        },
    }
    assert(text::views(lines@) == docker_lines(*config, *findings));
    lines
}

fn tools_report(config: &Config, findings: &Findings) -> (lines: Vec<String>)
    ensures
        text::views(lines@) == tool_lines(
            toolchain::required_tools(config.project.board),
            text::views(findings.available@),
        ) + hint_lines(
            toolchain::required_tools(config.project.board),
            text::views(findings.available@),
            findings.hint,
        ),
{
    let tools = required(config.project.board);
    let ghost all = toolchain::required_tools(config.project.board);
    let ghost here = text::views(findings.available@);
    let mut lines: Vec<String> = Vec::new();
    for i in 0..tools.len()
        invariant
            all == toolchain::tool_views(tools@),
            here == text::views(findings.available@),
            text::views(lines@) == tool_lines(all, here).take(i as int),
    {
        assert(all[i as int] == (tools@[i as int].command@, tools@[i as int].purpose@));
        let available: bool = is_among(tools[i].command, &findings.available);
        push_text(
            &mut lines,
            print_check(tools[i].purpose, tools[i].command, available).as_str(),
        );
        assert(text::views(lines@) == tool_lines(all, here).take(i + 1));
    }
    assert(tools@.len() == all.len());
    assert(tool_lines(all, here).take(all.len() as int) == tool_lines(all, here));
    let missing = toolchain::missing(config.project.board, &findings.available);
    let ghost absent = toolchain::tools_missing(all, here, all.len());
    assert(missing@.len() == absent.len());
    let ghost before = text::views(lines@);
    if let Some(hint) = &findings.hint {
        if missing.len() > 0 {
            push_text(
                &mut lines,
                cat("[ -- ] a build on this computer needs: ", hint.as_str()).as_str(),
            );
        }
    }
    assert(text::views(lines@) == before + hint_lines(all, here, findings.hint));
    lines
}

fn emulator_report(finding: &EmulatorFinding) -> (lines: Vec<String>)
    ensures
        text::views(lines@) == emulator_lines(*finding),
{
    let mut lines: Vec<String> = Vec::new();
    match finding {
        EmulatorFinding::Program { name, runs } => {
            push_text(&mut lines, print_check("emulator", name.as_str(), *runs).as_str());
        },
        EmulatorFinding::Image { name, pulled } => {
            push_text(
                &mut lines,
                print_check("emulator image", name.as_str(), *pulled).as_str(),
            );
            if !*pulled {
                push_text(&mut lines, "[ -- ] the image is pulled on the first emulator run");
            }
        },
        EmulatorFinding::Failed(error) => {
            push_text(&mut lines, cat("[WARN] emulator: ", error.as_str()).as_str());
        },
    }
    assert(text::views(lines@) == emulator_lines(*finding));
    lines
}

fn settings_report(finding: &SettingsFinding) -> (line: String)
    ensures
        line@ == settings_line(*finding),
{
    match finding {
        SettingsFinding::There(path) => print_check("user settings", path.as_str(), true),
        SettingsFinding::NotYet(path) => {
            let mut line = cat("[ -- ] user settings: ", path.as_str());
            line.append(" (not created yet)");
            line
        },
        SettingsFinding::Failed(error) => cat("[WARN] user settings: ", error.as_str()),
    }
}

fn ports_report(ports: &Result<Vec<PortSummary>, String>) -> (line: String)
    ensures
        line@ == ports_line(*ports),
{
    match ports {
        Ok(ports) => {
            if ports.len() == 0 {
                return "[WARN] UART: no serial ports found".to_owned();
            }
            let mut count: usize = 0;
            for i in 0..ports.len()
                invariant
                    count == usb_count(ports@, i as nat),
                    count <= i,
            {
                if ports[i].is_usb {
                    count = count + 1;
                }
            }
            if count == 0 {
                let mut line = cat(
                    "[WARN] UART: no USB serial ports found (",
                    decimal(ports.len() as u64).as_str(),
                );
                line.append(" non-USB port(s) ignored)");
                line
            } else {
                let mut line = cat("[ OK ] UART: ", decimal(count as u64).as_str());
                line.append(" USB serial port(s) found");
                line
            }
        },
        Err(error) => cat("[WARN] UART: ", error.as_str()),
    }
}

/// What was found out about this computer, line by line.
pub fn doctor(config: &Config, findings: &Findings) -> (lines: Vec<String>)
    ensures
        text::views(lines@) == examination(*config, *findings),
{
    let mut first = cat("[ -- ] project: ", config.project.board.label());
    first.append(", built with the ");
    first.append(config.build.toolchain.label());
    first.append(" toolchain");
    let mut lines: Vec<String> = Vec::new();
    push_text(&mut lines, first.as_str());
    assert(text::views(lines@) == seq![
        "[ -- ] project: "@ + config::board_word(config.project.board) + ", built with the "@
            + config::toolchain_word(config.build.toolchain) + " toolchain"@,
    ]);
    push_all(&mut lines, &docker_report(config, findings));
    let ghost before = text::views(lines@);
    push_all(&mut lines, &tools_report(config, findings));
    let ghost tools = toolchain::required_tools(config.project.board);
    let ghost here = text::views(findings.available@);
    assert(text::views(lines@) == before + tool_lines(tools, here) + hint_lines(
        tools,
        here,
        findings.hint,
    ));
    push_all(&mut lines, &emulator_report(&findings.emulator));
    let ghost before = text::views(lines@);
    push_text(&mut lines, settings_report(&findings.settings).as_str());
    push_text(&mut lines, ports_report(&findings.ports).as_str());
    assert(text::views(lines@) == before + seq![
        settings_line(findings.settings),
        ports_line(findings.ports),
    ]);
    lines
}

/// What is said of compilers that a new project needs and are not there.
pub open spec fn missing_lines(
    plan: ProjectPlan,
    missing: Seq<Tool>,
    hint: Option<String>,
) -> Seq<Seq<char>> {
    if plan.toolchain == Toolchain::Docker || missing.len() == 0 {
        Seq::empty()
    } else {
        seq![
            Seq::empty(),
            "Not on PATH yet: "@ + text::joined(builder::commands(missing), ", "@),
        ] + (match hint {
            Some(hint) => seq!["  "@ + hint@],
            None => Seq::empty(),
        })
    }
}

/// What is said of an emulator that a new project names and is not there.
pub open spec fn absent_emulator_lines(setup: EmulatorSetup, present: bool) -> Seq<Seq<char>> {
    match setup {
        EmulatorSetup::Program(path) => if present {
            Seq::empty()
        } else {
            seq![
                Seq::empty(),
                "No emulator at "@ + path@ + " yet."@,
                "  `rosco config set --local emulator.program <path>` points the project at one."@,
            ]
        },
        _ => Seq::empty(),
    }
}

/// What to type next.
pub open spec fn command_lines(plan: ProjectPlan, name: Seq<char>) -> Seq<Seq<char>> {
    seq![Seq::empty(), "Next:"@, "  cd "@ + name] + (match (plan.kind, plan.target) {
        (ProjectKind::Firmware, _) => seq![
            "  rosco run                        # boots the machine on your ROM"@,
            Seq::empty(),
            "A board reads its firmware from a ROM chip, so this one runs in the"@,
            "emulator. Burning the image to an EEPROM is what puts it on hardware."@,
        ],
        (ProjectKind::Program, Target::Emulator) => seq!["  rosco run"@],
        (ProjectKind::Program, Target::Hardware) => seq![
            "  rosco run --port /dev/ttyUSB0    # or COM3 on Windows"@,
            "  rosco run --emulator             # with no board on the desk"@,
        ],
    })
}

/// The two or three commands that take a new project somewhere, and what is
/// worth saying before them. `missing` is what the board's build calls and
/// cannot be started, `present` whether the recorded emulator is there.
pub fn report_next_steps(
    plan: &ProjectPlan,
    name: &str,
    missing: &Vec<Tool>,
    hint: &Option<String>,
    present: bool,
) -> (lines: Vec<String>)
    ensures
        text::views(lines@) == missing_lines(*plan, missing@, *hint) + absent_emulator_lines(
            plan.emulator,
            present,
        ) + command_lines(*plan, name@),
{
    proof {
        reveal_strlit("");
        assert(""@ == Seq::<char>::empty());
    }
    let mut lines: Vec<String> = Vec::new();
    if plan.toolchain == Toolchain::Host && missing.len() > 0 {
        push_text(&mut lines, "");
        let names = join(&command_names(missing), ", ");
        push_text(&mut lines, cat("Not on PATH yet: ", names.as_str()).as_str());
        if let Some(hint) = hint {
            push_text(&mut lines, cat("  ", hint.as_str()).as_str());
        }
    }
    assert(text::views(lines@) == missing_lines(*plan, missing@, *hint));
    let ghost before = text::views(lines@);
    if let EmulatorSetup::Program(path) = &plan.emulator {
        if !present {
            push_text(&mut lines, "");
            let mut line = cat("No emulator at ", path.as_str());
            line.append(" yet.");
            push_text(&mut lines, line.as_str());
            push_text(
                &mut lines,
                "  `rosco config set --local emulator.program <path>` points the project at one.",
            );
        }
    }
    assert(text::views(lines@) == before + absent_emulator_lines(plan.emulator, present));
    push_all(&mut lines, &next_commands(plan, name));
    lines
}

fn next_commands(plan: &ProjectPlan, name: &str) -> (lines: Vec<String>)
    ensures
        text::views(lines@) == command_lines(*plan, name@),
{
    proof {
        reveal_strlit("");
        assert(""@ == Seq::<char>::empty());
    }
    let mut lines: Vec<String> = Vec::new();
    push_text(&mut lines, "");
    push_text(&mut lines, "Next:");
    push_text(&mut lines, cat("  cd ", name).as_str());
    match (plan.kind, plan.target) {
        (ProjectKind::Firmware, _) => {
            push_text(
                &mut lines,
                "  rosco run                        # boots the machine on your ROM",
            );
            push_text(&mut lines, "");
            push_text(
                &mut lines,
                "A board reads its firmware from a ROM chip, so this one runs in the",
            );
            push_text(
                &mut lines,
                "emulator. Burning the image to an EEPROM is what puts it on hardware.",
            );
        },
        (ProjectKind::Program, Target::Emulator) => {
            push_text(&mut lines, "  rosco run");
        },
        (ProjectKind::Program, Target::Hardware) => {
            push_text(&mut lines, "  rosco run --port /dev/ttyUSB0    # or COM3 on Windows");
            push_text(&mut lines, "  rosco run --emulator             # with no board on the desk");
        },
    }
    assert(text::views(lines@) == command_lines(*plan, name@));
    lines
}

/// Whether a line warns of something.
pub open spec fn warns(line: Seq<char>) -> bool {
    "[WARN] "@.is_prefix_of(line)
}

/// Whether one of some lines does.
pub open spec fn warned(lines: Seq<Seq<char>>) -> bool {
    exists|i: int| 0 <= i < lines.len() && warns(#[trigger] lines[i])
}

proof fn lemma_warned(first: Seq<Seq<char>>, second: Seq<Seq<char>>)
    ensures
        warned(first + second) <==> warned(first) || warned(second),
{
    let both = first + second;
    if warned(first) {
        let i = choose|i: int| 0 <= i < first.len() && warns(#[trigger] first[i]);
        assert(both[i] == first[i]);
    }
    if warned(second) {
        let i = choose|i: int| 0 <= i < second.len() && warns(#[trigger] second[i]);
        assert(both[first.len() + i] == second[i]);
    }
    if warned(both) {
        let i = choose|i: int| 0 <= i < both.len() && warns(#[trigger] both[i]);
        if i < first.len() {
            assert(warns(first[i]));
        } else {
            assert(warns(second[i - first.len()]));
        }
    }
}

proof fn lemma_line(start: Seq<char>, rest: Seq<char>)
    requires
        start.len() == 7,
    ensures
        warns(start + rest) <==> start == "[WARN] "@,
{
    reveal_strlit("[WARN] ");
    assert((start + rest).take(7) == start);
}

proof fn lemma_check(label: Seq<char>, program: Seq<char>, available: bool)
    ensures
        warns(check_line(label, program, available)) <==> !available,
{
    reveal_strlit("[ OK ] ");
    reveal_strlit("[WARN] ");
    let rest = label + ": "@ + program;
    assert("[ OK ] "@[1] != "[WARN] "@[1]);
    if available {
        assert(check_line(label, program, available) == "[ OK ] "@ + rest);
        lemma_line("[ OK ] "@, rest);
    } else {
        assert(check_line(label, program, available) == "[WARN] "@ + rest);
        lemma_line("[WARN] "@, rest);
    }
}

proof fn lemma_remark(line: Seq<char>)
    requires
        line.len() >= 7,
        line[1] == ' ',
    ensures
        !warns(line),
{
    reveal_strlit("[WARN] ");
    assert("[WARN] "@[1] == 'W');
    if warns(line) {
        assert(line.take(7)[1] == line[1]);
    }
}

proof fn lemma_one_line(line: Seq<char>)
    ensures
        warned(seq![line]) <==> warns(line),
{
    let lines = seq![line];
    assert(lines[0] == line);
}

proof fn lemma_docker_warned(config: Config, findings: Findings)
    ensures
        warned(docker_lines(config, findings)) <==> findings.docker is Some
            || !findings.image_pulled,
{
    let lines = docker_lines(config, findings);
    match findings.docker {
        Some(error) => {
            reveal_strlit("[WARN] Docker: ");
            reveal_strlit("[WARN] ");
            let line = "[WARN] Docker: "@ + error@;
            assert(line.take(7) == "[WARN] "@);
            assert(lines[0] == line);
        },
        None => {
            let docker = check_line("Docker"@, "docker"@, true);
            let image = check_line(
                "toolchain image"@,
                config.build.docker.image@,
                findings.image_pulled,
            );
            let remark = "[ -- ] the image is pulled on the first build"@;
            reveal_strlit("[ -- ] the image is pulled on the first build");
            lemma_check("Docker"@, "docker"@, true);
            lemma_check("toolchain image"@, config.build.docker.image@, findings.image_pulled);
            lemma_remark(remark);
            assert(lines[0] == docker);
            assert(lines[1] == image);
            assert(!findings.image_pulled ==> lines.len() == 3 && lines[2] == remark);
        },
    }
}

proof fn lemma_tools_warned(
    tools: Seq<(Seq<char>, Seq<char>)>,
    available: Seq<Seq<char>>,
    hint: Option<String>,
)
    ensures
        warned(tool_lines(tools, available)) <==> exists|i: int|
            0 <= i < tools.len() && !available.contains((#[trigger] tools[i]).0),
        !warned(hint_lines(tools, available, hint)),
{
    let lines = tool_lines(tools, available);
    assert forall|i: int| 0 <= i < tools.len() implies (warns(lines[i]) <==> !available.contains(
        (#[trigger] tools[i]).0,
    )) by {
        lemma_check(tools[i].1, tools[i].0, available.contains(tools[i].0));
        assert(lines[i] == check_line(tools[i].1, tools[i].0, available.contains(tools[i].0)));
    }
    if warned(lines) {
        let i = choose|i: int| 0 <= i < lines.len() && warns(#[trigger] lines[i]);
        assert(!available.contains(tools[i].0));
    }
    if exists|i: int| 0 <= i < tools.len() && !available.contains((#[trigger] tools[i]).0) {
        let i = choose|i: int|
            0 <= i < tools.len() && !available.contains((#[trigger] tools[i]).0);
        assert(warns(lines[i]));
    }
    if let Some(hint) = hint {
        reveal_strlit("[ -- ] a build on this computer needs: ");
        lemma_remark("[ -- ] a build on this computer needs: "@ + hint@);
    }
}

proof fn lemma_emulator_warned(finding: EmulatorFinding)
    ensures
        warned(emulator_lines(finding)) <==> match finding {
            EmulatorFinding::Program { runs, .. } => !runs,
            EmulatorFinding::Image { pulled, .. } => !pulled,
            EmulatorFinding::Failed(_) => true,
        },
{
    let lines = emulator_lines(finding);
    match finding {
        EmulatorFinding::Program { name, runs } => {
            lemma_check("emulator"@, name@, runs);
            lemma_one_line(check_line("emulator"@, name@, runs));
        },
        EmulatorFinding::Image { name, pulled } => {
            let image = check_line("emulator image"@, name@, pulled);
            lemma_check("emulator image"@, name@, pulled);
            lemma_one_line(image);
            if !pulled {
                assert(lines[0] == image);
            }
        },
        EmulatorFinding::Failed(error) => {
            reveal_strlit("[WARN] emulator: ");
            reveal_strlit("[WARN] ");
            let line = "[WARN] emulator: "@ + error@;
            assert(line.take(7) == "[WARN] "@);
            lemma_one_line(line);
        },
    }
}

proof fn lemma_settings_warned(finding: SettingsFinding)
    ensures
        warns(settings_line(finding)) <==> finding is Failed,
{
    match finding {
        SettingsFinding::There(path) => {
            lemma_check("user settings"@, path@, true);
        },
        SettingsFinding::NotYet(path) => {
            reveal_strlit("[ -- ] user settings: ");
            lemma_remark(settings_line(finding));
        },
        SettingsFinding::Failed(error) => {
            reveal_strlit("[WARN] user settings: ");
            reveal_strlit("[WARN] ");
            assert(settings_line(finding).take(7) == "[WARN] "@);
        },
    }
}

proof fn lemma_usb_count(ports: Seq<PortSummary>, count: nat)
    requires
        count <= ports.len(),
    ensures
        usb_count(ports, count) > 0 <==> exists|i: int|
            0 <= i < count && (#[trigger] ports[i]).is_usb,
    decreases count,
{
    if count > 0 {
        lemma_usb_count(ports, (count - 1) as nat);
        if ports[count - 1].is_usb {
            assert(usb_count(ports, count) > 0);
        }
    }
}

proof fn lemma_ports_warned(ports: Result<Vec<PortSummary>, String>)
    ensures
        warns(ports_line(ports)) <==> !(ports matches Ok(list) && exists|i: int|
            0 <= i < list@.len() && (#[trigger] list@[i]).is_usb),
{
    let line = ports_line(ports);
    reveal_strlit("[WARN] ");
    reveal_strlit("[WARN] UART: no serial ports found");
    reveal_strlit("[WARN] UART: no USB serial ports found (");
    reveal_strlit("[WARN] UART: ");
    reveal_strlit("[ OK ] UART: ");
    match ports {
        Ok(list) => {
            lemma_usb_count(list@, list@.len());
            if usb_count(list@, list@.len()) > 0 {
                lemma_remark(line);
            } else {
                assert(line.take(7) == "[WARN] "@);
            }
        },
        Err(error) => {
            assert(line.take(7) == "[WARN] "@);
        },
    }
}

/// `doctor` warns of something exactly where something is amiss: Docker, an
/// image that is not here, a program that a build calls and cannot be started,
/// the emulator, settings that cannot be read, or no USB port.
pub proof fn what_is_amiss_is_warned_of(config: Config, findings: Findings, lines: Vec<String>)
    requires
        call_ensures(doctor, (&config, &findings), lines),
    ensures
        warned(text::views(lines@)) <==> {
            ||| findings.docker is Some
            ||| !findings.image_pulled
            ||| exists|i: int|
                0 <= i < toolchain::required_tools(config.project.board).len() && !text::views(
                    findings.available@,
                ).contains((#[trigger] toolchain::required_tools(config.project.board)[i]).0)
            ||| findings.emulator matches EmulatorFinding::Program { runs, .. } && !runs
            ||| findings.emulator matches EmulatorFinding::Image { pulled, .. } && !pulled
            ||| findings.emulator is Failed
            ||| findings.settings is Failed
            ||| !(findings.ports matches Ok(list) && exists|i: int|
                0 <= i < list@.len() && (#[trigger] list@[i]).is_usb)
        },
{
    let tools = toolchain::required_tools(config.project.board);
    let available = text::views(findings.available@);
    let first = "[ -- ] project: "@ + config::board_word(config.project.board)
        + ", built with the "@ + config::toolchain_word(config.build.toolchain) + " toolchain"@;
    reveal_strlit("[ -- ] project: ");
    lemma_remark(first);
    lemma_one_line(first);
    let docker = docker_lines(config, findings);
    let called = tool_lines(tools, available);
    let hinted = hint_lines(tools, available, findings.hint);
    let emulated = emulator_lines(findings.emulator);
    let settled = settings_line(findings.settings);
    let ported = ports_line(findings.ports);
    lemma_docker_warned(config, findings);
    lemma_tools_warned(tools, available, findings.hint);
    lemma_emulator_warned(findings.emulator);
    lemma_settings_warned(findings.settings);
    lemma_ports_warned(findings.ports);
    lemma_one_line(settled);
    lemma_one_line(ported);
    lemma_warned(seq![settled], seq![ported]);
    assert(seq![settled, ported] == seq![settled] + seq![ported]);
    lemma_warned(seq![first], docker);
    lemma_warned(seq![first] + docker, called);
    lemma_warned(seq![first] + docker + called, hinted);
    lemma_warned(seq![first] + docker + called + hinted, emulated);
    lemma_warned(
        seq![first] + docker + called + hinted + emulated,
        seq![settled] + seq![ported],
    );
}

/// The ports that are USB ones, in the order they come in.
pub open spec fn usb_ports(ports: Seq<PortSummary>) -> Seq<PortSummary> {
    ports.filter(|port: PortSummary| port.is_usb)
}

proof fn lemma_usb_ports(ports: Seq<PortSummary>, count: nat)
    requires
        count <= ports.len(),
    ensures
        usb_count(ports, count) == usb_ports(ports.take(count as int)).len(),
    decreases count,
{
    let some = ports.take(count as int);
    reveal(Seq::filter);
    if count > 0 {
        lemma_usb_ports(ports, (count - 1) as nat);
        assert(some.drop_last() == ports.take(count - 1));
        assert(some.last() == ports[count - 1]);
    } else {
        assert(some.len() == 0);
    }
}

/// `doctor` ends with how many USB ports there are, where there are any.
pub proof fn the_usb_ports_are_counted(
    config: Config,
    findings: Findings,
    ports: Vec<PortSummary>,
    lines: Vec<String>,
)
    requires
        call_ensures(doctor, (&config, &findings), lines),
        findings.ports == Ok::<Vec<PortSummary>, String>(ports),
        usb_ports(ports@).len() > 0,
    ensures
        lines@.len() > 0,
        lines@[lines@.len() - 1]@ == "[ OK ] UART: "@ + text::digits(usb_ports(ports@).len())
            + " USB serial port(s) found"@,
{
    let shown = text::views(lines@);
    lemma_usb_ports(ports@, ports@.len());
    assert(ports@.take(ports@.len() as int) == ports@);
    assert(ports@.len() > 0) by {
        if ports@.len() == 0 {
            reveal(Seq::filter);
        }
    }
    assert(shown.last() == ports_line(findings.ports));
    assert(shown[shown.len() - 1] == lines@[lines@.len() - 1]@);
}

/// Whether one of some lines starts in a way.
pub open spec fn one_starts(lines: Seq<Seq<char>>, start: Seq<char>) -> bool {
    exists|i: int| 0 <= i < lines.len() && start.is_prefix_of(#[trigger] lines[i])
}

proof fn lemma_one_starts(first: Seq<Seq<char>>, second: Seq<Seq<char>>, start: Seq<char>)
    ensures
        one_starts(first + second, start) <==> one_starts(first, start) || one_starts(
            second,
            start,
        ),
{
    let both = first + second;
    if one_starts(first, start) {
        let i = choose|i: int| 0 <= i < first.len() && start.is_prefix_of(#[trigger] first[i]);
        assert(both[i] == first[i]);
    }
    if one_starts(second, start) {
        let i = choose|i: int| 0 <= i < second.len() && start.is_prefix_of(#[trigger] second[i]);
        assert(both[first.len() + i] == second[i]);
    }
    if one_starts(both, start) {
        let i = choose|i: int| 0 <= i < both.len() && start.is_prefix_of(#[trigger] both[i]);
        if i < first.len() {
            assert(start.is_prefix_of(first[i]));
        } else {
            assert(start.is_prefix_of(second[i - first.len()]));
        }
    }
}

proof fn lemma_none_starts(lines: Seq<Seq<char>>, start: Seq<char>)
    requires
        start.len() > 2,
        start[0] == 'N',
        start[1] == 'o',
        forall|i: int|
            0 <= i < lines.len() ==> (#[trigger] lines[i]).len() < 2 || lines[i][0] != 'N'
                || lines[i][1] != 'o',
    ensures
        !one_starts(lines, start),
{
    if one_starts(lines, start) {
        let i = choose|i: int| 0 <= i < lines.len() && start.is_prefix_of(#[trigger] lines[i]);
        let line = lines[i];
        assert(line.take(start.len() as int)[0] == line[0]);
        assert(line.take(start.len() as int)[1] == line[1]);
    }
}

proof fn lemma_commands_start(plan: ProjectPlan, name: Seq<char>, start: Seq<char>)
    requires
        start.len() > 2,
        start[0] == 'N',
        start[1] == 'o',
    ensures
        !one_starts(command_lines(plan, name), start),
{
    let lines = command_lines(plan, name);
    reveal_strlit("Next:");
    reveal_strlit("  cd ");
    reveal_strlit("  rosco run                        # boots the machine on your ROM");
    reveal_strlit("A board reads its firmware from a ROM chip, so this one runs in the");
    reveal_strlit("emulator. Burning the image to an EEPROM is what puts it on hardware.");
    reveal_strlit("  rosco run");
    reveal_strlit("  rosco run --port /dev/ttyUSB0    # or COM3 on Windows");
    reveal_strlit("  rosco run --emulator             # with no board on the desk");
    assert(lines[0].len() == 0);
    assert(lines[1][1] == 'e');
    assert(lines[2] == "  cd "@ + name);
    assert(lines[2][0] == ' ');
    assert(lines[3][0] == ' ');
    assert(lines.len() > 4 ==> lines[4].len() == 0 || lines[4][0] == ' ');
    assert(lines.len() > 5 ==> lines[5][0] == 'A');
    assert(lines.len() > 6 ==> lines[6][0] == 'e');
    lemma_none_starts(lines, start);
}

/// A new project's compilers are spoken of only where it is built with those on
/// this computer and one of them is missing, and its emulator only where it
/// names one that is not there.
pub proof fn only_what_is_missing_is_spoken_of(
    plan: &ProjectPlan,
    name: &str,
    missing: &Vec<Tool>,
    hint: &Option<String>,
    present: bool,
    lines: Vec<String>,
)
    requires
        call_ensures(report_next_steps, (plan, name, missing, hint, present), lines),
    ensures
        one_starts(text::views(lines@), "Not on PATH yet: "@) <==> plan.toolchain
            == Toolchain::Host && missing@.len() > 0,
        one_starts(text::views(lines@), "No emulator at "@) <==> plan.emulator is Program
            && !present,
{
    let first = missing_lines(*plan, missing@, *hint);
    let second = absent_emulator_lines(plan.emulator, present);
    let third = command_lines(*plan, name@);
    let path_start = "Not on PATH yet: "@;
    let emulator_start = "No emulator at "@;
    reveal_strlit("Not on PATH yet: ");
    reveal_strlit("No emulator at ");
    lemma_commands_start(*plan, name@, path_start);
    lemma_commands_start(*plan, name@, emulator_start);
    lemma_missing_start(*plan, missing@, *hint);
    lemma_absent_start(plan.emulator, present);
    lemma_one_starts(first, second, path_start);
    lemma_one_starts(first + second, third, path_start);
    lemma_one_starts(first, second, emulator_start);
    lemma_one_starts(first + second, third, emulator_start);
}

proof fn lemma_missing_start(plan: ProjectPlan, missing: Seq<Tool>, hint: Option<String>)
    ensures
        one_starts(missing_lines(plan, missing, hint), "Not on PATH yet: "@) <==> plan.toolchain
            == Toolchain::Host && missing.len() > 0,
        !one_starts(missing_lines(plan, missing, hint), "No emulator at "@),
{
    let lines = missing_lines(plan, missing, hint);
    reveal_strlit("Not on PATH yet: ");
    reveal_strlit("No emulator at ");
    reveal_strlit("  ");
    if plan.toolchain == Toolchain::Host && missing.len() > 0 {
        let tools = text::joined(builder::commands(missing), ", "@);
        let line = "Not on PATH yet: "@ + tools;
        assert(lines[1] == line);
        assert(line.take(17) == "Not on PATH yet: "@);
        if one_starts(lines, "No emulator at "@) {
            let i = choose|i: int|
                0 <= i < lines.len() && "No emulator at "@.is_prefix_of(#[trigger] lines[i]);
            let found = lines[i].take(15);
            assert(found[2] == lines[i][2]);
            assert(found[0] == lines[i][0]);
            assert(i == 0 || i == 1 || i == 2);
            assert("No emulator at "@[2] == ' ' && line[2] == 't');
            if i == 2 {
                assert(lines[2][0] == ' ');
            }
        }
    }
}

proof fn lemma_absent_start(setup: EmulatorSetup, present: bool)
    ensures
        one_starts(absent_emulator_lines(setup, present), "No emulator at "@) <==> setup is Program
            && !present,
        !one_starts(absent_emulator_lines(setup, present), "Not on PATH yet: "@),
{
    let lines = absent_emulator_lines(setup, present);
    reveal_strlit("Not on PATH yet: ");
    reveal_strlit("No emulator at ");
    reveal_strlit("  `rosco config set --local emulator.program <path>` points the project at one.");
    if setup is Program && !present {
        let line = "No emulator at "@ + setup->Program_0@ + " yet."@;
        assert(lines[1] == line);
        assert(line.take(15) == "No emulator at "@);
        if one_starts(lines, "Not on PATH yet: "@) {
            let i = choose|i: int|
                0 <= i < lines.len() && "Not on PATH yet: "@.is_prefix_of(#[trigger] lines[i]);
            let found = lines[i].take(17);
            assert(found[2] == lines[i][2]);
            assert(found[0] == lines[i][0]);
            assert(i == 0 || i == 1 || i == 2);
            assert("Not on PATH yet: "@[2] == 't' && line[2] == ' ');
            if i == 2 {
                assert(lines[2][0] == ' ');
            }
        }
    }
}

/// What would install the compilers is said where one of them is missing, and
/// changes nothing anywhere else.
pub proof fn a_hint_is_given_where_it_helps(
    config: Config,
    findings: Findings,
    others: Findings,
    hint: String,
    absent: Vec<Tool>,
    lines: Vec<String>,
    without: Vec<String>,
)
    requires
        findings.docker == others.docker,
        findings.image_pulled == others.image_pulled,
        findings.available == others.available,
        findings.emulator == others.emulator,
        findings.settings == others.settings,
        findings.ports == others.ports,
        findings.hint == Some(hint),
        others.hint is None,
        call_ensures(
            toolchain::missing,
            (config.project.board, &findings.available),
            absent,
        ),
        call_ensures(doctor, (&config, &findings), lines),
        call_ensures(doctor, (&config, &others), without),
    ensures
        absent@.len() == 0 ==> text::views(lines@) == text::views(without@),
        absent@.len() > 0 ==> lines@.len() == without@.len() + 1 && text::views(lines@).contains(
            "[ -- ] a build on this computer needs: "@ + hint@,
        ),
{
    let tools = toolchain::required_tools(config.project.board);
    let available = text::views(findings.available@);
    let missing = toolchain::tools_missing(tools, available, tools.len());
    assert(toolchain::tool_views(absent@).len() == absent@.len());
    let first = "[ -- ] project: "@ + config::board_word(config.project.board)
        + ", built with the "@ + config::toolchain_word(config.build.toolchain) + " toolchain"@;
    let start = seq![first] + docker_lines(config, findings) + tool_lines(tools, available);
    let end = seq![settings_line(findings.settings), ports_line(findings.ports)];
    let hinted = hint_lines(tools, available, findings.hint);
    let shown = text::views(lines@);
    let plain = text::views(without@);
    assert(shown == start + hinted + emulator_lines(findings.emulator) + end);
    assert(plain == start + Seq::<Seq<char>>::empty() + emulator_lines(findings.emulator) + end);
    assert(shown.len() == lines@.len() && plain.len() == without@.len());
    if missing.len() > 0 {
        assert(shown[start.len() as int] == hinted[0]);
    }
}

} // verus!
