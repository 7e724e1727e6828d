//! A new project: what it is made of, and the answers that led to it.
use vstd::prelude::*;
use vstd::string::*;

use crate::cli;
use crate::cli::ProjectLanguage;
use crate::config;
use crate::config::{
    Board, EmulatorSource, Environment, Host, ProjectKind, Target, Toolchain,
};
use crate::document;
use crate::document::{read_table, toml_string, Line};
use crate::path;
use crate::path::{join_path, trim_trailing};
use crate::text;
use crate::text::cat;
use crate::value;
use crate::value::{Node, Section};

verus! {

/// How the project reaches the emulator. The answer is given once here instead
/// of on the end of every command that runs something.
#[derive(Debug)]
pub enum EmulatorSetup {
    /// Nothing is written down: `--emulator-path`, then `ROSCO_EMULATOR`, then
    /// `rosco-emulator` on `PATH` decides each run.
    EachRun,
    /// The emulator image, which needs nothing installed on this computer.
    Docker,
    /// A build of the emulator on this computer, recorded in the project.
    Program(String),
}

impl Default for EmulatorSetup {
    fn default() -> (setup: EmulatorSetup)
        ensures
            setup == EmulatorSetup::EachRun,
    {
        EmulatorSetup::EachRun
    }
}

/// Everything `init` was told or asked about the project it is creating.
#[derive(Debug)]
pub struct ProjectPlan {
    pub board: Board,
    pub kind: ProjectKind,
    pub language: ProjectLanguage,
    pub toolchain: Toolchain,
    pub target: Target,
    pub emulator: EmulatorSetup,
}

/// One phrase about the emulator for the summaries.
pub open spec fn setup_words(setup: EmulatorSetup) -> Seq<char> {
    match setup {
        EmulatorSetup::EachRun => "no emulator saved"@,
        EmulatorSetup::Docker => "docker emulator"@,
        EmulatorSetup::Program(path) => "emulator "@ + path@,
    }
}

impl EmulatorSetup {
    /// One phrase for the summaries `init` prints and offers back. They sit
    /// on one line of a terminal, so they are as short as they can be.
    pub fn summary(&self) -> (words: String)
        ensures
            words@ == setup_words(*self),
    {
        match self {
            EmulatorSetup::EachRun => "no emulator saved".to_owned(),
            EmulatorSetup::Docker => "docker emulator".to_owned(),
            EmulatorSetup::Program(path) => cat("emulator ", path.as_str()),
        }
    }

    /// The same setup again.
    pub fn copied(&self) -> (copy: EmulatorSetup)
        ensures
            copy == *self,
    {
        match self {
            EmulatorSetup::EachRun => EmulatorSetup::EachRun,
            EmulatorSetup::Docker => EmulatorSetup::Docker,
            EmulatorSetup::Program(path) => EmulatorSetup::Program(path.clone()),
        }
    }
}

/// One line naming every choice. A firmware project leaves out what it never
/// got to choose: it is assembly, and the emulator is the only thing here that
/// can run it.
pub open spec fn described(
    board: Board,
    kind: ProjectKind,
    language: ProjectLanguage,
    toolchain: Toolchain,
    target: Target,
    emulator: EmulatorSetup,
) -> Seq<char> {
    match kind {
        ProjectKind::Program => config::board_word(board) + "/"@ + cli::language_word(language)
            + ", "@ + config::toolchain_word(toolchain) + " build, "@ + config::target_word(target)
            + ", "@ + setup_words(emulator),
        ProjectKind::Firmware => config::board_word(board) + " firmware, "@
            + config::toolchain_word(toolchain) + " build, "@ + setup_words(emulator),
    }
}

fn describe(
    board: Board,
    kind: ProjectKind,
    language: ProjectLanguage,
    toolchain: Toolchain,
    target: Target,
    emulator: &EmulatorSetup,
) -> (line: String)
    ensures
        line@ == described(board, kind, language, toolchain, target, *emulator),
{
    let mut line = board.label().to_owned();
    match kind {
        ProjectKind::Program => {
            line.append("/");
            line.append(language.label());
            line.append(", ");
            line.append(toolchain.label());
            line.append(" build, ");
            line.append(target.label());
            line.append(", ");
        },
        ProjectKind::Firmware => {
            line.append(" firmware, ");
            line.append(toolchain.label());
            line.append(" build, ");
        },
    }
    line.append(emulator.summary().as_str());
    line
}

impl ProjectPlan {
    /// One line naming every choice, for the confirmation `init` prints when
    /// it is done.
    pub fn describe(&self) -> (line: String)
        ensures
            line@ == described(
                self.board,
                self.kind,
                self.language,
                self.toolchain,
                self.target,
                self.emulator,
            ),
    {
        describe(
            self.board,
            self.kind,
            self.language,
            self.toolchain,
            self.target,
            &self.emulator,
        )
    }
}

/// A directory of files that a new project can start from.
#[derive(Clone, Copy, Debug, PartialEq, Eq, Structural)]
pub enum Template {
    M68kCommon,
    M68kC,
    M68kAsm,
    M68kFirmware,
    Mos6502Common,
    Mos6502C,
    Mos6502Asm,
    Mos6502Firmware,
}

/// The template directories a project is made of, copied in order.
///
/// A firmware project shares nothing with a program one: it has no C library
/// to link against and no linker configuration that puts it in RAM, so it
/// gets a directory of its own rather than the shared one plus a language.
pub fn templates(plan: &ProjectPlan) -> (list: Vec<Template>)
    ensures
        list@ == (match (plan.kind, plan.board, plan.language) {
            (ProjectKind::Firmware, Board::RoscoM68k, _) => seq![Template::M68kFirmware],
            (ProjectKind::Firmware, Board::Rosco6502, _) => seq![Template::Mos6502Firmware],
            (ProjectKind::Program, Board::RoscoM68k, ProjectLanguage::C) => seq![
                Template::M68kCommon,
                Template::M68kC,
            ],
            (ProjectKind::Program, Board::RoscoM68k, ProjectLanguage::Asm) => seq![
                Template::M68kCommon,
                Template::M68kAsm,
            ],
            (ProjectKind::Program, Board::Rosco6502, ProjectLanguage::C) => seq![
                Template::Mos6502Common,
                Template::Mos6502C,
            ],
            (ProjectKind::Program, Board::Rosco6502, ProjectLanguage::Asm) => seq![
                Template::Mos6502Common,
                Template::Mos6502Asm,
            ],
        }),
{
    match (plan.kind, plan.board, plan.language) {
        (ProjectKind::Firmware, Board::RoscoM68k, _) => vec![Template::M68kFirmware],
        (ProjectKind::Firmware, Board::Rosco6502, _) => vec![Template::Mos6502Firmware],
        (ProjectKind::Program, Board::RoscoM68k, ProjectLanguage::C) => {
            vec![Template::M68kCommon, Template::M68kC]
        },
        (ProjectKind::Program, Board::RoscoM68k, ProjectLanguage::Asm) => {
            vec![Template::M68kCommon, Template::M68kAsm]
        },
        (ProjectKind::Program, Board::Rosco6502, ProjectLanguage::C) => {
            vec![Template::Mos6502Common, Template::Mos6502C]
        },
        (ProjectKind::Program, Board::Rosco6502, ProjectLanguage::Asm) => {
            vec![Template::Mos6502Common, Template::Mos6502Asm]
        },
    }
}

/// What is said of a destination that is there already.
pub fn already_there(destination: &str) -> (message: String)
    ensures
        message@ == "destination already exists: "@ + destination@,
{
    cat("destination already exists: ", destination)
}

/// A text between quotes.
pub open spec fn quoted(text: Seq<char>) -> Seq<char> {
    "\""@ + text + "\""@
}

/// Lines with a section that holds one setting, below a blank line, and a
/// comment on it.
pub open spec fn with_section(
    lines: Seq<Line>,
    section: Seq<char>,
    comment: Seq<char>,
    setting: Line,
) -> Seq<Line> {
    lines.push(Line::Blank).push(Line::Header(section)).push(Line::Comment(comment)).push(setting)
}

/// What the project's file starts with.
pub open spec fn settings_start(board: Board) -> Seq<Line> {
    Seq::empty().push(
        Line::Comment(
            " Settings for this project. `rosco config list` shows every setting,"@,
        ),
    ).push(Line::Comment(" its value, and which file decided it."@)).push(Line::Blank).push(
        Line::Header("project"@),
    ).push(
        Line::Pair("board"@, quoted(config::board_word(board)), config::board_word(board)),
    )
}

/// What it says of a project that is not a program.
pub open spec fn with_kind(lines: Seq<Line>, kind: ProjectKind) -> Seq<Line> {
    if kind == ProjectKind::Program {
        lines
    } else {
        lines.push(
            Line::Comment(" This builds the machine's firmware rather than a program for it"@),
        ).push(
            Line::Comment(" to load, so it is a ROM image and only the emulator can run it."@),
        ).push(Line::Pair("type"@, quoted(config::kind_word(kind)), config::kind_word(kind)))
    }
}

/// What it says of a toolchain that is not the image.
pub open spec fn with_toolchain(lines: Seq<Line>, toolchain: Toolchain) -> Seq<Line> {
    if toolchain == Toolchain::Docker {
        lines
    } else {
        with_section(
            lines,
            "build"@,
            " The compilers on this computer, rather than the toolchain image."@,
            Line::Pair(
                "toolchain"@,
                quoted(config::toolchain_word(toolchain)),
                config::toolchain_word(toolchain),
            ),
        )
    }
}

/// What it says of the emulator. With nothing there, the environment and
/// `PATH` still decide, and a saved user setting is not overridden.
pub open spec fn with_emulator(lines: Seq<Line>, setup: EmulatorSetup) -> Seq<Line> {
    match setup {
        EmulatorSetup::EachRun => lines,
        EmulatorSetup::Docker => with_section(
            lines,
            "emulator"@,
            " The emulator image, rather than a build of it on this computer."@,
            Line::Pair(
                "source"@,
                quoted(config::source_word(EmulatorSource::Docker)),
                config::source_word(EmulatorSource::Docker),
            ),
        ),
        EmulatorSetup::Program(path) => with_section(
            lines,
            "emulator"@,
            " The emulator this project runs on, so no command needs --emulator-path."@,
            Line::Pair("program"@, document::toml_words(path@), path@),
        ),
    }
}

/// What it says of a target that is not a board.
pub open spec fn with_target(lines: Seq<Line>, target: Target) -> Seq<Line> {
    if target == Target::Hardware {
        lines
    } else {
        with_section(
            lines,
            "defaults"@,
            " Where run and upload send the program without a flag."@,
            Line::Pair(
                "target"@,
                quoted(config::target_word(target)),
                config::target_word(target),
            ),
        )
    }
}

/// The lines of the project's settings file.
pub open spec fn settings_lines(plan: ProjectPlan) -> Seq<Line> {
    with_target(
        with_emulator(
            with_toolchain(
                with_kind(settings_start(plan.board), plan.kind),
                plan.toolchain,
            ),
            plan.emulator,
        ),
        plan.target,
    )
}

fn add_comment(settings: &mut String, words: &str)
    ensures
        final(settings)@ == old(settings)@ + document::line_text(Line::Comment(words@)),
{
    settings.append("#");
    settings.append(words);
    settings.append("\n");
}

fn add_header(settings: &mut String, name: &str)
    ensures
        final(settings)@ == old(settings)@ + document::line_text(Line::Header(name@)),
{
    settings.append("[");
    settings.append(name);
    settings.append("]\n");
}

fn add_setting(settings: &mut String, name: &str, words: &str)
    ensures
        forall|text: Seq<char>|
            final(settings)@ == old(settings)@ + #[trigger] document::line_text(
                Line::Pair(name@, words@, text),
            ),
{
    settings.append(name);
    settings.append(" = ");
    settings.append(words);
    settings.append("\n");
}

fn in_quotes(text: &str) -> (words: String)
    ensures
        words@ == quoted(text@),
{
    let mut words = cat("\"", text);
    words.append("\"");
    words
}

/// One more line is written below the others.
proof fn lemma_written(lines: Seq<Line>, line: Line)
    ensures
        document::written(lines.push(line)) == document::written(lines) + document::line_text(line),
{
    assert(lines.push(line).drop_last() == lines);
}

fn add_section(settings: &mut String, section: &str, comment: &str, name: &str, words: &str)
    ensures
        forall|lines: Seq<Line>, text: Seq<char>|
            document::written(lines) == old(settings)@ ==> final(settings)@
                == #[trigger] document::written(
                with_section(
                    lines,
                    section@,
                    comment@,
                    Line::Pair(name@, words@, text),
                ),
            ),
{
    let ghost before = settings@;
    settings.append("\n");
    add_header(settings, section);
    add_comment(settings, comment);
    add_setting(settings, name, words);
    proof {
        assert forall|lines: Seq<Line>, text: Seq<char>|
            document::written(lines) == before implies settings@ == #[trigger] document::written(
            with_section(lines, section@, comment@, Line::Pair(name@, words@, text)),
        ) by {
            let blank = lines.push(Line::Blank);
            let header = blank.push(Line::Header(section@));
            let remark = header.push(Line::Comment(comment@));
            lemma_written(lines, Line::Blank);
            lemma_written(blank, Line::Header(section@));
            lemma_written(header, Line::Comment(comment@));
            lemma_written(remark, Line::Pair(name@, words@, text));
            assert(settings@ == document::written(remark) + document::line_text(
                Line::Pair(name@, words@, text),
            ));
        }
    }
}

/// The project's settings file.
///
/// The board is written whatever it is, because it is a fact about the
/// application rather than a preference. The rest is only written when it
/// differs from the default: a repeated default in here would quietly
/// override whatever the same user saved for themselves. Where the emulator is
/// is written as TOML spells it, backslashes and all.
pub fn project_settings(plan: &ProjectPlan) -> (settings: String)
    ensures
        settings@ == document::written(settings_lines(*plan)),
{
    let mut settings = String::new();
    let ghost none = Seq::<Line>::empty();
    assert(settings@ == document::written(none));
    add_comment(
        &mut settings,
        " Settings for this project. `rosco config list` shows every setting,",
    );
    add_comment(&mut settings, " its value, and which file decided it.");
    settings.append("\n");
    add_header(&mut settings, "project");
    add_setting(&mut settings, "board", in_quotes(plan.board.label()).as_str());
    let ghost start = settings_start(plan.board);
    proof {
        let first = none.push(
            Line::Comment(
                " Settings for this project. `rosco config list` shows every setting,"@,
            ),
        );
        let second = first.push(Line::Comment(" its value, and which file decided it."@));
        let blank = second.push(Line::Blank);
        let header = blank.push(Line::Header("project"@));
        lemma_written(none, first.last());
        lemma_written(first, second.last());
        lemma_written(second, Line::Blank);
        lemma_written(blank, header.last());
        lemma_written(header, start.last());
        assert(settings@ == document::written(header) + document::line_text(start.last()));
    }
    if plan.kind != ProjectKind::Program {
        add_comment(
            &mut settings,
            " This builds the machine's firmware rather than a program for it",
        );
        add_comment(
            &mut settings,
            " to load, so it is a ROM image and only the emulator can run it.",
        );
        add_setting(&mut settings, "type", in_quotes(plan.kind.label()).as_str());
        proof {
            let all = with_kind(start, plan.kind);
            let second = all.drop_last();
            let first = second.drop_last();
            assert(all == second.push(all.last()));
            assert(second == first.push(second.last()));
            assert(first == start.push(first.last()));
            lemma_written(start, first.last());
            lemma_written(first, second.last());
            lemma_written(second, all.last());
            assert(settings@ == document::written(second) + document::line_text(all.last()));
        }
    }
    let ghost kind = with_kind(start, plan.kind);
    assert(settings@ == document::written(kind));
    if plan.toolchain != Toolchain::Docker {
        add_section(
            &mut settings,
            "build",
            " The compilers on this computer, rather than the toolchain image.",
            "toolchain",
            in_quotes(plan.toolchain.label()).as_str(),
        );
    }
    let ghost toolchain = with_toolchain(kind, plan.toolchain);
    assert(settings@ == document::written(toolchain));
    match &plan.emulator {
        EmulatorSetup::EachRun => {},
        EmulatorSetup::Docker => {
            add_section(
                &mut settings,
                "emulator",
                " The emulator image, rather than a build of it on this computer.",
                "source",
                in_quotes(EmulatorSource::Docker.label()).as_str(),
            );
        },
        EmulatorSetup::Program(path) => {
            add_section(
                &mut settings,
                "emulator",
                " The emulator this project runs on, so no command needs --emulator-path.",
                "program",
                toml_string(path.as_str()).as_str(),
            );
        },
    }
    let ghost emulator = with_emulator(toolchain, plan.emulator);
    assert(settings@ == document::written(emulator));
    if plan.target != Target::Hardware {
        add_section(
            &mut settings,
            "defaults",
            " Where run and upload send the program without a flag.",
            "target",
            in_quotes(plan.target.label()).as_str(),
        );
    }
    settings
}

/// A word that needs no quotes of its own is spelled by itself between quotes,
/// and holds no full stop.
proof fn lemma_word(word: Seq<char>)
    requires
        document::bare(word),
    ensures
        document::spells(quoted(word), word),
        !word.contains('.'),
{
    assert forall|i: int| 0 <= i < word.len() implies ' ' <= #[trigger] word[i] <= '~' && word[i]
        != '"' && word[i] != '\\' && word[i] != '.' by {}
}

/// The words of the project's settings file.
proof fn lemma_words()
    ensures
        forall|board: Board| document::bare(#[trigger] config::board_word(board)),
        forall|kind: ProjectKind| document::bare(#[trigger] config::kind_word(kind)),
        forall|toolchain: Toolchain| document::bare(#[trigger] config::toolchain_word(toolchain)),
        forall|source: EmulatorSource| document::bare(#[trigger] config::source_word(source)),
        forall|target: Target| document::bare(#[trigger] config::target_word(target)),
{
    reveal_strlit("rosco_m68k");
    reveal_strlit("rosco_6502");
    reveal_strlit("program");
    reveal_strlit("firmware");
    reveal_strlit("docker");
    reveal_strlit("host");
    reveal_strlit("hardware");
    reveal_strlit("emulator");
}

/// The names in the project's settings file.
proof fn lemma_names()
    ensures
        document::bare("project"@),
        document::bare("build"@),
        document::bare("emulator"@),
        document::bare("defaults"@),
        document::bare("board"@),
        document::bare("type"@),
        document::bare("toolchain"@),
        document::bare("source"@),
        document::bare("program"@),
        document::bare("target"@),
        "project"@ != "build"@,
        "project"@ != "emulator"@,
        "project"@ != "defaults"@,
        "build"@ != "emulator"@,
        "build"@ != "defaults"@,
        "emulator"@ != "defaults"@,
        "board"@ != "type"@,
        "source"@ != "program"@,
{
    reveal_strlit("project");
    reveal_strlit("build");
    reveal_strlit("emulator");
    reveal_strlit("defaults");
    reveal_strlit("board");
    reveal_strlit("type");
    reveal_strlit("toolchain");
    reveal_strlit("source");
    reveal_strlit("program");
    reveal_strlit("target");
    assert("emulator"@[0] != "defaults"@[0]);
}

/// The comments in the project's settings file.
proof fn lemma_comments()
    ensures
        document::printable(
            " Settings for this project. `rosco config list` shows every setting,"@,
        ),
        document::printable(" its value, and which file decided it."@),
        document::printable(" This builds the machine's firmware rather than a program for it"@),
        document::printable(" to load, so it is a ROM image and only the emulator can run it."@),
        document::printable(" The compilers on this computer, rather than the toolchain image."@),
        document::printable(" The emulator image, rather than a build of it on this computer."@),
        document::printable(
            " The emulator this project runs on, so no command needs --emulator-path."@,
        ),
        document::printable(" Where run and upload send the program without a flag."@),
{
    reveal_strlit(" Settings for this project. `rosco config list` shows every setting,");
    reveal_strlit(" its value, and which file decided it.");
    reveal_strlit(" This builds the machine's firmware rather than a program for it");
    reveal_strlit(" to load, so it is a ROM image and only the emulator can run it.");
    reveal_strlit(" The compilers on this computer, rather than the toolchain image.");
    reveal_strlit(" The emulator image, rather than a build of it on this computer.");
    reveal_strlit(" The emulator this project runs on, so no command needs --emulator-path.");
    reveal_strlit(" Where run and upload send the program without a flag.");
}

/// A section below simple lines makes simple lines, which say what it holds
/// besides what they said.
proof fn lemma_section(
    lines: Seq<Line>,
    section: Seq<char>,
    comment: Seq<char>,
    name: Seq<char>,
    words: Seq<char>,
    text: Seq<char>,
)
    requires
        document::simple(lines),
        document::bare(section),
        !document::said(lines).contains_key(section),
        document::printable(comment),
        document::bare(name),
        document::spells(words, text),
    ensures
        document::simple(with_section(lines, section, comment, Line::Pair(name, words, text))),
        document::said(with_section(lines, section, comment, Line::Pair(name, words, text)))
            == document::said(lines).insert(
            section,
            Node::Section(Map::empty().insert(name, Node::Text(text))),
        ),
{
    let blank = lines.push(Line::Blank);
    let header = blank.push(Line::Header(section));
    let remark = header.push(Line::Comment(comment));
    let all = remark.push(Line::Pair(name, words, text));
    assert(blank.drop_last() == lines);
    assert(header.drop_last() == blank);
    assert(remark.drop_last() == header);
    assert(all.drop_last() == remark);
    assert(document::simple(blank) && document::said(blank) == document::said(lines));
    assert(document::simple(header) && document::under(header) == Some(section));
    assert(document::simple(remark) && document::under(remark) == Some(section));
    assert(document::said(remark) == document::said(header));
    assert(document::said(all) =~= document::said(lines).insert(
        section,
        Node::Section(Map::empty().insert(name, Node::Text(text))),
    ));
}

/// What the section of the project says.
spec fn project_section(plan: ProjectPlan) -> Map<Seq<char>, Node> {
    let board = Map::empty().insert("board"@, Node::Text(config::board_word(plan.board)));
    if plan.kind == ProjectKind::Program {
        board
    } else {
        board.insert("type"@, Node::Text(config::kind_word(plan.kind)))
    }
}

proof fn lemma_start(plan: ProjectPlan)
    ensures
        document::simple(with_kind(settings_start(plan.board), plan.kind)),
        document::said(with_kind(settings_start(plan.board), plan.kind)) == Map::empty().insert(
            "project"@,
            Node::Section(project_section(plan)),
        ),
{
    lemma_words();
    lemma_names();
    lemma_comments();
    lemma_word(config::board_word(plan.board));
    lemma_word(config::kind_word(plan.kind));
    let start = settings_start(plan.board);
    let header = start.drop_last();
    let blank = header.drop_last();
    let second = blank.drop_last();
    let first = second.drop_last();
    let none = Seq::<Line>::empty();
    assert(first.drop_last() == none);
    assert(document::simple(none) && document::said(none) == Map::<Seq<char>, Node>::empty());
    assert(document::simple(first) && document::said(first) == Map::<Seq<char>, Node>::empty());
    assert(document::simple(second) && document::said(second) == Map::<Seq<char>, Node>::empty());
    assert(document::simple(blank) && document::said(blank) == Map::<Seq<char>, Node>::empty());
    assert(document::simple(header) && document::under(header) == Some("project"@));
    let board = Map::empty().insert("board"@, Node::Text(config::board_word(plan.board)));
    assert(document::said(header)["project"@]->Section_0 == Map::<Seq<char>, Node>::empty());
    assert(document::simple(start) && document::under(start) == Some("project"@));
    assert(document::said(start) =~= Map::empty().insert("project"@, Node::Section(board)));
    if plan.kind != ProjectKind::Program {
        let all = with_kind(start, plan.kind);
        let later = all.drop_last();
        let sooner = later.drop_last();
        assert(sooner.drop_last() == start);
        assert(document::simple(sooner) && document::under(sooner) == Some("project"@));
        assert(document::said(sooner) == document::said(start));
        assert(document::simple(later) && document::under(later) == Some("project"@));
        assert(document::said(later) == document::said(start));
        assert(document::said(all) =~= Map::empty().insert(
            "project"@,
            Node::Section(project_section(plan)),
        ));
    }
}

/// What the settings of a new project say.
spec fn planned(plan: ProjectPlan) -> Map<Seq<char>, Node> {
    let project = Map::empty().insert("project"@, Node::Section(project_section(plan)));
    let build = if plan.toolchain == Toolchain::Docker {
        project
    } else {
        project.insert(
            "build"@,
            Node::Section(
                Map::empty().insert(
                    "toolchain"@,
                    Node::Text(config::toolchain_word(plan.toolchain)),
                ),
            ),
        )
    };
    let emulator = match plan.emulator {
        EmulatorSetup::EachRun => build,
        EmulatorSetup::Docker => build.insert(
            "emulator"@,
            Node::Section(
                Map::empty().insert(
                    "source"@,
                    Node::Text(config::source_word(EmulatorSource::Docker)),
                ),
            ),
        ),
        EmulatorSetup::Program(path) => build.insert(
            "emulator"@,
            Node::Section(Map::empty().insert("program"@, Node::Text(path@))),
        ),
    };
    if plan.target == Target::Hardware {
        emulator
    } else {
        emulator.insert(
            "defaults"@,
            Node::Section(
                Map::empty().insert("target"@, Node::Text(config::target_word(plan.target))),
            ),
        )
    }
}

proof fn lemma_settings(plan: ProjectPlan)
    ensures
        document::simple(settings_lines(plan)),
        document::said(settings_lines(plan)) == planned(plan),
{
    lemma_start(plan);
    lemma_words();
    lemma_names();
    lemma_comments();
    let kind = with_kind(settings_start(plan.board), plan.kind);
    let toolchain = with_toolchain(kind, plan.toolchain);
    let emulator = with_emulator(toolchain, plan.emulator);
    if plan.toolchain != Toolchain::Docker {
        let word = config::toolchain_word(plan.toolchain);
        lemma_word(word);
        lemma_section(
            kind,
            "build"@,
            " The compilers on this computer, rather than the toolchain image."@,
            "toolchain"@,
            quoted(word),
            word,
        );
    }
    match plan.emulator {
        EmulatorSetup::EachRun => {},
        EmulatorSetup::Docker => {
            let word = config::source_word(EmulatorSource::Docker);
            lemma_word(word);
            lemma_section(
                toolchain,
                "emulator"@,
                " The emulator image, rather than a build of it on this computer."@,
                "source"@,
                quoted(word),
                word,
            );
        },
        EmulatorSetup::Program(path) => {
            lemma_section(
                toolchain,
                "emulator"@,
                " The emulator this project runs on, so no command needs --emulator-path."@,
                "program"@,
                document::toml_words(path@),
                path@,
            );
        },
    }
    if plan.target != Target::Hardware {
        let word = config::target_word(plan.target);
        lemma_word(word);
        lemma_section(
            emulator,
            "defaults"@,
            " Where run and upload send the program without a flag."@,
            "target"@,
            quoted(word),
            word,
        );
    }
}

/// A name in a section is found under both, with a full stop between them.
proof fn lemma_found(
    map: Map<Seq<char>, Node>,
    section: Seq<char>,
    name: Seq<char>,
    key: Seq<char>,
)
    requires
        document::bare(section),
        document::bare(name),
        key == section + seq!['.'] + name,
    ensures
        value::found(map, key) == (if !map.contains_key(section) {
            None
        } else {
            match map[section] {
                Node::Section(inner) => if inner.contains_key(name) {
                    Some(inner[name])
                } else {
                    None
                },
                _ => None,
            }
        }),
{
    let names = seq![section, name];
    lemma_word(section);
    lemma_word(name);
    reveal_with_fuel(text::joined, 3);
    assert(names.drop_last() == seq![section]);
    assert(seq![section].drop_last() == Seq::<Seq<char>>::empty());
    assert(text::joined(names, seq!['.']) == key);
    text::splitting_undoes_joining(names, '.');
    assert(names.drop_first() == seq![name]);
    assert(seq![name].drop_first() == Seq::<Seq<char>>::empty());
    reveal_with_fuel(value::at_path, 3);
}

/// The dotted names of the settings in the project's file.
proof fn lemma_keys()
    ensures
        "project.board"@ == "project"@ + seq!['.'] + "board"@,
        "project.type"@ == "project"@ + seq!['.'] + "type"@,
        "build.toolchain"@ == "build"@ + seq!['.'] + "toolchain"@,
        "emulator.source"@ == "emulator"@ + seq!['.'] + "source"@,
        "emulator.program"@ == "emulator"@ + seq!['.'] + "program"@,
        "defaults.target"@ == "defaults"@ + seq!['.'] + "target"@,
{
    reveal_strlit("project");
    reveal_strlit("board");
    reveal_strlit("project.board");
    reveal_strlit("type");
    reveal_strlit("project.type");
    reveal_strlit("build");
    reveal_strlit("toolchain");
    reveal_strlit("build.toolchain");
    reveal_strlit("emulator");
    reveal_strlit("source");
    reveal_strlit("emulator.source");
    reveal_strlit("program");
    reveal_strlit("emulator.program");
    reveal_strlit("defaults");
    reveal_strlit("target");
    reveal_strlit("defaults.target");
}

/// The settings of a new project read as it was planned. What is not written
/// down is not there: the emulator's source but for its image, its program but
/// for one that was named, and whatever the defaults say anyway.
pub proof fn a_new_project_reads_as_planned(
    plan: ProjectPlan,
    text: &str,
    read: Result<Section, String>,
)
    requires
        text@ == document::written(settings_lines(plan)),
        call_ensures(read_table, (text,), read),
    ensures
        read matches Ok(table) && {
            &&& value::found(table@, "project.board"@) == Some(
                Node::Text(config::board_word(plan.board)),
            )
            &&& value::found(table@, "project.type"@) == (if plan.kind == ProjectKind::Program {
                None
            } else {
                Some(Node::Text(config::kind_word(plan.kind)))
            })
            &&& value::found(table@, "build.toolchain"@) == (if plan.toolchain
                == Toolchain::Docker {
                None
            } else {
                Some(Node::Text(config::toolchain_word(plan.toolchain)))
            })
            &&& value::found(table@, "emulator.source"@) == (match plan.emulator {
                EmulatorSetup::Docker => Some(
                    Node::Text(config::source_word(EmulatorSource::Docker)),
                ),
                _ => None,
            })
            &&& value::found(table@, "emulator.program"@) == (match plan.emulator {
                EmulatorSetup::Program(path) => Some(Node::Text(path@)),
                _ => None,
            })
            &&& value::found(table@, "defaults.target"@) == (if plan.target == Target::Hardware {
                None
            } else {
                Some(Node::Text(config::target_word(plan.target)))
            })
        },
{
    lemma_settings(plan);
    lemma_names();
    let map = planned(plan);
    assert(read is Ok && read->Ok_0@ == map);
    lemma_keys();
    lemma_found(map, "project"@, "board"@, "project.board"@);
    lemma_found(map, "project"@, "type"@, "project.type"@);
    lemma_found(map, "build"@, "toolchain"@, "build.toolchain"@);
    lemma_found(map, "emulator"@, "source"@, "emulator.source"@);
    lemma_found(map, "emulator"@, "program"@, "emulator.program"@);
    lemma_found(map, "defaults"@, "target"@, "defaults.target"@);
}

/// Which of the three answers about the emulator was given. The path that
/// goes with a program is a field of its own, so the file stays flat enough
/// to edit by hand.
#[derive(Clone, Copy, Debug, PartialEq, Eq, Structural)]
pub enum EmulatorChoice {
    EachRun,
    Docker,
    Program,
}

/// What `rosco init` was told last time.
///
/// Kept beside the per-user settings, because it describes the person rather
/// than any one project. It is a memory of the last answers and nothing else:
/// no command reads it to decide anything, so a file that has gone missing or
/// stale only costs the offer to reuse it.
#[derive(Debug)]
pub struct Remembered {
    pub board: Board,
    pub kind: ProjectKind,
    pub language: ProjectLanguage,
    pub toolchain: Toolchain,
    pub target: Target,
    pub emulator: EmulatorChoice,
    pub emulator_program: Option<String>,
}

/// What a remembered answer about the emulator stands for. A program with no
/// path left is no answer at all.
pub open spec fn recalled(choice: EmulatorChoice, program: Option<String>) -> EmulatorSetup {
    match (choice, program) {
        (EmulatorChoice::Docker, _) => EmulatorSetup::Docker,
        (EmulatorChoice::Program, Some(path)) => EmulatorSetup::Program(path),
        _ => EmulatorSetup::EachRun,
    }
}

impl Remembered {
    pub fn of(plan: &ProjectPlan) -> (remembered: Remembered)
        ensures
            remembered.board == plan.board,
            remembered.kind == plan.kind,
            remembered.language == plan.language,
            remembered.toolchain == plan.toolchain,
            remembered.target == plan.target,
            remembered.emulator == (match plan.emulator {
                EmulatorSetup::EachRun => EmulatorChoice::EachRun,
                EmulatorSetup::Docker => EmulatorChoice::Docker,
                EmulatorSetup::Program(_) => EmulatorChoice::Program,
            }),
            remembered.emulator_program == (match plan.emulator {
                EmulatorSetup::Program(path) => Some(path),
                _ => None,
            }),
            recalled(remembered.emulator, remembered.emulator_program) == plan.emulator,
    {
        let (emulator, emulator_program) = match &plan.emulator {
            EmulatorSetup::EachRun => (EmulatorChoice::EachRun, None),
            EmulatorSetup::Docker => (EmulatorChoice::Docker, None),
            EmulatorSetup::Program(path) => (EmulatorChoice::Program, Some(path.clone())),
        };
        Remembered {
            board: plan.board,
            kind: plan.kind,
            language: plan.language,
            toolchain: plan.toolchain,
            target: plan.target,
            emulator,
            emulator_program,
        }
    }

    /// How the emulator was reached last time.
    pub fn emulator(&self) -> (setup: EmulatorSetup)
        ensures
            setup == recalled(self.emulator, self.emulator_program),
    {
        match (self.emulator, &self.emulator_program) {
            (EmulatorChoice::Docker, _) => EmulatorSetup::Docker,
            (EmulatorChoice::Program, Some(path)) => EmulatorSetup::Program(path.clone()),
            _ => EmulatorSetup::EachRun,
        }
    }

    /// The one line that goes under "Previous setup", so the choice can be
    /// made without having to remember what was chosen.
    pub fn summary(&self) -> (line: String)
        ensures
            line@ == described(
                self.board,
                self.kind,
                self.language,
                self.toolchain,
                self.target,
                recalled(self.emulator, self.emulator_program),
            ),
    {
        describe(
            self.board,
            self.kind,
            self.language,
            self.toolchain,
            self.target,
            &self.emulator(),
        )
    }
}

/// What the file of the last answers starts with.
pub fn remembered_header() -> (header: &'static str)
    ensures
        header@
            == "# The answers `rosco init` was given last time, which it offers back as\n# \"Previous setup\". Delete this file to be asked from the defaults again.\n\n"@,
{
    "# The answers `rosco init` was given last time, which it offers back as\n# \"Previous setup\". Delete this file to be asked from the defaults again.\n\n"
}

/// Where the last answers are kept.
pub open spec fn remembered_place(env: Environment, host: Host) -> Option<Seq<char>> {
    match config::settings_directory(env, host) {
        Some(directory) => Some(path::below(path::without_trailing(directory), "init.toml"@)),
        None => None,
    }
}

/// The last answers lie beside the per-user settings: both are in one
/// directory, under names of their own, wherever there is one at all.
pub proof fn the_answers_lie_beside_the_settings(env: Environment, host: Host)
    ensures
        remembered_place(env, host) is Some == config::settings_place(env, host) is Some,
        remembered_place(env, host) matches Some(answers) ==> (config::settings_place(
            env,
            host,
        ) matches Some(settings) && path::absolute(answers) == path::absolute(settings)
            && path::directory(answers) == path::directory(settings) && path::last_name(answers)
            == Some("init.toml"@) && path::last_name(settings) == Some(config::GLOBAL_CONFIG_FILE@)
            && "init.toml"@ != config::GLOBAL_CONFIG_FILE@),
{
    if let Some(directory) = config::settings_directory(env, host) {
        let trimmed = path::without_trailing(directory);
        lemma_file_names();
        path::a_trimmed_path_leads_the_same_way(directory);
        path::lemma_file_in(directory, config::GLOBAL_CONFIG_FILE@);
        path::lemma_file_in(trimmed, "init.toml"@);
        let names = path::steps(directory);
        assert(names.push("init.toml"@).drop_last() == names);
        assert(names.push(config::GLOBAL_CONFIG_FILE@).drop_last() == names);
    }
}

/// The names of the two files, which lead nowhere else.
proof fn lemma_file_names()
    ensures
        path::all_steps(seq!["init.toml"@]),
        path::all_steps(seq![config::GLOBAL_CONFIG_FILE@]),
        "init.toml"@ != ".."@,
        config::GLOBAL_CONFIG_FILE@ != ".."@,
        "init.toml"@ != config::GLOBAL_CONFIG_FILE@,
{
    reveal_strlit("init.toml");
    reveal_strlit("config.toml");
    reveal_strlit("..");
    reveal_strlit(".");
    assert("init.toml"@.len() == 9 && "config.toml"@.len() == 11 && ".."@.len() == 2);
}

/// Where the last answers are kept: beside the per-user settings.
pub fn remembered_path(env: &Environment, host: Host) -> (file: Result<String, String>)
    ensures
        match remembered_place(*env, host) {
            Some(place) => file matches Ok(file) && file@ == place,
            None => file matches Err(words) && words@ == config::no_settings_directory(host),
        },
{
    match config::settings_home(env, host) {
        Ok(directory) => Ok(join_path(trim_trailing(directory.as_str()).as_str(), "init.toml")),
        Err(words) => Err(words),
    }
}

/// The last answers come back the way they went in, and read the same.
pub proof fn the_last_answers_come_back(
    plan: ProjectPlan,
    remembered: Remembered,
    setup: EmulatorSetup,
    summary: String,
    line: String,
)
    requires
        call_ensures(Remembered::of, (&plan,), remembered),
        call_ensures(Remembered::emulator, (&remembered,), setup),
        call_ensures(Remembered::summary, (&remembered,), summary),
        call_ensures(ProjectPlan::describe, (&plan,), line),
    ensures
        remembered.board == plan.board,
        remembered.kind == plan.kind,
        remembered.language == plan.language,
        remembered.toolchain == plan.toolchain,
        remembered.target == plan.target,
        setup == plan.emulator,
        summary@ == line@,
{
}

/// A project is made of what its own board has and of nothing else, and a
/// firmware project shares nothing with a program.
pub proof fn a_project_is_made_of_what_its_board_has(plan: ProjectPlan, list: Vec<Template>)
    requires
        call_ensures(templates, (&plan,), list),
    ensures
        list@.len() > 0,
        forall|i: int|
            0 <= i < list@.len() ==> (plan.board == Board::RoscoM68k <==> seq![
                Template::M68kCommon,
                Template::M68kC,
                Template::M68kAsm,
                Template::M68kFirmware,
            ].contains(#[trigger] list@[i])),
        plan.kind == ProjectKind::Firmware <==> list@.contains(Template::M68kFirmware)
            || list@.contains(Template::Mos6502Firmware),
        plan.kind == ProjectKind::Firmware ==> list@.len() == 1,
        plan.kind == ProjectKind::Program ==> {
            &&& list@.contains(Template::M68kCommon) || list@.contains(Template::Mos6502Common)
            &&& plan.language == ProjectLanguage::C <==> list@.contains(Template::M68kC)
                || list@.contains(Template::Mos6502C)
            &&& plan.language == ProjectLanguage::Asm <==> list@.contains(Template::M68kAsm)
                || list@.contains(Template::Mos6502Asm)
        },
{
    let own = seq![
        Template::M68kCommon,
        Template::M68kC,
        Template::M68kAsm,
        Template::M68kFirmware,
    ];
    assert(own[0] == Template::M68kCommon && own[1] == Template::M68kC && own[2]
        == Template::M68kAsm && own[3] == Template::M68kFirmware);
    let first = list@[0];
    assert(list@.contains(first));
    if list@.len() > 1 {
        assert(list@.contains(list@[1]));
    }
}

} // verus!
