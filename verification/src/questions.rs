//! The conversation that creates a project.
//!
//! Every question has an option of its own, so a script gets a project
//! without one.
use vstd::prelude::*;
use vstd::string::*;

use crate::app;
use crate::app::{requested_emulator, requested_toolchain, split_positionals};
use crate::cli::{InitArgs, ProjectLanguage};
use crate::config;
use crate::config::{Board, ProjectKind, Target, Toolchain};
use crate::emulator::DEFAULT_PROGRAM;
use crate::init;
use crate::init::{EmulatorSetup, ProjectPlan, Remembered};
use crate::install;
use crate::prompt::Choice;

verus! {

/// What has been settled about a new project so far.
pub struct Answers {
    pub name: Option<String>,
    pub board: Option<Board>,
    pub kind: Option<ProjectKind>,
    pub language: Option<ProjectLanguage>,
    pub toolchain: Option<Toolchain>,
    pub target: Option<Target>,
    pub emulator: Option<EmulatorSetup>,
}

/// What there is to ask.
#[derive(Clone, Copy, Debug, PartialEq, Eq, Structural)]
pub enum Question {
    Name,
    /// Whether to take the last run's answers.
    Setup,
    Board,
    Kind,
    Language,
    Toolchain,
    Target,
    Emulator,
    /// Where the emulator on this computer is.
    EmulatorPath,
}

/// How far the conversation has come.
#[derive(Clone, Copy, Debug, PartialEq, Eq, Structural)]
pub struct Progress {
    /// Whether it was asked if the last answers should be taken again.
    pub setup_asked: bool,
    /// Whether the emulator is on this computer, at a path not known yet.
    pub path_wanted: bool,
}

/// What the command line settles.
pub fn told(args: &InitArgs) -> (answers: Result<Answers, String>)
    ensures
        match answers {
            Ok(answers) => {
                &&& args.name@.len() <= 2
                &&& args.name@.len() == 2 ==> app::language_named(args.name@[0]@) is Some
                &&& config::optional(answers.name) == (if args.name@.len() == 0 {
                    None
                } else {
                    Some(args.name@.last()@)
                })
                &&& answers.language == (match args.language {
                    Some(language) => Some(language),
                    None => if args.name@.len() == 2 {
                        app::language_named(args.name@[0]@)
                    } else {
                        None
                    },
                })
                &&& answers.board == args.board
                &&& answers.kind == args.kind
                &&& answers.toolchain == app::asked_toolchain(args.toolchain)
                &&& answers.target == args.target
                &&& match (args.emulator_path, args.emulator_docker) {
                    (Some(path), _) => answers.emulator matches Some(
                        EmulatorSetup::Program(program),
                    ) && program@ == path@,
                    (None, true) => answers.emulator == Some(EmulatorSetup::Docker),
                    (None, false) => answers.emulator is None,
                }
            },
            Err(words) => {
                &&& args.name@.len() > 2 || (args.name@.len() == 2 && app::language_named(
                    args.name@[0]@,
                ) is None)
                &&& words@ == app::positional_words(args.name@)
            },
        },
{
    let (name, language_first) = match split_positionals(&args.name) {
        Ok(read) => read,
        Err(words) => {
            return Err(words);
        },
    };
    let language = match args.language {
        Some(language) => Some(language),
        None => language_first,
    };
    Ok(
        Answers {
            name,
            board: args.board,
            kind: args.kind,
            language,
            toolchain: requested_toolchain(&args.toolchain),
            target: args.target,
            emulator: requested_emulator(args),
        },
    )
}

/// Whether anything but the name is open.
pub open spec fn anything_open(answers: Answers) -> bool {
    answers.board is None || answers.kind is None || answers.language is None
        || answers.toolchain is None || answers.target is None || answers.emulator is None
}

/// The next question.
///
/// The last run's answers are offered before the same questions are asked
/// again. A firmware is assembly that owns the machine from its reset vector,
/// and a board only takes one from its ROM socket, so there is no language to
/// choose for it and no target.
pub open spec fn next_of(
    answers: Answers,
    progress: Progress,
    remembered: bool,
) -> Option<Question> {
    let firmware = answers.kind == Some(ProjectKind::Firmware);
    if answers.name is None {
        Some(Question::Name)
    } else if remembered && !progress.setup_asked && anything_open(answers) {
        Some(Question::Setup)
    } else if answers.board is None {
        Some(Question::Board)
    } else if answers.kind is None {
        Some(Question::Kind)
    } else if answers.language is None && !firmware {
        Some(Question::Language)
    } else if answers.toolchain is None {
        Some(Question::Toolchain)
    } else if answers.target is None && !firmware {
        Some(Question::Target)
    } else if answers.emulator is None {
        Some(
            if progress.path_wanted {
                Question::EmulatorPath
            } else {
                Question::Emulator
            },
        )
    } else {
        None
    }
}

/// The next question, or nothing when there is none left.
pub fn next_question(answers: &Answers, progress: &Progress, remembered: bool) -> (question: Option<
    Question,
>)
    ensures
        question == next_of(*answers, *progress, remembered),
{
    let firmware: bool = match answers.kind {
        Some(ProjectKind::Firmware) => true,
        _ => false,
    };
    let open: bool = answers.board.is_none() || answers.kind.is_none() || answers.language.is_none()
        || answers.toolchain.is_none() || answers.target.is_none() || answers.emulator.is_none();
    if answers.name.is_none() {
        Some(Question::Name)
    } else if remembered && !progress.setup_asked && open {
        Some(Question::Setup)
    } else if answers.board.is_none() {
        Some(Question::Board)
    } else if answers.kind.is_none() {
        Some(Question::Kind)
    } else if answers.language.is_none() && !firmware {
        Some(Question::Language)
    } else if answers.toolchain.is_none() {
        Some(Question::Toolchain)
    } else if answers.target.is_none() && !firmware {
        Some(Question::Target)
    } else if answers.emulator.is_none() {
        if progress.path_wanted {
            Some(Question::EmulatorPath)
        } else {
            Some(Question::Emulator)
        }
    } else {
        None
    }
}

/// The words of a question.
pub open spec fn question_words(question: Question) -> Seq<char> {
    match question {
        Question::Name => "Project name"@,
        Question::Setup => "Setup"@,
        Question::Board => "Board"@,
        Question::Kind => "Runs as"@,
        Question::Language => "Language"@,
        Question::Toolchain => "Build with"@,
        Question::Target => "Run on"@,
        Question::Emulator => "Emulator"@,
        Question::EmulatorPath => "Emulator path"@,
    }
}

impl Question {
    pub fn words(self) -> (words: &'static str)
        ensures
            words@ == question_words(self),
    {
        match self {
            Question::Name => "Project name",
            Question::Setup => "Setup",
            Question::Board => "Board",
            Question::Kind => "Runs as",
            Question::Language => "Language",
            Question::Toolchain => "Build with",
            Question::Target => "Run on",
            Question::Emulator => "Emulator",
            Question::EmulatorPath => "Emulator path",
        }
    }
}

/// The answers that a question offers, each with a word about what choosing it
/// means. A question that is answered in words offers none.
pub open spec fn offered(question: Question) -> Seq<(Seq<char>, Seq<char>)> {
    match question {
        Question::Board => seq![
            ("rosco_m68k"@, "68010 board, C or assembly through the m68k toolchain"@),
            ("rosco_6502"@, "65C02 board, C or assembly through the cc65 tools"@),
        ],
        Question::Kind => seq![
            ("A program"@, "the firmware boots the board, then loads and runs it"@),
            ("The firmware"@, "your code owns the machine from its reset vector"@),
        ],
        Question::Language => seq![
            ("C"@, "a main() and the C library"@),
            ("Assembly"@, "the machine and nothing between you and it"@),
        ],
        Question::Toolchain => seq![
            ("Docker"@, "the toolchain image; nothing to install"@),
            ("This computer"@, "compilers on PATH; no container to start"@),
        ],
        Question::Target => seq![
            ("Hardware"@, "a board on the other end of a UART"@),
            ("Emulator"@, "the rosco emulator, with no hardware attached"@),
        ],
        Question::Emulator => seq![
            ("Docker"@, "the emulator image; nothing to install"@),
            ("This computer"@, "a build of it, saved in the project so no flag is needed"@),
            ("Decide each run"@, "ROSCO_EMULATOR, or rosco-emulator on PATH"@),
        ],
        _ => Seq::empty(),
    }
}

fn two<'a>(first: Choice<'a>, second: Choice<'a>) -> (choices: Vec<Choice<'a>>)
    ensures
        install::choice_views(choices@) == seq![
            (first.label@, first.detail@),
            (second.label@, second.detail@),
        ],
{
    let mut choices: Vec<Choice<'a>> = Vec::new();
    choices.push(first);
    choices.push(second);
    assert(install::choice_views(choices@) == seq![
        (first.label@, first.detail@),
        (second.label@, second.detail@),
    ]);
    choices
}

/// The answers that a question offers.
pub fn choices(question: Question) -> (choices: Vec<Choice<'static>>)
    ensures
        install::choice_views(choices@) == offered(question),
{
    match question {
        Question::Board => two(
            Choice {
                label: "rosco_m68k",
                detail: "68010 board, C or assembly through the m68k toolchain",
            },
            Choice {
                label: "rosco_6502",
                detail: "65C02 board, C or assembly through the cc65 tools",
            },
        ),
        Question::Kind => two(
            Choice {
                label: "A program",
                detail: "the firmware boots the board, then loads and runs it",
            },
            Choice {
                label: "The firmware",
                detail: "your code owns the machine from its reset vector",
            },
        ),
        Question::Language => two(
            Choice { label: "C", detail: "a main() and the C library" },
            Choice {
                label: "Assembly",
                detail: "the machine and nothing between you and it",
            },
        ),
        Question::Toolchain => two(
            Choice { label: "Docker", detail: "the toolchain image; nothing to install" },
            Choice {
                label: "This computer",
                detail: "compilers on PATH; no container to start",
            },
        ),
        Question::Target => two(
            Choice { label: "Hardware", detail: "a board on the other end of a UART" },
            Choice {
                label: "Emulator",
                detail: "the rosco emulator, with no hardware attached",
            },
        ),
        Question::Emulator => {
            let mut choices = two(
                Choice { label: "Docker", detail: "the emulator image; nothing to install" },
                Choice {
                    label: "This computer",
                    detail: "a build of it, saved in the project so no flag is needed",
                },
            );
            let ghost before = install::choice_views(choices@);
            choices.push(
                Choice {
                    label: "Decide each run",
                    detail: "ROSCO_EMULATOR, or rosco-emulator on PATH",
                },
            );
            assert(install::choice_views(choices@) == before.push(
                ("Decide each run"@, "ROSCO_EMULATOR, or rosco-emulator on PATH"@),
            ));
            assert(install::choice_views(choices@) == offered(question));
            choices
        },
        _ => {
            let choices: Vec<Choice<'static>> = Vec::new();
            assert(install::choice_views(choices@) == offered(question));
            choices
        },
    }
}

/// The two ways to answer whether the last run's answers are taken again.
pub fn setup_choices<'a>(summary: &'a str) -> (choices: Vec<Choice<'a>>)
    ensures
        install::choice_views(choices@) == seq![
            ("Previous setup"@, summary@),
            ("New setup"@, "answer the questions again"@),
        ],
{
    two(
        Choice { label: "Previous setup", detail: summary },
        Choice { label: "New setup", detail: "answer the questions again" },
    )
}

/// Which answer to a question was given last time: the one it opens on.
pub open spec fn last_answer(question: Question, last: Remembered) -> usize {
    match question {
        Question::Board => if last.board == Board::Rosco6502 {
            1
        } else {
            0
        },
        Question::Kind => if last.kind == ProjectKind::Firmware {
            1
        } else {
            0
        },
        Question::Language => if last.language == ProjectLanguage::Asm {
            1
        } else {
            0
        },
        Question::Toolchain => if last.toolchain == Toolchain::Host {
            1
        } else {
            0
        },
        Question::Target => if last.target == Target::Emulator {
            1
        } else {
            0
        },
        Question::Emulator => match init::recalled(last.emulator, last.emulator_program) {
            EmulatorSetup::Docker => 0,
            EmulatorSetup::Program(_) => 1,
            EmulatorSetup::EachRun => 2,
        },
        _ => 0,
    }
}

/// Which entry of a question a remembered answer sits at, so it can be the
/// one already selected when the question is drawn.
pub fn starting_at(question: Question, remembered: &Option<Remembered>) -> (start: usize)
    ensures
        start == (match remembered {
            Some(last) => last_answer(question, *last),
            None => 0,
        }),
{
    match remembered {
        Some(last) => {
            let second: bool = match question {
                Question::Board => last.board == Board::Rosco6502,
                Question::Kind => last.kind == ProjectKind::Firmware,
                Question::Language => last.language == ProjectLanguage::Asm,
                Question::Toolchain => last.toolchain == Toolchain::Host,
                Question::Target => last.target == Target::Emulator,
                Question::Emulator => {
                    return match last.emulator() {
                        EmulatorSetup::Docker => 0,
                        EmulatorSetup::Program(_) => 1,
                        EmulatorSetup::EachRun => 2,
                    };
                },
                _ => false,
            };
            if second {
                1
            } else {
                0
            }
        },
        None => 0,
    }
}

/// What a question that is answered in words suggests: a name, or where the
/// emulator was last time, or what the environment says, or what it is called.
pub fn suggestion(
    question: Question,
    remembered: &Option<Remembered>,
    from_env: Option<&str>,
) -> (words: String)
    ensures
        question != Question::EmulatorPath ==> words@ == "hello"@,
        question == Question::EmulatorPath ==> words@ == (match (remembered, from_env) {
            (Some(last), _) if init::recalled(
                last.emulator,
                last.emulator_program,
            ) is Program => init::recalled(last.emulator, last.emulator_program)->Program_0@,
            (_, Some(program)) => program@,
            (_, None) => DEFAULT_PROGRAM@,
        }),
{
    match question {
        Question::EmulatorPath => {
            if let Some(last) = remembered {
                if let EmulatorSetup::Program(path) = last.emulator() {
                    return path;
                }
            }
            match from_env {
                Some(program) => program.to_owned(),
                None => DEFAULT_PROGRAM.to_owned(),
            }
        },
        _ => "hello".to_owned(),
    }
}

/// The answers once those of the last run have been taken for what was open.
pub open spec fn with_previous(answers: Answers, last: Remembered) -> Answers {
    Answers {
        name: answers.name,
        board: match answers.board {
            Some(board) => Some(board),
            None => Some(last.board),
        },
        kind: match answers.kind {
            Some(kind) => Some(kind),
            None => Some(last.kind),
        },
        language: match answers.language {
            Some(language) => Some(language),
            None => Some(last.language),
        },
        toolchain: match answers.toolchain {
            Some(toolchain) => Some(toolchain),
            None => Some(last.toolchain),
        },
        target: match answers.target {
            Some(target) => Some(target),
            None => Some(last.target),
        },
        emulator: match answers.emulator {
            Some(setup) => Some(setup),
            None => Some(init::recalled(last.emulator, last.emulator_program)),
        },
    }
}

/// The answers once one of the choices of a question has been taken.
pub open spec fn with_choice(answers: Answers, question: Question, choice: usize) -> Answers {
    match question {
        Question::Board => Answers {
            board: Some(
                if choice == 1 {
                    Board::Rosco6502
                } else {
                    Board::RoscoM68k
                },
            ),
            ..answers
        },
        Question::Kind => Answers {
            kind: Some(
                if choice == 1 {
                    ProjectKind::Firmware
                } else {
                    ProjectKind::Program
                },
            ),
            ..answers
        },
        Question::Language => Answers {
            language: Some(
                if choice == 1 {
                    ProjectLanguage::Asm
                } else {
                    ProjectLanguage::C
                },
            ),
            ..answers
        },
        Question::Toolchain => Answers {
            toolchain: Some(
                if choice == 1 {
                    Toolchain::Host
                } else {
                    Toolchain::Docker
                },
            ),
            ..answers
        },
        Question::Target => Answers {
            target: Some(
                if choice == 1 {
                    Target::Emulator
                } else {
                    Target::Hardware
                },
            ),
            ..answers
        },
        Question::Emulator => Answers {
            emulator: if choice == 0 {
                Some(EmulatorSetup::Docker)
            } else if choice == 1 {
                answers.emulator
            } else {
                Some(EmulatorSetup::EachRun)
            },
            ..answers
        },
        _ => answers,
    }
}

impl Answers {
    /// Takes the choice that answers a question. An emulator on this computer
    /// leads to the question where it is, and the last run's answers settle
    /// everything that was open.
    pub fn pick(
        &mut self,
        progress: &mut Progress,
        question: Question,
        choice: usize,
        remembered: &Option<Remembered>,
    )
        ensures
            *final(self) == (match (question, remembered) {
                (Question::Setup, Some(last)) => if choice == 0 {
                    with_previous(*old(self), *last)
                } else {
                    *old(self)
                },
                _ => with_choice(*old(self), question, choice),
            }),
            final(progress).setup_asked == (old(progress).setup_asked || question
                == Question::Setup),
            final(progress).path_wanted == (old(progress).path_wanted || (question
                == Question::Emulator && choice == 1)),
    {
        match question {
            Question::Setup => {
                progress.setup_asked = true;
                if choice == 0 {
                    if let Some(last) = remembered {
                        self.take(last);
                    }
                }
            },
            Question::Board => {
                self.board = Some(
                    if choice == 1 {
                        Board::Rosco6502
                    } else {
                        Board::RoscoM68k
                    },
                );
            },
            Question::Kind => {
                self.kind = Some(
                    if choice == 1 {
                        ProjectKind::Firmware
                    } else {
                        ProjectKind::Program
                    },
                );
            },
            Question::Language => {
                self.language = Some(
                    if choice == 1 {
                        ProjectLanguage::Asm
                    } else {
                        ProjectLanguage::C
                    },
                );
            },
            Question::Toolchain => {
                self.toolchain = Some(
                    if choice == 1 {
                        Toolchain::Host
                    } else {
                        Toolchain::Docker
                    },
                );
            },
            Question::Target => {
                self.target = Some(
                    if choice == 1 {
                        Target::Emulator
                    } else {
                        Target::Hardware
                    },
                );
            },
            Question::Emulator => {
                if choice == 0 {
                    self.emulator = Some(EmulatorSetup::Docker);
                } else if choice == 1 {
                    progress.path_wanted = true;
                } else {
                    self.emulator = Some(EmulatorSetup::EachRun);
                }
            },
            _ => {},
        }
    }

    fn take(&mut self, last: &Remembered)
        ensures
            *final(self) == with_previous(*old(self), *last),
    {
        if self.board.is_none() {
            self.board = Some(last.board);
        }
        if self.kind.is_none() {
            self.kind = Some(last.kind);
        }
        if self.language.is_none() {
            self.language = Some(last.language);
        }
        if self.toolchain.is_none() {
            self.toolchain = Some(last.toolchain);
        }
        if self.target.is_none() {
            self.target = Some(last.target);
        }
        if self.emulator.is_none() {
            self.emulator = Some(last.emulator());
        }
    }

    /// Takes the words that answer a question: the project's name, or where
    /// the emulator is.
    pub fn write(&mut self, question: Question, words: String)
        ensures
            *final(self) == (match question {
                Question::Name => Answers { name: Some(words), ..*old(self) },
                Question::EmulatorPath => Answers {
                    emulator: Some(EmulatorSetup::Program(words)),
                    ..*old(self)
                },
                _ => *old(self),
            }),
    {
        match question {
            Question::Name => {
                self.name = Some(words);
            },
            Question::EmulatorPath => {
                self.emulator = Some(EmulatorSetup::Program(words));
            },
            _ => {},
        }
    }

    /// The project that the answers describe, with the default for anything
    /// that is open. A firmware project has no choice about its language and
    /// where it runs: it is assembly, and only the emulator here can run it.
    pub fn plan(self) -> (planned: Result<(String, ProjectPlan), String>)
        ensures
            match self.name {
                None => planned matches Err(words) && words@
                    == "no project name; `rosco init hello` creates one, and `rosco init --help` lists what else can be chosen"@,
                Some(given) => planned matches Ok((name, plan)) && {
                    &&& name == given
                    &&& plan.board == (match self.board {
                        Some(board) => board,
                        None => Board::RoscoM68k,
                    })
                    &&& plan.kind == (match self.kind {
                        Some(kind) => kind,
                        None => ProjectKind::Program,
                    })
                    &&& plan.language == (match (plan.kind, self.language) {
                        (ProjectKind::Firmware, _) => ProjectLanguage::Asm,
                        (ProjectKind::Program, Some(language)) => language,
                        (ProjectKind::Program, None) => ProjectLanguage::C,
                    })
                    &&& plan.toolchain == (match self.toolchain {
                        Some(toolchain) => toolchain,
                        None => Toolchain::Docker,
                    })
                    &&& plan.target == (match (plan.kind, self.target) {
                        (ProjectKind::Firmware, _) => Target::Emulator,
                        (ProjectKind::Program, Some(target)) => target,
                        (ProjectKind::Program, None) => Target::Hardware,
                    })
                    &&& plan.emulator == (match self.emulator {
                        Some(setup) => setup,
                        None => EmulatorSetup::EachRun,
                    })
                },
            },
    {
        let name = match self.name {
            Some(name) => name,
            None => {
                return Err(
                    "no project name; `rosco init hello` creates one, and `rosco init --help` lists what else can be chosen".to_owned(),
                );
            },
        };
        let kind = match self.kind {
            Some(kind) => kind,
            None => ProjectKind::Program,
        };
        let board = match self.board {
            Some(board) => board,
            None => Board::RoscoM68k,
        };
        let toolchain = match self.toolchain {
            Some(toolchain) => toolchain,
            None => Toolchain::Docker,
        };
        let emulator = match self.emulator {
            Some(setup) => setup,
            None => EmulatorSetup::EachRun,
        };
        let language = match (kind, self.language) {
            (ProjectKind::Firmware, _) => ProjectLanguage::Asm,
            (ProjectKind::Program, Some(language)) => language,
            (ProjectKind::Program, None) => ProjectLanguage::C,
        };
        let target = match (kind, self.target) {
            (ProjectKind::Firmware, _) => Target::Emulator,
            (ProjectKind::Program, Some(target)) => target,
            (ProjectKind::Program, None) => Target::Hardware,
        };
        Ok((name, ProjectPlan { board, kind, language, toolchain, target, emulator }))
    }
}

/// Taking the last run's answers leaves nothing to ask.
pub proof fn previous_answers_settle_everything(
    answers: Answers,
    last: Remembered,
    progress: Progress,
)
    requires
        answers.name is Some,
    ensures
        next_of(with_previous(answers, last), progress, true) is None,
{
}

/// Taking the last run's answers changes nothing that was settled already.
pub proof fn previous_answers_only_fill_in(answers: Answers, last: Remembered)
    ensures
        with_previous(answers, last).name == answers.name,
        answers.board is Some ==> with_previous(answers, last).board == answers.board,
        answers.kind is Some ==> with_previous(answers, last).kind == answers.kind,
        answers.language is Some ==> with_previous(answers, last).language == answers.language,
        answers.toolchain is Some ==> with_previous(answers, last).toolchain == answers.toolchain,
        answers.target is Some ==> with_previous(answers, last).target == answers.target,
        answers.emulator is Some ==> with_previous(answers, last).emulator == answers.emulator,
{
}

/// A question opens on the answer it was given last time: choosing what it
/// starts on gives that answer again.
pub proof fn a_question_opens_on_the_last_answer(answers: Answers, last: Remembered)
    ensures
        with_choice(answers, Question::Board, last_answer(Question::Board, last)).board == Some(
            last.board,
        ),
        with_choice(answers, Question::Kind, last_answer(Question::Kind, last)).kind == Some(
            last.kind,
        ),
        with_choice(
            answers,
            Question::Language,
            last_answer(Question::Language, last),
        ).language == Some(last.language),
        with_choice(
            answers,
            Question::Toolchain,
            last_answer(Question::Toolchain, last),
        ).toolchain == Some(last.toolchain),
        with_choice(answers, Question::Target, last_answer(Question::Target, last)).target == Some(
            last.target,
        ),
{
}

/// How many answers a conversation still lacks.
pub open spec fn open_count(answers: Answers, progress: Progress) -> nat {
    let one = |open: bool|
        if open {
            1nat
        } else {
            0nat
        };
    one(answers.name is None) + one(!progress.setup_asked) + one(answers.board is None) + one(
        answers.kind is None,
    ) + one(answers.language is None) + one(answers.toolchain is None) + one(
        answers.target is None,
    ) + one(answers.emulator is None) + one(!progress.path_wanted)
}

/// Every answer brings the conversation nearer to its end, so no question is
/// asked for ever.
pub proof fn the_conversation_ends(
    answers: Answers,
    progress: Progress,
    remembered: bool,
    choice: usize,
    words: String,
)
    ensures
        match next_of(answers, progress, remembered) {
            None => true,
            Some(Question::Name) => open_count(
                (Answers { name: Some(words), ..answers }),
                progress,
            ) < open_count(answers, progress),
            Some(Question::EmulatorPath) => open_count(
                (Answers { emulator: Some(EmulatorSetup::Program(words)), ..answers }),
                progress,
            ) < open_count(answers, progress),
            Some(Question::Setup) => open_count(
                answers,
                (Progress { setup_asked: true, ..progress }),
            ) < open_count(answers, progress),
            Some(question) => open_count(
                with_choice(answers, question, choice),
                (Progress {
                    path_wanted: progress.path_wanted || (question == Question::Emulator && choice
                        == 1),
                    ..progress
                }),
            ) < open_count(answers, progress),
        },
{
}

/// A choice means what it says: each of the answers that a question offers
/// settles the thing it names, and no other question.
pub proof fn a_choice_means_what_it_says(
    answers: Answers,
    progress: Progress,
    question: Question,
    choice: usize,
    list: Vec<Choice<'static>>,
    after: Answers,
    later: Progress,
)
    requires
        call_ensures(choices, (question,), list),
        choice < list@.len(),
        exists|before: &mut Answers, now: &mut Progress|
            #[trigger] call_ensures(
                Answers::pick,
                (before, now, question, choice, &None::<Remembered>),
                (),
            ) && *before == answers && *now == progress && *final(before) == after && *final(now)
                == later,
    ensures
        ({
            let label = list@[choice as int].label@;
            &&& question == Question::Board ==> (after.board matches Some(board) && label
                == config::board_word(board))
            &&& question == Question::Kind ==> after.kind == Some(
                if label == "The firmware"@ {
                    ProjectKind::Firmware
                } else {
                    ProjectKind::Program
                },
            )
            &&& question == Question::Language ==> after.language == Some(
                if label == "C"@ {
                    ProjectLanguage::C
                } else {
                    ProjectLanguage::Asm
                },
            )
            &&& question == Question::Toolchain ==> after.toolchain == Some(
                if label == "Docker"@ {
                    Toolchain::Docker
                } else {
                    Toolchain::Host
                },
            )
            &&& question == Question::Target ==> after.target == Some(
                if label == "Emulator"@ {
                    Target::Emulator
                } else {
                    Target::Hardware
                },
            )
            &&& question == Question::Emulator ==> {
                &&& label == "Docker"@ ==> after.emulator == Some(EmulatorSetup::Docker)
                &&& label == "Decide each run"@ ==> after.emulator == Some(EmulatorSetup::EachRun)
                &&& label == "This computer"@ ==> after.emulator == answers.emulator
                    && later.path_wanted
            }
        }),
        after.name == answers.name,
        question != Question::Board ==> after.board == answers.board,
        question != Question::Kind ==> after.kind == answers.kind,
        question != Question::Language ==> after.language == answers.language,
        question != Question::Toolchain ==> after.toolchain == answers.toolchain,
        question != Question::Target ==> after.target == answers.target,
        question != Question::Emulator ==> after.emulator == answers.emulator,
{
    let views = install::choice_views(list@);
    assert(views.len() == list@.len());
    assert(views[choice as int] == (
        list@[choice as int].label@,
        list@[choice as int].detail@,
    ));
    reveal_strlit("The firmware");
    reveal_strlit("A program");
    reveal_strlit("C");
    reveal_strlit("Assembly");
    reveal_strlit("Docker");
    reveal_strlit("This computer");
    reveal_strlit("Hardware");
    reveal_strlit("Emulator");
    reveal_strlit("Decide each run");
    assert("A program"@[0] == 'A' && "The firmware"@[0] == 'T' && "C"@[0] == 'C'
        && "Assembly"@[0] == 'A' && "Docker"@[1] == 'o' && "Decide each run"@[1] == 'e'
        && "This computer"@[0] == 'T' && "Hardware"@[0] == 'H' && "Emulator"@[0] == 'E');
}

/// Only what is open is asked, firmware is never asked for a language or a
/// target, the last answers are offered once at most, and there is nothing left
/// to ask exactly where nothing is open.
pub proof fn only_what_is_open_is_asked(
    answers: Answers,
    progress: Progress,
    remembered: bool,
    question: Option<Question>,
)
    requires
        call_ensures(next_question, (&answers, &progress, remembered), question),
    ensures
        question == Some(Question::Name) <==> answers.name is None,
        question == Some(Question::Setup) <==> remembered && !progress.setup_asked && answers.name
            is Some && (answers.board is None || answers.kind is None || answers.language is None
            || answers.toolchain is None || answers.target is None || answers.emulator is None),
        question == Some(Question::Board) ==> answers.board is None,
        question == Some(Question::Kind) ==> answers.kind is None && answers.board is Some,
        question == Some(Question::Language) ==> answers.language is None && answers.kind == Some(
            ProjectKind::Program,
        ),
        question == Some(Question::Toolchain) ==> answers.toolchain is None,
        question == Some(Question::Target) ==> answers.target is None && answers.kind == Some(
            ProjectKind::Program,
        ),
        question == Some(Question::Emulator) ==> answers.emulator is None && !progress.path_wanted,
        question == Some(Question::EmulatorPath) ==> answers.emulator is None
            && progress.path_wanted,
        question is None ==> answers.name is Some && answers.board is Some && answers.kind is Some
            && answers.toolchain is Some && answers.emulator is Some,
        question is None && answers.kind == Some(ProjectKind::Program) ==> answers.language is Some
            && answers.target is Some,
{
}

/// What was answered is what is planned. Firmware alone has no choice about its
/// language and where it runs.
pub proof fn what_was_answered_is_planned(
    answers: Answers,
    planned: Result<(String, ProjectPlan), String>,
)
    requires
        call_ensures(Answers::plan, (answers,), planned),
    ensures
        planned is Ok <==> answers.name is Some,
        planned matches Ok((name, plan)) ==> {
            &&& answers.name == Some(name)
            &&& answers.board matches Some(board) ==> plan.board == board
            &&& answers.kind matches Some(kind) ==> plan.kind == kind
            &&& answers.toolchain matches Some(toolchain) ==> plan.toolchain == toolchain
            &&& answers.emulator matches Some(setup) ==> plan.emulator == setup
            &&& plan.kind == ProjectKind::Program ==> {
                &&& answers.language matches Some(language) ==> plan.language == language
                &&& answers.target matches Some(target) ==> plan.target == target
            }
            &&& plan.kind == ProjectKind::Firmware ==> plan.language == ProjectLanguage::Asm
                && plan.target == Target::Emulator
        },
{
}

/// What is left open is planned as if the first choice of its question had been
/// taken, but for the emulator, which is then decided each run.
pub proof fn the_first_choice_is_the_default(
    answers: Answers,
    progress: Progress,
    question: Question,
    after: Answers,
    later: Progress,
    planned: Result<(String, ProjectPlan), String>,
    again: Result<(String, ProjectPlan), String>,
)
    requires
        match question {
            Question::Board => answers.board is None,
            Question::Kind => answers.kind is None,
            Question::Language => answers.language is None,
            Question::Toolchain => answers.toolchain is None,
            Question::Target => answers.target is None,
            _ => false,
        },
        exists|before: &mut Answers, now: &mut Progress|
            #[trigger] call_ensures(
                Answers::pick,
                (before, now, question, 0usize, &None::<Remembered>),
                (),
            ) && *before == answers && *now == progress && *final(before) == after && *final(now)
                == later,
        call_ensures(Answers::plan, (answers,), planned),
        call_ensures(Answers::plan, (after,), again),
        answers.name is Some,
    ensures
        planned == again,
        answers.emulator is None ==> planned->Ok_0.1.emulator == EmulatorSetup::EachRun,
{
}

/// What the command line says is what is planned, without a question.
pub proof fn what_was_said_is_planned(
    args: InitArgs,
    answers: Answers,
    planned: Result<(String, ProjectPlan), String>,
)
    requires
        call_ensures(told, (&args,), Ok::<Answers, String>(answers)),
        call_ensures(Answers::plan, (answers,), planned),
        args.name@.len() > 0,
    ensures
        planned matches Ok((name, plan)) && {
            &&& name@ == args.name@[args.name@.len() - 1]@
            &&& args.board matches Some(board) ==> plan.board == board
            &&& args.kind matches Some(kind) ==> plan.kind == kind
            &&& args.toolchain.docker ==> plan.toolchain == Toolchain::Docker
            &&& args.toolchain.host && !args.toolchain.docker ==> plan.toolchain == Toolchain::Host
            &&& args.emulator_path matches Some(path) ==> (plan.emulator matches
                EmulatorSetup::Program(program) && program@ == path@)
            &&& args.emulator_path is None && args.emulator_docker ==> plan.emulator
                == EmulatorSetup::Docker
            &&& args.emulator_path is None && !args.emulator_docker ==> plan.emulator
                == EmulatorSetup::EachRun
            &&& plan.kind == ProjectKind::Program ==> {
                &&& args.target matches Some(target) ==> plan.target == target
                &&& args.language matches Some(language) ==> plan.language == language
            }
        },
{
}

} // verus!
