use rosco_cli::cli::{InitArgs, ProjectLanguage, ToolchainArgs};
use rosco_cli::config::{Board, ProjectKind, Target, Toolchain};
use rosco_cli::init::{EmulatorSetup, ProjectPlan, Remembered};
use rosco_cli::questions::{
    choices, next_question, setup_choices, starting_at, suggestion, told, Answers, Progress,
    Question,
};

fn nothing_told() -> InitArgs {
    InitArgs {
        name: Vec::new(),
        board: None,
        kind: None,
        language: None,
        target: None,
        emulator_docker: false,
        emulator_path: None,
        toolchain: ToolchainArgs::default(),
        yes: false,
    }
}

fn last_time() -> Remembered {
    Remembered::of(&ProjectPlan {
        board: Board::Rosco6502,
        kind: ProjectKind::Program,
        language: ProjectLanguage::Asm,
        toolchain: Toolchain::Host,
        target: Target::Hardware,
        emulator: EmulatorSetup::Program("/opt/rosco".to_string()),
    })
}

fn answers(args: &InitArgs) -> Answers {
    match told(args) {
        Ok(answers) => answers,
        Err(words) => panic!("{words}"),
    }
}

const START: Progress = Progress {
    setup_asked: false,
    path_wanted: false,
};

#[test]
fn a_question_opens_on_the_answer_it_was_given_last_time() {
    let remembered = Some(last_time());
    assert_eq!(starting_at(Question::Board, &remembered), 1);
    assert_eq!(starting_at(Question::Target, &remembered), 0);
    // Nothing remembered leaves the first entry selected.
    assert_eq!(starting_at(Question::Toolchain, &None), 0);
}

#[test]
fn every_question_offers_exactly_as_many_answers_as_it_has() {
    assert_eq!(choices(Question::Board).len(), 2);
    assert_eq!(choices(Question::Language).len(), 2);
    assert_eq!(choices(Question::Toolchain).len(), 2);
    assert_eq!(choices(Question::Target).len(), 2);
    assert_eq!(choices(Question::Kind).len(), 2);
    assert_eq!(choices(Question::Emulator).len(), 3);
    assert_eq!(setup_choices("what was chosen").len(), 2);

    // Each of them is a different answer.
    for question in [
        Question::Board,
        Question::Kind,
        Question::Language,
        Question::Toolchain,
        Question::Target,
    ] {
        let mut given = Vec::new();
        for choice in 0..2 {
            let mut answers = answers(&nothing_told());
            let mut progress = START;
            answers.pick(&mut progress, question, choice, &None);
            given.push((
                answers.board,
                answers.kind,
                answers.language,
                answers.toolchain,
                answers.target,
            ));
        }
        assert_ne!(given[0], given[1]);
    }
}

/// Asks until nothing is left to ask, always giving the same choice.
fn conversation(
    mut answers: Answers,
    remembered: Option<Remembered>,
    choice: usize,
) -> (Vec<Question>, Answers) {
    let mut progress = START;
    let mut asked = Vec::new();
    while let Some(question) = next_question(&answers, &progress, remembered.is_some()) {
        asked.push(question);
        match question {
            Question::Name | Question::EmulatorPath => {
                let words = suggestion(question, &remembered, None);
                answers.write(question, words);
                progress.path_wanted = false;
            }
            _ => answers.pick(&mut progress, question, choice, &remembered),
        }
        assert!(asked.len() < 20, "the conversation ends");
    }
    (asked, answers)
}

#[test]
fn nothing_said_is_asked_in_order() {
    let (asked, answers) = conversation(answers(&nothing_told()), None, 0);
    assert_eq!(
        asked,
        [
            Question::Name,
            Question::Board,
            Question::Kind,
            Question::Language,
            Question::Toolchain,
            Question::Target,
            Question::Emulator,
        ]
    );
    let Ok((name, plan)) = answers.plan() else {
        panic!("it has a name");
    };
    assert_eq!(name, "hello");
    assert_eq!(plan.board, Board::RoscoM68k);
    assert_eq!(plan.toolchain, Toolchain::Docker);
    assert!(matches!(plan.emulator, EmulatorSetup::Docker));
}

#[test]
fn firmware_is_never_asked_for_a_language_or_a_target() {
    let (asked, answers) = conversation(answers(&nothing_told()), None, 1);
    assert_eq!(
        asked,
        [
            Question::Name,
            Question::Board,
            Question::Kind,
            Question::Toolchain,
            Question::Emulator,
            Question::EmulatorPath,
        ]
    );
    let Ok((_, plan)) = answers.plan() else {
        panic!("it has a name");
    };
    assert_eq!(plan.kind, ProjectKind::Firmware);
    assert_eq!(plan.language, ProjectLanguage::Asm);
    assert_eq!(plan.target, Target::Emulator);
    assert!(matches!(
        plan.emulator,
        EmulatorSetup::Program(path) if path == "rosco-emulator"
    ));
}

#[test]
fn previous_answers_settle_everything_that_was_not_said() {
    let args = InitArgs {
        name: vec!["hello".to_string()],
        board: Some(Board::RoscoM68k),
        ..nothing_told()
    };
    let (asked, answers) = conversation(answers(&args), Some(last_time()), 0);
    assert_eq!(asked, [Question::Setup]);
    let Ok((_, plan)) = answers.plan() else {
        panic!("it has a name");
    };
    // What was said wins over what was said last time.
    assert_eq!(plan.board, Board::RoscoM68k);
    assert_eq!(plan.language, ProjectLanguage::Asm);
    assert_eq!(plan.toolchain, Toolchain::Host);
    assert_eq!(plan.target, Target::Hardware);
    assert!(matches!(plan.emulator, EmulatorSetup::Program(path) if path == "/opt/rosco"));
}

#[test]
fn asking_again_starts_from_the_first_question() {
    let (asked, _) = conversation(answers(&nothing_told()), Some(last_time()), 1);
    assert_eq!(asked[..3], [Question::Name, Question::Setup, Question::Board]);
    assert_eq!(
        suggestion(Question::EmulatorPath, &Some(last_time()), Some("/env")),
        "/opt/rosco"
    );
    assert_eq!(suggestion(Question::EmulatorPath, &None, Some("/env")), "/env");
    assert_eq!(Question::Kind.words(), "Runs as");
}

#[test]
fn everything_said_leaves_nothing_to_ask() {
    let args = InitArgs {
        name: vec!["asm".to_string(), "hello".to_string()],
        board: Some(Board::Rosco6502),
        kind: Some(ProjectKind::Program),
        target: Some(Target::Emulator),
        emulator_docker: true,
        toolchain: ToolchainArgs {
            docker: false,
            host: true,
        },
        ..nothing_told()
    };
    let (asked, answers) = conversation(answers(&args), Some(last_time()), 0);
    assert!(asked.is_empty());
    let Ok((name, plan)) = answers.plan() else {
        panic!("it has a name");
    };
    assert_eq!(name, "hello");
    assert_eq!(plan.language, ProjectLanguage::Asm);
    assert_eq!(plan.toolchain, Toolchain::Host);
}

#[test]
fn a_project_without_a_name_is_refused() {
    let Err(words) = answers(&nothing_told()).plan() else {
        panic!("it has no name");
    };
    assert_eq!(
        words,
        "no project name; `rosco init hello` creates one, and `rosco init --help` lists what \
         else can be chosen"
    );
    let args = InitArgs {
        name: vec!["hullo".to_string(), "hello".to_string()],
        ..nothing_told()
    };
    assert!(told(&args).is_err());
}
