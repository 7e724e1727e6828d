use rosco_cli::prompt::{
    choice_lines, first_choice, fit, interpret, select, Choice, Key, Line, Pressed,
};

#[test]
fn a_detail_that_fits_is_left_alone() {
    assert_eq!(fit("the toolchain image", 40), "the toolchain image");
}

#[test]
fn a_detail_that_does_not_is_cut_where_the_line_ends() {
    let cut = fit("rosco_6502/asm, host build, emulator, docker emulator", 20);
    assert_eq!(cut.chars().count(), 20);
    assert!(cut.ends_with("..."), "{cut}");
}

#[test]
fn a_terminal_too_narrow_for_anything_still_produces_a_line() {
    assert_eq!(fit("anything", 0), "...");
}

#[test]
fn nothing_is_left_hanging_before_the_ellipsis() {
    assert_eq!(fit("one two three", 7), "one...");
    assert_eq!(fit("exactly", 7), "exactly");
}

#[test]
fn a_line_is_typed_a_key_at_a_time() {
    let mut line = Line::new();
    assert_eq!(line.answer("hello"), "hello");
    for key in [Key::Char(' '), Key::Char('a'), Key::Up, Key::Char('b'), Key::Backspace] {
        assert!(!line.key(key));
    }
    assert_eq!(line.shown(), " a");
    assert!(line.key(Key::Enter));
    assert_eq!(line.answer("hello"), "a");

    let mut blank = Line::new();
    blank.key(Key::Backspace);
    blank.key(Key::Char(' '));
    assert_eq!(blank.answer("hello"), "hello");
}

#[test]
fn a_choice_wraps_round_both_ends() {
    assert_eq!(first_choice(7, 3), 2);
    assert_eq!(first_choice(1, 3), 1);
    assert_eq!(select(Key::Up, 0, 3), Some(2));
    assert_eq!(select(Key::Char('k'), 2, 3), Some(1));
    assert_eq!(select(Key::Down, 2, 3), Some(0));
    assert_eq!(select(Key::Char('j'), 0, 3), Some(1));
    assert_eq!(select(Key::Tab, 1, 3), Some(2));
    assert_eq!(select(Key::Char('x'), 1, 3), Some(1));
    assert_eq!(select(Key::Enter, 1, 3), None);
    assert_eq!(select(Key::Char(' '), 1, 3), None);
}

#[test]
fn control_keys_are_told_apart() {
    assert_eq!(interpret(Key::Escape, false, true), Pressed::Cancel);
    assert_eq!(interpret(Key::Char('c'), true, true), Pressed::Cancel);
    assert_eq!(interpret(Key::Char('d'), true, true), Pressed::Cancel);
    assert_eq!(
        interpret(Key::Char('c'), false, true),
        Pressed::Answer(Key::Char('c'))
    );
    assert_eq!(
        interpret(Key::Char('j'), true, true),
        Pressed::Answer(Key::Enter)
    );
    assert_eq!(interpret(Key::Char('x'), true, true), Pressed::Nothing);
    // The release of a key is not another press.
    assert_eq!(interpret(Key::Escape, false, false), Pressed::Nothing);
}

#[test]
fn choices_are_drawn_in_columns_that_fit() {
    let choices = vec![
        Choice {
            label: "C",
            detail: "a main() and the C library",
        },
        Choice {
            label: "Assembly",
            detail: "the machine and nothing between you and it",
        },
    ];
    let lines = choice_lines(&choices, 1, 30);
    assert_eq!(lines.len(), 2);
    assert!(!lines[0].selected);
    assert_eq!(lines[0].label, "    C       ");
    // Marker, label, gap and a spare column leave fifteen.
    assert_eq!(lines[0].detail, "  a main() and...");
    assert!(lines[1].selected);
    assert_eq!(lines[1].label, "  > Assembly");
    assert_eq!(lines[1].detail, "  the machine...");
}
