//! The questions `rosco init` asks when it has a terminal to ask them in.
//!
//! Everything here has an option on the command line as well, and a default
//! that a non-interactive run takes without asking, so a script never waits
//! for an answer that is not coming.
use vstd::prelude::*;
use vstd::string::*;

use crate::text;
use crate::text::{byte_length, cat, chars_of, pad_right, part_of, text_of, trim, trim_end};

verus! {

/// One answer to a question, with a word about what choosing it means.
#[derive(Clone, Copy, Debug)]
pub struct Choice<'a> {
    pub label: &'a str,
    pub detail: &'a str,
}

/// A key, as far as questions tell them apart.
#[derive(Clone, Copy, Debug, PartialEq, Eq, Structural)]
pub enum Key {
    Enter,
    Backspace,
    Escape,
    Up,
    Down,
    Tab,
    Char(char),
    Other,
}

/// What a key press means.
#[derive(Clone, Copy, Debug, PartialEq, Eq, Structural)]
pub enum Pressed {
    /// Nothing; the next one is waited for.
    Nothing,
    /// The end of the run, rather than an answer nobody meant.
    Cancel,
    Answer(Key),
}

/// What a key press means. Ctrl-C and Escape end the run. A terminal that
/// sends a line feed for Enter is indistinguishable from one whose user held
/// Ctrl and pressed J; either way the answer is finished. Every other
/// combination with Ctrl is for something else.
pub fn interpret(key: Key, control: bool, press: bool) -> (pressed: Pressed)
    ensures
        pressed == (if !press {
            Pressed::Nothing
        } else if key == Key::Escape || (control && (key == Key::Char('c') || key == Key::Char(
            'd',
        ))) {
            Pressed::Cancel
        } else if !control {
            Pressed::Answer(key)
        } else if key == Key::Char('j') || key == Key::Char('m') {
            Pressed::Answer(Key::Enter)
        } else {
            Pressed::Nothing
        }),
{
    // A key that is released says nothing.
    if !press {
        return Pressed::Nothing;
    }
    match key {
        Key::Escape => Pressed::Cancel,
        Key::Char(ch) => if control {
            if ch == 'c' || ch == 'd' {
                Pressed::Cancel
            } else if ch == 'j' || ch == 'm' {
                Pressed::Answer(Key::Enter)
            } else {
                Pressed::Nothing
            }
        } else {
            Pressed::Answer(key)
        },
        _ => if control {
            Pressed::Nothing
        } else {
            Pressed::Answer(key)
        },
    }
}

/// A line of text that is being typed.
pub struct Line {
    pub typed: Vec<char>,
}

impl Line {
    pub fn new() -> (line: Line)
        ensures
            line.typed@ == Seq::<char>::empty(),
    {
        Line { typed: Vec::new() }
    }

    /// Takes a key, and says whether it ends the line.
    pub fn key(&mut self, key: Key) -> (done: bool)
        ensures
            done == (key == Key::Enter),
            final(self).typed@ == (match key {
                Key::Char(ch) => old(self).typed@.push(ch),
                Key::Backspace => if old(self).typed@.len() > 0 {
                    old(self).typed@.drop_last()
                } else {
                    old(self).typed@
                },
                _ => old(self).typed@,
            }),
    {
        match key {
            Key::Enter => true,
            Key::Backspace => {
                let _ = self.typed.pop();
                false
            },
            Key::Char(ch) => {
                self.typed.push(ch);
                false
            },
            _ => false,
        }
    }

    /// What has been typed.
    pub fn shown(&self) -> (words: String)
        ensures
            words@ == self.typed@,
    {
        text_of(self.typed.as_slice())
    }

    /// The answer, with `default` for an empty one.
    pub fn answer(&self, default: &str) -> (answer: String)
        ensures
            answer@ == (if text::trimmed(self.typed@).len() == 0 {
                default@
            } else {
                text::trimmed(self.typed@)
            }),
    {
        let answer = trim(self.shown().as_str());
        if chars_of(answer.as_str()).len() == 0 {
            default.to_owned()
        } else {
            answer
        }
    }
}

/// Which choice a question starts on: the one it was told, or the last.
pub fn first_choice(default: usize, count: usize) -> (current: usize)
    ensures
        count > 0 ==> current == (if default < count {
            default
        } else {
            (count - 1) as usize
        }),
        count == 0 ==> current == 0,
{
    if count == 0 {
        0
    } else if default < count {
        default
    } else {
        count - 1
    }
}

/// Takes a key while a choice is selected: the choice that is selected then,
/// or nothing when this one is the answer.
pub fn select(key: Key, current: usize, count: usize) -> (next: Option<usize>)
    requires
        current < count,
    ensures
        match key {
            Key::Enter => next is None,
            Key::Up => next == Some((if current > 0 {
                current - 1
            } else {
                count - 1
            }) as usize),
            Key::Down | Key::Tab => next == Some((if current + 1 < count {
                current + 1
            } else {
                0
            }) as usize),
            Key::Char(ch) => if ch == ' ' {
                next is None
            } else if ch == 'k' {
                next == Some((if current > 0 {
                    current - 1
                } else {
                    count - 1
                }) as usize)
            } else if ch == 'j' {
                next == Some((if current + 1 < count {
                    current + 1
                } else {
                    0
                }) as usize)
            } else {
                next == Some(current)
            },
            _ => next == Some(current),
        },
        next matches Some(next) ==> next < count,
{
    let up: usize = if current > 0 {
        current - 1
    } else {
        count - 1
    };
    let down: usize = if current < count - 1 {
        current + 1
    } else {
        0
    };
    match key {
        Key::Enter => None,
        Key::Up => Some(up),
        Key::Down | Key::Tab => Some(down),
        Key::Char(ch) => if ch == ' ' {
            None
        } else if ch == 'k' {
            Some(up)
        } else if ch == 'j' {
            Some(down)
        } else {
            Some(current)
        },
        _ => Some(current),
    }
}

/// A text cut to a width, with an ellipsis where it was cut.
pub open spec fn fitted(text: Seq<char>, width: int) -> Seq<char> {
    if text.len() <= width {
        text
    } else {
        text::without_end(
            text.take(
                if width > 3 {
                    width - 3
                } else {
                    0
                },
            ),
        ) + "..."@
    }
}

/// `text` cut to `width` columns, with an ellipsis where it was cut.
pub fn fit(text: &str, width: usize) -> (cut: String)
    ensures
        cut@ == fitted(text@, width as int),
{
    let chars = chars_of(text);
    if chars.len() <= width {
        return text.to_owned();
    }
    let kept: usize = if width > 3 {
        width - 3
    } else {
        0
    };
    cat(trim_end(part_of(&chars, 0, kept).as_str()).as_str(), "...")
}

/// What is cut to a width is no wider than that, once there is room for the
/// ellipsis.
pub proof fn what_is_cut_fits(text: Seq<char>, width: int)
    requires
        width >= 3,
    ensures
        fitted(text, width).len() <= width,
{
    if text.len() > width {
        lemma_end_is_shorter(text.take(width - 3));
        reveal_strlit("...");
    }
}

proof fn lemma_end_is_shorter(text: Seq<char>)
    ensures
        text::without_end(text).len() <= text.len(),
    decreases text.len(),
{
    if text.len() > 0 && text::is_white(text.last()) {
        lemma_end_is_shorter(text.drop_last());
    }
}

/// The widest of the first labels, in bytes.
pub open spec fn label_width(choices: Seq<Choice>, count: nat) -> nat
    decreases count,
{
    if count == 0 || count > choices.len() {
        0
    } else {
        let before = label_width(choices, (count - 1) as nat);
        let last = vstd::utf8::encode_utf8(choices[count - 1].label@).len();
        if last > before {
            last
        } else {
            before
        }
    }
}

/// How many columns are left for what is said of a choice, so that it never
/// wraps: the marker, the labels and the gap between them take the rest.
pub open spec fn detail_room(columns: usize, width: nat) -> int {
    if columns > width + 7 {
        columns - width - 7
    } else {
        0
    }
}

/// One line of a question: the marker and the label, and what is said of it.
pub struct ChoiceLine {
    pub selected: bool,
    pub label: String,
    pub detail: String,
}

/// Whether a line shows a choice.
pub open spec fn shows_choice(
    line: ChoiceLine,
    choice: Choice,
    selected: bool,
    width: nat,
    columns: usize,
) -> bool {
    &&& line.selected == selected
    &&& line.label@ == (if selected {
        "  > "@
    } else {
        "    "@
    }) + choice.label@ + text::spaces(width - choice.label@.len())
    &&& line.detail@ == "  "@ + fitted(choice.detail@, detail_room(columns, width))
}

/// The lines of a question in a terminal of so many columns.
pub fn choice_lines(choices: &Vec<Choice>, current: usize, columns: usize) -> (lines: Vec<
    ChoiceLine,
>)
    ensures
        lines@.len() == choices@.len(),
        forall|i: int|
            0 <= i < lines@.len() ==> shows_choice(
                #[trigger] lines@[i],
                choices@[i],
                i == current,
                label_width(choices@, choices@.len()),
                columns,
            ),
{
    let mut width: usize = 0;
    for i in 0..choices.len()
        invariant
            width == label_width(choices@, i as nat),
    {
        let length: usize = byte_length(choices[i].label);
        if length > width {
            width = length;
        }
    }
    let room: usize = if columns >= 7 && columns - 7 > width {
        columns - 7 - width
    } else {
        0
    };
    let mut lines: Vec<ChoiceLine> = Vec::new();
    for i in 0..choices.len()
        invariant
            width == label_width(choices@, choices@.len()),
            room == detail_room(columns, width as nat),
            lines@.len() == i,
            forall|j: int|
                0 <= j < i ==> shows_choice(
                    #[trigger] lines@[j],
                    choices@[j],
                    j == current,
                    width as nat,
                    columns,
                ),
    {
        let selected: bool = i == current;
        let marker = if selected {
            "  > "
        } else {
            "    "
        };
        let label = cat(marker, pad_right(choices[i].label, width).as_str());
        let detail = cat("  ", fit(choices[i].detail, room).as_str());
        let line = ChoiceLine { selected, label, detail };
        assert(line.label@ == marker@ + choices@[i as int].label@ + text::spaces(
            width - choices@[i as int].label@.len(),
        ));
        lines.push(line);
    }
    lines
}

/// What does not fit is cut as late as it can be: what is left is the start of
/// the text and an ellipsis, and nothing but white space was given up for want
/// of a better place to cut.
pub proof fn a_text_is_cut_as_late_as_it_can_be(text: &str, width: usize, cut: String)
    requires
        call_ensures(fit, (text, width), cut),
    ensures
        text@.len() <= width ==> cut@ == text@,
        text@.len() > width ==> exists|kept: int| is_cut(cut@, text@, width as int, kept),
        width >= 3 ==> cut@.len() <= width,
{
    if width >= 3 {
        what_is_cut_fits(text@, width as int);
    }
    if text@.len() > width {
        let room: int = if width > 3 {
            width - 3
        } else {
            0
        };
        let start = text@.take(room);
        let kept = lemma_kept_start(start);
        assert(start.take(kept) == text@.take(kept));
        assert forall|i: int| kept <= i < room implies text::is_white(#[trigger] text@[i]) by {
            assert(start[i] == text@[i]);
        }
        assert(is_cut(cut@, text@, width as int, kept));
    }
}

/// Whether a text is the start of another, up to a place, and an ellipsis.
pub open spec fn is_cut(cut: Seq<char>, text: Seq<char>, width: int, kept: int) -> bool {
    &&& 0 <= kept <= text.len()
    &&& cut == text.take(kept) + "..."@
    &&& forall|i: int| kept <= i < width - 3 ==> text::is_white(#[trigger] text[i])
    &&& kept > 0 ==> !text::is_white(text[kept - 1])
}

proof fn lemma_kept_start(text: Seq<char>) -> (kept: int)
    ensures
        0 <= kept <= text.len(),
        text::without_end(text) == text.take(kept),
        forall|i: int| kept <= i < text.len() ==> text::is_white(#[trigger] text[i]),
        kept > 0 ==> !text::is_white(text[kept - 1]),
    decreases text.len(),
{
    if text.len() > 0 && text::is_white(text.last()) {
        let rest = text.drop_last();
        let kept = lemma_kept_start(rest);
        assert(rest.take(kept) == text.take(kept));
        assert forall|i: int| kept <= i < text.len() implies text::is_white(#[trigger] text[i]) by {
            if i < rest.len() {
                assert(rest[i] == text[i]);
            }
        }
        kept
    } else {
        assert(text.take(text.len() as int) == text);
        text.len() as int
    }
}

/// A step down leads to the next choice and from the last to the first, and a
/// step up takes it back.
pub proof fn a_step_up_undoes_a_step_down(
    current: usize,
    count: usize,
    down: Option<usize>,
    up: Option<usize>,
)
    requires
        current < count,
        call_ensures(select, (Key::Down, current, count), down),
        call_ensures(select, (Key::Up, down->0, count), up),
    ensures
        down matches Some(next) && next == (current + 1) % count as int,
        up == Some(current),
{
    if current + 1 < count {
        assert((current + 1) % count as int == current + 1) by (nonlinear_arith)
            requires
                0 <= current + 1 < count,
        ;
    } else {
        assert((current + 1) % count as int == 0) by (nonlinear_arith)
            requires
                current + 1 == count,
                count > 0,
        ;
    }
}

/// The letters move as the arrows do, Tab moves down, and Enter and the space
/// bar alone settle on a choice.
pub proof fn letters_move_as_arrows_do(
    key: Key,
    current: usize,
    count: usize,
    next: Option<usize>,
    down: Option<usize>,
    up: Option<usize>,
)
    requires
        current < count,
        call_ensures(select, (key, current, count), next),
        call_ensures(select, (Key::Down, current, count), down),
        call_ensures(select, (Key::Up, current, count), up),
    ensures
        next is None <==> key == Key::Enter || key == Key::Char(' '),
        key == Key::Tab || key == Key::Char('j') ==> next == down,
        key == Key::Char('k') ==> next == up,
        next != Some(current) && next is Some && count > 1 ==> next == down || next == up,
{
}

/// Nothing happens when a key is let go; without Ctrl every key but Escape is
/// itself, and with it only the ways to leave and to finish mean anything.
pub proof fn only_some_combinations_mean_anything(
    key: Key,
    control: bool,
    press: bool,
    pressed: Pressed,
)
    requires
        call_ensures(interpret, (key, control, press), pressed),
    ensures
        !press ==> pressed == Pressed::Nothing,
        press && key == Key::Escape ==> pressed == Pressed::Cancel,
        press && !control && key != Key::Escape ==> pressed == Pressed::Answer(key),
        press && control && key != Key::Escape ==> {
            &&& pressed == Pressed::Cancel <==> key == Key::Char('c') || key == Key::Char('d')
            &&& pressed matches Pressed::Answer(meant) ==> meant == Key::Enter
            &&& pressed is Answer <==> key == Key::Char('j') || key == Key::Char('m')
        },
{
}

/// A character that is typed is added to the line, the key that takes one back
/// leaves what stood before it, and every other key leaves the line as it is.
pub proof fn a_character_can_be_taken_back()
    ensures
        forall|line: &mut Line, key: Key, done: bool| #[trigger]
            call_ensures(Line::key, (line, key), done) && key is Char ==> !done
                && final(line).typed@ == line.typed@.push(key->Char_0),
        forall|line: &mut Line, before: Seq<char>, ch: char, done: bool| #[trigger]
            call_ensures(Line::key, (line, Key::Backspace), done) && line.typed@
                == #[trigger] before.push(ch) ==> !done && final(line).typed@ == before,
        forall|line: &mut Line, key: Key, done: bool| #[trigger]
            call_ensures(Line::key, (line, key), done) && key !is Char && key != Key::Backspace
                ==> final(line).typed@ == line.typed@ && done == (key == Key::Enter),
{
    assert forall|line: &mut Line, before: Seq<char>, ch: char, done: bool| #[trigger]
        call_ensures(Line::key, (line, Key::Backspace), done) && line.typed@
            == #[trigger] before.push(ch) implies (!done && final(line).typed@ == before) by {
        assert(before.push(ch).drop_last() == before);
    }
}

/// Whether every character of a text is white space.
pub open spec fn is_blank(text: Seq<char>) -> bool {
    forall|i: int| 0 <= i < text.len() ==> text::is_white(#[trigger] text[i])
}

/// An answer is what was typed without the white space around it, and the
/// default exactly where nothing else was typed.
pub proof fn a_blank_answer_is_the_default(
    line: &Line,
    default: &str,
    answer: String,
    typed: &str,
    plain: String,
)
    requires
        call_ensures(Line::answer, (line, default), answer),
        typed@ == line.typed@,
        call_ensures(trim, (typed,), plain),
    ensures
        is_blank(line.typed@) ==> answer@ == default@,
        !is_blank(line.typed@) ==> answer@ == plain@ && answer@.len() > 0,
{
    text::trimming_takes_white_space_only(typed, plain);
    let (from, to) = choose|from: int, to: int| text::is_core(plain@, typed@, from, to);
    assert(text::is_core(plain@, typed@, from, to));
    if is_blank(typed@) && from < to {
        assert(text::is_white(typed@[from]));
    }
}

/// A question starts on one of its choices: the one it was told, where there is
/// such a one.
pub proof fn a_question_starts_on_a_choice(default: usize, count: usize, current: usize)
    requires
        count > 0,
        call_ensures(first_choice, (default, count), current),
    ensures
        current < count,
        current <= default,
        default < count ==> current == default,
        default >= count ==> current + 1 == count,
{
}

/// Exactly the choice that is current is marked, every choice says what it is
/// called, and in a terminal that is wide enough no line is as wide as it.
pub proof fn a_question_fits_its_terminal(
    choices: &Vec<Choice>,
    current: usize,
    columns: usize,
    lines: Vec<ChoiceLine>,
    at: int,
)
    requires
        call_ensures(choice_lines, (choices, current, columns), lines),
        0 <= at < choices@.len(),
    ensures
        lines@.len() == choices@.len(),
        lines@[at].selected <==> at == current,
        lines@[at].label@.len() == 4 + label_width(choices@, choices@.len()),
        choices@[at].label@ == lines@[at].label@.subrange(4, choices@[at].label@.len() as int + 4),
        columns >= label_width(choices@, choices@.len()) + 10 ==> lines@[at].label@.len()
            + lines@[at].detail@.len() < columns,
{
    let width = label_width(choices@, choices@.len());
    let label = choices@[at].label@;
    reveal_strlit("  > ");
    reveal_strlit("    ");
    reveal_strlit("  ");
    assert(shows_choice(lines@[at], choices@[at], at == current, width, columns));
    lemma_no_wider(choices@, choices@.len(), at);
    lemma_encoded_length(label);
    assert(lines@[at].label@.subrange(4, label.len() as int + 4) == label);
    if columns >= width + 10 {
        what_is_cut_fits(choices@[at].detail@, detail_room(columns, width));
    }
}

proof fn lemma_no_wider(choices: Seq<Choice>, count: nat, at: int)
    requires
        0 <= at < count <= choices.len(),
    ensures
        vstd::utf8::encode_utf8(choices[at].label@).len() <= label_width(choices, count),
    decreases count,
{
    if at < count - 1 {
        lemma_no_wider(choices, (count - 1) as nat, at);
    }
}

proof fn lemma_encoded_length(text: Seq<char>)
    ensures
        text.len() <= vstd::utf8::encode_utf8(text).len(),
    decreases text.len(),
{
    if text.len() > 0 {
        lemma_encoded_length(text.drop_first());
    }
}

} // verus!
