//! Text, as the rest of the library reads and writes it.
//!
//! A string is a sequence of characters here, and every operation says what
//! it does to that sequence.
use vstd::prelude::*;
use vstd::string::*;

verus! {

/// `String::push` puts one character after the ones already there.
pub assume_specification[ String::push ](string: &mut String, ch: char)
    ensures
        final(string)@ == old(string)@.push(ch),
;

/// The characters of a string.
pub fn chars_of(text: &str) -> (chars: Vec<char>)
    ensures
        chars@ == text@,
{
    let mut chars: Vec<char> = Vec::new();
    for ch in it: text.chars()
        invariant
            chars@ == it.seq().take(it.index() as int),
            it.seq() == text@,
    {
        chars.push(ch);
    }
    chars
}

/// The string made of some characters.
pub fn text_of(chars: &[char]) -> (text: String)
    ensures
        text@ == chars@,
{
    let mut text = String::new();
    for i in 0..chars.len()
        invariant
            text@ == chars@.take(i as int),
    {
        text.push(chars[i]);
    }
    assert(chars@.take(chars@.len() as int) == chars@);
    text
}

/// Whether two strings hold the same characters.
pub fn same(left: &str, right: &str) -> (equal: bool)
    ensures
        equal == (left@ == right@),
{
    left.to_owned() == right.to_owned()
}

/// One string after another.
pub fn cat(first: &str, second: &str) -> (both: String)
    ensures
        both@ == first@ + second@,
{
    let mut both = first.to_owned();
    both.append(second);
    both
}

/// Whether one text comes before another, character by character.
pub open spec fn precedes(first: Seq<char>, second: Seq<char>) -> bool
    decreases first.len(),
{
    if second.len() == 0 {
        false
    } else if first.len() == 0 {
        true
    } else if first[0] == second[0] {
        precedes(first.drop_first(), second.drop_first())
    } else {
        (first[0] as int) < (second[0] as int)
    }
}

/// No text comes before itself.
pub proof fn lemma_precedes_irreflexive(text: Seq<char>)
    ensures
        !precedes(text, text),
    decreases text.len(),
{
    if text.len() > 0 {
        lemma_precedes_irreflexive(text.drop_first());
    }
}

/// What comes before a text comes before those that follow it.
pub proof fn lemma_precedes_transitive(first: Seq<char>, second: Seq<char>, third: Seq<char>)
    requires
        precedes(first, second),
        precedes(second, third),
    ensures
        precedes(first, third),
    decreases first.len(),
{
    if first.len() > 0 && first[0] == second[0] && second[0] == third[0] {
        lemma_precedes_transitive(first.drop_first(), second.drop_first(), third.drop_first());
    }
}

/// Two different texts are always in order, one way or the other.
pub proof fn lemma_precedes_total(first: Seq<char>, second: Seq<char>)
    requires
        first != second,
    ensures
        precedes(first, second) != precedes(second, first),
    decreases first.len(),
{
    if first.len() > 0 && second.len() > 0 && first[0] == second[0] {
        if first.drop_first() == second.drop_first() {
            assert(first == seq![first[0]] + first.drop_first());
            assert(second == seq![second[0]] + second.drop_first());
        }
        lemma_precedes_total(first.drop_first(), second.drop_first());
    } else if first.len() == 0 && second.len() == 0 {
        assert(first == second);
    }
}

/// Whether one text comes before another.
pub fn comes_before(first: &str, second: &str) -> (before: bool)
    ensures
        before == precedes(first@, second@),
{
    let left = chars_of(first);
    let right = chars_of(second);
    let mut i: usize = 0;
    assert(left@.skip(0) == first@);
    assert(right@.skip(0) == second@);
    while i < left.len() && i < right.len()
        invariant
            i <= left@.len(),
            i <= right@.len(),
            precedes(first@, second@) == precedes(left@.skip(i as int), right@.skip(i as int)),
        decreases left@.len() - i,
    {
        if left[i] != right[i] {
            return left[i] < right[i];
        }
        assert(left@.skip(i as int).drop_first() == left@.skip(i + 1));
        assert(right@.skip(i as int).drop_first() == right@.skip(i + 1));
        i = i + 1;
    }
    i < right.len()
}

/// The characters from `from` up to `to`, as a string.
pub fn part_of(chars: &Vec<char>, from: usize, to: usize) -> (part: String)
    requires
        from <= to <= chars@.len(),
    ensures
        part@ == chars@.subrange(from as int, to as int),
{
    text_of(vstd::slice::slice_subrange(chars.as_slice(), from, to))
}

/// What a list of strings holds.
pub open spec fn views(strings: Seq<String>) -> Seq<Seq<char>> {
    Seq::new(strings.len(), |i: int| strings[i]@)
}

/// Whether `part` stands in `text` at a position.
pub open spec fn occurs_at(text: Seq<char>, part: Seq<char>, at: int) -> bool {
    0 <= at && at + part.len() <= text.len() && text.subrange(at, at + part.len()) == part
}

/// Whether `part` stands anywhere in `text`.
pub open spec fn occurs(text: Seq<char>, part: Seq<char>) -> bool {
    exists|at: int| occurs_at(text, part, at)
}

fn found_at(text: &Vec<char>, part: &Vec<char>, at: usize) -> (found: bool)
    requires
        at + part@.len() <= text@.len(),
    ensures
        found == occurs_at(text@, part@, at as int),
{
    let length: usize = text.len();
    for i in 0..part.len()
        invariant
            length == text@.len(),
            at + part@.len() <= length,
            forall|j: int| 0 <= j < i ==> text@[at + j] == part@[j],
    {
        if text[at + i] != part[i] {
            assert(text@.subrange(at as int, at + part@.len())[i as int] != part@[i as int]);
            return false;
        }
    }
    assert(text@.subrange(at as int, at + part@.len()) == part@);
    true
}

/// Whether `part` stands anywhere in `text`.
pub fn contains(text: &str, part: &str) -> (found: bool)
    ensures
        found == occurs(text@, part@),
{
    let whole = chars_of(text);
    let sought = chars_of(part);
    let mut at: usize = 0;
    while at <= whole.len() && sought.len() <= whole.len() - at
        invariant
            whole@ == text@,
            sought@ == part@,
            at <= whole@.len() + 1,
            forall|i: int| 0 <= i < at ==> !occurs_at(text@, part@, i),
        decreases whole@.len() + 1 - at,
    {
        if found_at(&whole, &sought, at) {
            return true;
        }
        if at == whole.len() {
            return false;
        }
        at = at + 1;
    }
    false
}

/// Whether `text` starts with `prefix`.
pub fn starts_with(text: &str, prefix: &str) -> (starts: bool)
    ensures
        starts == prefix@.is_prefix_of(text@),
{
    let text = chars_of(text);
    let prefix = chars_of(prefix);
    prefix.len() <= text.len() && found_at(&text, &prefix, 0)
}

/// The rest of `text`, if it starts with `prefix`.
pub fn strip_prefix(text: &str, prefix: &str) -> (rest: Option<String>)
    ensures
        rest is Some == prefix@.is_prefix_of(text@),
        rest matches Some(rest) ==> rest@ == text@.skip(prefix@.len() as int),
{
    if starts_with(text, prefix) {
        let from: usize = chars_of(prefix).len();
        let text = chars_of(text);
        Some(part_of(&text, from, text.len()))
    } else {
        None
    }
}

/// `text` from the last place that `part` stands at, or all of it.
pub open spec fn from_last(text: Seq<char>, part: Seq<char>) -> Seq<char>
    decreases text.len(),
{
    if text.len() > 0 && occurs(text.drop_first(), part) {
        from_last(text.drop_first(), part)
    } else {
        text
    }
}

/// What `from_last` finds is the last place that `part` stands at.
proof fn lemma_from_last(text: Seq<char>, part: Seq<char>, at: int)
    requires
        occurs_at(text, part, at),
        forall|i: int| at < i ==> !occurs_at(text, part, i),
    ensures
        from_last(text, part) == text.skip(at),
    decreases text.len(),
{
    if text.len() > 0 {
        let rest = text.drop_first();
        assert forall|i: int| 0 <= i implies occurs_at(rest, part, i) == occurs_at(
            text,
            part,
            i + 1,
        ) by {
            if i + part.len() <= rest.len() {
                assert(rest.subrange(i, i + part.len()) == text.subrange(
                    i + 1,
                    i + 1 + part.len(),
                ));
            }
        }
        if at > 0 {
            assert(occurs_at(rest, part, at - 1));
            lemma_from_last(rest, part, at - 1);
            assert(rest.skip(at - 1) == text.skip(at));
        } else {
            assert(!occurs(rest, part));
            assert(text.skip(0) == text);
        }
    } else {
        assert(text.skip(at) == text);
    }
}

/// `text` from the last place that `part` stands at, or all of it.
pub fn keep_from_last(text: &str, part: &str) -> (rest: String)
    ensures
        rest@ == from_last(text@, part@),
{
    let whole = chars_of(text);
    let sought = chars_of(part);
    if sought.len() <= whole.len() {
        let mut at: usize = whole.len() - sought.len();
        loop
            invariant
                whole@ == text@,
                sought@ == part@,
                at + sought@.len() <= whole@.len(),
                forall|i: int| at < i ==> !occurs_at(text@, part@, i),
            ensures
                forall|i: int| !occurs_at(text@, part@, i),
            decreases at,
        {
            if found_at(&whole, &sought, at) {
                proof {
                    lemma_from_last(text@, part@, at as int);
                }
                return part_of(&whole, at, whole.len());
            }
            if at == 0 {
                break;
            }
            at = at - 1;
        }
    }
    proof {
        lemma_nowhere_later(text@, part@);
    }
    text.to_owned()
}

proof fn lemma_nowhere_later(text: Seq<char>, part: Seq<char>)
    requires
        !occurs(text, part),
    ensures
        from_last(text, part) == text,
{
    if text.len() > 0 && occurs(text.drop_first(), part) {
        let at = choose|at: int| occurs_at(text.drop_first(), part, at);
        assert(text.subrange(at + 1, at + 1 + part.len()) == text.drop_first().subrange(
            at,
            at + part.len(),
        ));
        assert(occurs_at(text, part, at + 1));
    }
}

/// Whether Unicode calls a character white space.
pub open spec fn is_white(ch: char) -> bool {
    let code = ch as u32;
    ||| 9 <= code <= 13
    ||| code == 0x20
    ||| code == 0x85
    ||| code == 0xa0
    ||| code == 0x1680
    ||| 0x2000 <= code <= 0x200a
    ||| code == 0x2028
    ||| code == 0x2029
    ||| code == 0x202f
    ||| code == 0x205f
    ||| code == 0x3000
}

fn white(ch: char) -> (is: bool)
    ensures
        is == is_white(ch),
{
    let code: u32 = ch as u32;
    (9 <= code && code <= 13) || code == 0x20 || code == 0x85 || code == 0xa0 || code == 0x1680 || (
    0x2000 <= code && code <= 0x200a) || code == 0x2028 || code == 0x2029 || code == 0x202f || code
        == 0x205f || code == 0x3000
}

/// `text` without the white space before it.
pub open spec fn without_start(text: Seq<char>) -> Seq<char>
    decreases text.len(),
{
    if text.len() > 0 && is_white(text[0]) {
        without_start(text.drop_first())
    } else {
        text
    }
}

/// `text` without the white space after it.
pub open spec fn without_end(text: Seq<char>) -> Seq<char>
    decreases text.len(),
{
    if text.len() > 0 && is_white(text.last()) {
        without_end(text.drop_last())
    } else {
        text
    }
}

/// `text` without the white space around it.
pub open spec fn trimmed(text: Seq<char>) -> Seq<char> {
    without_end(without_start(text))
}

/// `text` without the white space after it.
pub fn trim_end(text: &str) -> (rest: String)
    ensures
        rest@ == without_end(text@),
{
    let chars = chars_of(text);
    let mut end: usize = chars.len();
    assert(chars@.take(end as int) == text@);
    while end > 0 && white(chars[end - 1])
        invariant
            end <= chars@.len(),
            without_end(text@) == without_end(chars@.take(end as int)),
        decreases end,
    {
        assert(chars@.take(end as int).drop_last() == chars@.take(end - 1));
        end = end - 1;
    }
    part_of(&chars, 0, end)
}

/// `text` without the white space before it.
pub fn trim_start(text: &str) -> (rest: String)
    ensures
        rest@ == without_start(text@),
{
    let chars = chars_of(text);
    let mut start: usize = 0;
    assert(chars@.skip(0) == text@);
    while start < chars.len() && white(chars[start])
        invariant
            start <= chars@.len(),
            without_start(text@) == without_start(chars@.skip(start as int)),
        decreases chars@.len() - start,
    {
        assert(chars@.skip(start as int).drop_first() == chars@.skip(start + 1));
        start = start + 1;
    }
    assert(chars@.skip(start as int) == chars@.subrange(start as int, chars@.len() as int));
    part_of(&chars, start, chars.len())
}

/// `text` without the white space around it.
pub fn trim(text: &str) -> (rest: String)
    ensures
        rest@ == trimmed(text@),
{
    trim_end(trim_start(text).as_str())
}

/// The pieces of `text` between one separator and the next.
pub open spec fn pieces(text: Seq<char>, separator: char) -> Seq<Seq<char>>
    decreases text.len(),
{
    if text.len() == 0 {
        seq![Seq::empty()]
    } else {
        let before = pieces(text.drop_last(), separator);
        if text.last() == separator {
            before.push(Seq::empty())
        } else {
            before.drop_last().push(before.last().push(text.last()))
        }
    }
}

/// There is always a piece, and none of them holds the separator.
pub proof fn lemma_pieces(text: Seq<char>, separator: char)
    ensures
        pieces(text, separator).len() > 0,
        forall|i: int|
            0 <= i < pieces(text, separator).len() ==> !(#[trigger] pieces(
                text,
                separator,
            )[i]).contains(separator),
    decreases text.len(),
{
    if text.len() > 0 {
        lemma_pieces(text.drop_last(), separator);
        let before = pieces(text.drop_last(), separator);
        assert forall|i: int| 0 <= i < pieces(text, separator).len() implies !(#[trigger] pieces(
            text,
            separator,
        )[i]).contains(separator) by {
            if i < before.len() {
                assert(!before[i].contains(separator));
            }
        }
    }
}

/// Splits `text` at every separator.
pub fn split(text: &str, separator: char) -> (parts: Vec<String>)
    ensures
        views(parts@) == pieces(text@, separator),
{
    let chars = chars_of(text);
    let mut parts: Vec<String> = Vec::new();
    let mut last = String::new();
    for i in 0..chars.len()
        invariant
            views(parts@).push(last@) == pieces(chars@.take(i as int), separator),
    {
        proof {
            assert(chars@.take(i + 1).drop_last() == chars@.take(i as int));
            lemma_pieces(chars@.take(i as int), separator);
        }
        let ghost before = views(parts@).push(last@);
        assert(before.drop_last() == views(parts@));
        if chars[i] == separator {
            let ghost done = parts@;
            parts.push(last);
            last = String::new();
            assert(views(parts@) == before);
            assert(last@ == Seq::<char>::empty());
        } else {
            last.push(chars[i]);
        }
    }
    assert(chars@.take(chars@.len() as int) == text@);
    let ghost done = parts@;
    let ghost tail = last@;
    parts.push(last);
    assert(views(parts@) == views(done).push(tail));
    parts
}

/// Puts a text at the end of a list.
pub fn push_text(list: &mut Vec<String>, words: &str)
    ensures
        views(final(list)@) == views(old(list)@).push(words@),
{
    let ghost before = list@;
    list.push(words.to_owned());
    assert(views(list@) == views(before).push(words@));
}

/// Puts the texts of one list at the end of another.
pub fn push_all(list: &mut Vec<String>, more: &Vec<String>)
    ensures
        views(final(list)@) == views(old(list)@) + views(more@),
{
    let ghost before = views(list@);
    for i in 0..more.len()
        invariant
            views(list@) == before + views(more@).take(i as int),
    {
        push_text(list, more[i].as_str());
        assert(views(list@) == before + views(more@).take(i + 1));
    }
    assert(views(more@).take(more@.len() as int) == views(more@));
}

/// Whether a text is one of a list.
pub fn is_among(name: &str, names: &Vec<String>) -> (is: bool)
    ensures
        is == views(names@).contains(name@),
{
    for i in 0..names.len()
        invariant
            forall|j: int| 0 <= j < i ==> (#[trigger] views(names@)[j]) != name@,
    {
        if same(names[i].as_str(), name) {
            assert(views(names@)[i as int] == name@);
            return true;
        }
    }
    assert(!views(names@).contains(name@));
    false
}

/// Strings one after another, with a separator between them.
pub open spec fn joined(parts: Seq<Seq<char>>, separator: Seq<char>) -> Seq<char>
    decreases parts.len(),
{
    if parts.len() == 0 {
        Seq::empty()
    } else if parts.len() == 1 {
        parts[0]
    } else {
        joined(parts.drop_last(), separator) + separator + parts.last()
    }
}

/// Strings one after another, with a separator between them.
pub fn join(parts: &Vec<String>, separator: &str) -> (whole: String)
    ensures
        whole@ == joined(views(parts@), separator@),
{
    let mut whole = String::new();
    for i in 0..parts.len()
        invariant
            whole@ == joined(views(parts@).take(i as int), separator@),
    {
        assert(views(parts@).take(i + 1).drop_last() == views(parts@).take(i as int));
        if i > 0 {
            whole.append(separator);
        }
        whole.append(parts[i].as_str());
        assert(i == 0 ==> whole@ == parts@[0]@);
    }
    assert(views(parts@).take(parts@.len() as int) == views(parts@));
    whole
}

/// Joining what `split` took apart gives the text back.
pub proof fn joining_undoes_splitting(text: Seq<char>, separator: char)
    ensures
        joined(pieces(text, separator), seq![separator]) == text,
    decreases text.len(),
{
    if text.len() > 0 {
        let between = seq![separator];
        let before = pieces(text.drop_last(), separator);
        let after = pieces(text, separator);
        joining_undoes_splitting(text.drop_last(), separator);
        lemma_pieces(text.drop_last(), separator);
        if text.last() == separator {
            assert(after.drop_last() == before);
            assert(joined(after, between) == joined(before, between).push(separator));
        } else {
            assert(after.drop_last() == before.drop_last());
            assert(joined(after, between) == joined(before, between).push(text.last()));
        }
        assert(text == text.drop_last().push(text.last()));
    }
}

/// Splitting what was joined from pieces without a separator gives the pieces
/// back.
pub proof fn splitting_undoes_joining(parts: Seq<Seq<char>>, separator: char)
    requires
        parts.len() > 0,
        forall|i: int| 0 <= i < parts.len() ==> !(#[trigger] parts[i]).contains(separator),
    ensures
        pieces(joined(parts, seq![separator]), separator) == parts,
    decreases parts.len(), parts.last().len(),
{
    let between = seq![separator];
    let whole = joined(parts, between);
    let last = parts.last();
    if last.len() > 0 {
        let shorter = parts.drop_last().push(last.drop_last());
        assert forall|i: int| 0 <= i < shorter.len() implies !(#[trigger] shorter[i]).contains(
            separator,
        ) by {
            assert(!parts[i].contains(separator));
            if i == parts.len() - 1 && shorter[i].contains(separator) {
                let j = shorter[i].index_of(separator);
                assert(last[j] == separator);
            }
        }
        splitting_undoes_joining(shorter, separator);
        assert(shorter.drop_last() == parts.drop_last());
        assert(whole.drop_last() == joined(shorter, between));
        assert(last.contains(last.last()));
        assert(whole.last() == last.last());
        assert(shorter.last().push(last.last()) == last);
        assert(parts == shorter.drop_last().push(shorter.last().push(last.last())));
    } else if parts.len() > 1 {
        splitting_undoes_joining(parts.drop_last(), separator);
        assert(whole.drop_last() == joined(parts.drop_last(), between));
        assert(whole.last() == separator);
        assert(last == Seq::<char>::empty());
        assert(parts == parts.drop_last().push(Seq::empty()));
    } else {
        assert(whole == Seq::<char>::empty());
        assert(last == Seq::<char>::empty());
        assert(parts == seq![Seq::<char>::empty()]);
    }
}

/// A line without the carriage return that ends it.
pub open spec fn without_return(line: Seq<char>) -> Seq<char> {
    if line.len() > 0 && line.last() == '\r' {
        line.drop_last()
    } else {
        line
    }
}

/// The lines of a text: a line feed, or a carriage return and a line feed,
/// ends each of them but the last, which needs no end.
pub open spec fn line_list(text: Seq<char>) -> Seq<Seq<char>> {
    let parts = pieces(text, '\n');
    let ended = parts.drop_last();
    let lines = Seq::new(ended.len(), |i: int| without_return(ended[i]));
    if parts.last().len() == 0 {
        lines
    } else {
        lines.push(parts.last())
    }
}

/// The lines of a text.
pub fn lines(text: &str) -> (lines: Vec<String>)
    ensures
        views(lines@) == line_list(text@),
{
    proof {
        lemma_pieces(text@, '\n');
    }
    let parts = split(text, '\n');
    assert(views(parts@).len() == parts@.len());
    let ghost ended = pieces(text@, '\n').drop_last();
    let mut lines: Vec<String> = Vec::new();
    for i in 0..(parts.len() - 1)
        invariant
            parts@.len() > 0,
            views(parts@) == pieces(text@, '\n'),
            ended == pieces(text@, '\n').drop_last(),
            lines@.len() == i,
            forall|j: int| 0 <= j < i ==> lines@[j]@ == without_return(#[trigger] ended[j]),
    {
        let line = chars_of(parts[i].as_str());
        assert(ended[i as int] == views(parts@)[i as int]);
        let end: usize = if line.len() > 0 && line[line.len() - 1] == '\r' {
            line.len() - 1
        } else {
            line.len()
        };
        lines.push(part_of(&line, 0, end));
    }
    let last = parts[parts.len() - 1].clone();
    let ghost done = lines@;
    if chars_of(last.as_str()).len() > 0 {
        lines.push(last);
    }
    assert(views(lines@) == line_list(text@));
    lines
}

/// The first place of a character in a text, or its length.
pub open spec fn first_at(text: Seq<char>, ch: char) -> nat
    decreases text.len(),
{
    if text.len() == 0 || text[0] == ch {
        0
    } else {
        1 + first_at(text.drop_first(), ch)
    }
}

/// What stands before and after the first separator, if there is one.
pub open spec fn cut(text: Seq<char>, separator: char) -> Option<(Seq<char>, Seq<char>)> {
    let at = first_at(text, separator) as int;
    if at < text.len() {
        Some((text.take(at), text.skip(at + 1)))
    } else {
        None
    }
}

/// What stands before and after the first separator, if there is one.
pub fn split_once(text: &str, separator: char) -> (parts: Option<(String, String)>)
    ensures
        match parts {
            Some(parts) => cut(text@, separator) == Some((parts.0@, parts.1@)),
            None => cut(text@, separator) is None,
        },
{
    let chars = chars_of(text);
    let mut at: usize = 0;
    assert(chars@.skip(0) == text@);
    while at < chars.len() && chars[at] != separator
        invariant
            chars@ == text@,
            at <= chars@.len(),
            first_at(text@, separator) == at + first_at(chars@.skip(at as int), separator),
        decreases chars@.len() - at,
    {
        assert(chars@.skip(at as int).drop_first() == chars@.skip(at + 1));
        at = at + 1;
    }
    if at < chars.len() {
        assert(chars@.skip(at + 1) == chars@.subrange(at + 1, chars@.len() as int));
        Some((part_of(&chars, 0, at), part_of(&chars, at + 1, chars.len())))
    } else {
        None
    }
}

/// A text without the quotes around it.
pub open spec fn unquoted(text: Seq<char>) -> Seq<char>
    decreases text.len(),
{
    if text.len() > 0 && text[0] == '"' {
        unquoted(text.drop_first())
    } else if text.len() > 0 && text.last() == '"' {
        unquoted(text.drop_last())
    } else {
        text
    }
}

/// A text without the quotes around it.
pub fn unquote(text: &str) -> (rest: String)
    ensures
        rest@ == unquoted(text@),
{
    let chars = chars_of(text);
    let mut start: usize = 0;
    let mut end: usize = chars.len();
    assert(chars@.subrange(0, end as int) == text@);
    while start < end && (chars[start] == '"' || chars[end - 1] == '"')
        invariant
            start <= end <= chars@.len(),
            unquoted(text@) == unquoted(chars@.subrange(start as int, end as int)),
        decreases end - start,
    {
        let ghost now = chars@.subrange(start as int, end as int);
        if chars[start] == '"' {
            assert(now.drop_first() == chars@.subrange(start + 1, end as int));
            start = start + 1;
        } else {
            assert(now.drop_last() == chars@.subrange(start as int, end - 1));
            end = end - 1;
        }
    }
    part_of(&chars, start, end)
}

/// The words of a text that white space follows, and the one that it ends in.
pub open spec fn word_list(text: Seq<char>) -> (Seq<Seq<char>>, Seq<char>)
    decreases text.len(),
{
    if text.len() == 0 {
        (Seq::empty(), Seq::empty())
    } else {
        let (ended, last) = word_list(text.drop_last());
        if !is_white(text.last()) {
            (ended, last.push(text.last()))
        } else if last.len() > 0 {
            (ended.push(last), Seq::empty())
        } else {
            (ended, last)
        }
    }
}

/// The words of a text, between white space.
pub open spec fn words_of(text: Seq<char>) -> Seq<Seq<char>> {
    let (ended, last) = word_list(text);
    if last.len() > 0 {
        ended.push(last)
    } else {
        ended
    }
}

/// The words of a text, between white space.
pub fn split_words(text: &str) -> (words: Vec<String>)
    ensures
        views(words@) == words_of(text@),
{
    let chars = chars_of(text);
    let mut words: Vec<String> = Vec::new();
    let mut last = String::new();
    let mut length: usize = 0;
    assert(views(words@) == Seq::<Seq<char>>::empty());
    for i in 0..chars.len()
        invariant
            (views(words@), last@) == word_list(chars@.take(i as int)),
            length == last@.len(),
            length <= i,
    {
        assert(chars@.take(i + 1).drop_last() == chars@.take(i as int));
        if !white(chars[i]) {
            last.push(chars[i]);
            length = length + 1;
        } else if length > 0 {
            let ghost before = words@;
            let ghost word = last@;
            words.push(last);
            last = String::new();
            length = 0;
            assert(views(words@) == views(before).push(word));
            assert(last@ == Seq::<char>::empty());
        }
    }
    assert(chars@.take(chars@.len() as int) == text@);
    if length > 0 {
        let ghost before = words@;
        let ghost word = last@;
        words.push(last);
        assert(views(words@) == views(before).push(word));
    }
    words
}

/// Capital ASCII letters made small, and nothing else changed.
pub open spec fn lowered(ch: char) -> char {
    if 65 <= ch as u32 <= 90 {
        ((ch as u32) + 32) as char
    } else {
        ch
    }
}

/// A text with its capital ASCII letters made small.
pub open spec fn ascii_lower(text: Seq<char>) -> Seq<char> {
    Seq::new(text.len(), |i: int| lowered(text[i]))
}

/// A text with its capital ASCII letters made small.
pub fn to_ascii_lower(text: &str) -> (lower: String)
    ensures
        lower@ == ascii_lower(text@),
{
    let mut lower = String::new();
    for ch in it: text.chars()
        invariant
            it.seq() == text@,
            lower@ == ascii_lower(text@).take(it.index() as int),
    {
        let code: u32 = ch as u32;
        let small: char = if 65 <= code && code <= 90 {
            ((code as u8) + 32) as char
        } else {
            ch
        };
        lower.push(small);
    }
    assert(ascii_lower(text@).take(text@.len() as int) == ascii_lower(text@));
    lower
}

/// What `String::from_utf8_lossy` makes of some bytes.
pub uninterp spec fn utf8_lossy(bytes: Seq<u8>) -> Seq<char>;

/// Some bytes as text: what they are in UTF-8, where they are that.
pub open spec fn read_lossily(bytes: Seq<u8>) -> Seq<char> {
    if vstd::utf8::valid_utf8(bytes) {
        vstd::utf8::decode_utf8(bytes)
    } else {
        utf8_lossy(bytes)
    }
}

/// Calls `String::from_utf8_lossy`: the bytes read as UTF-8, with a
/// replacement character for whatever is not. The text depends on the bytes
/// alone, and bytes that are UTF-8 are read as what they are.
#[verifier::external_body]
pub(crate) fn lossy_text(bytes: &[u8]) -> (text: String)
    ensures
        text@ == utf8_lossy(bytes@),
        vstd::utf8::valid_utf8(bytes@) ==> text@ == vstd::utf8::decode_utf8(bytes@),
{
    String::from_utf8_lossy(bytes).into_owned()
}

/// What `{:?}` writes for a text: the text in quotes, with what cannot stand
/// there escaped.
pub uninterp spec fn debug_words(text: Seq<char>) -> Seq<char>;

/// Calls `format!` with `{:?}` for a text. What it writes depends on the text
/// alone.
#[verifier::external_body]
pub(crate) fn debug_text(text: &str) -> (words: String)
    ensures
        words@ == debug_words(text@),
{
    format!("{text:?}")
}

/// How many bytes a text takes in UTF-8.
pub fn byte_length(text: &str) -> (length: usize)
    ensures
        length == vstd::utf8::encode_utf8(text@).len(),
{
    text.as_bytes().len()
}

/// The decimal digits of a number.
pub open spec fn digits(number: nat) -> Seq<char>
    decreases number,
{
    if number < 10 {
        seq![('0' as u32 + number) as char]
    } else {
        digits(number / 10) + seq![('0' as u32 + number % 10) as char]
    }
}

/// A number below ten as the character that writes it.
fn digit(number: u64) -> (ch: char)
    requires
        number < 10,
    ensures
        ch == ('0' as u32 + number) as char,
{
    (48u8 + number as u8) as char
}

/// A number in decimal.
pub fn decimal(number: u64) -> (text: String)
    ensures
        text@ == digits(number as nat),
    decreases number,
{
    if number < 10 {
        let mut text = String::new();
        text.push(digit(number));
        assert(text@ =~= digits(number as nat));
        text
    } else {
        let mut text = decimal(number / 10);
        text.push(digit(number % 10));
        assert(text@ =~= digits(number as nat));
        text
    }
}

/// A number in decimal, with its sign where it is negative.
pub open spec fn signed_digits(number: int) -> Seq<char> {
    if number < 0 {
        "-"@ + digits((-number) as nat)
    } else {
        digits(number as nat)
    }
}

/// A number in decimal, with its sign where it is negative.
pub fn signed_decimal(number: i64) -> (text: String)
    ensures
        text@ == signed_digits(number as int),
{
    if number < 0 {
        let size: u64 = (-(number + 1)) as u64 + 1;
        cat("-", decimal(size).as_str())
    } else {
        decimal(number as u64)
    }
}

/// A number below sixteen as a hexadecimal digit; `small` picks the letters.
pub open spec fn hex_digit(number: int, small: bool) -> char {
    if number < 10 {
        ('0' as u32 + number) as char
    } else if small {
        ('a' as u32 + number - 10) as char
    } else {
        ('A' as u32 + number - 10) as char
    }
}

/// A byte as two capital hexadecimal digits.
pub open spec fn hex_byte(byte: u8) -> Seq<char> {
    seq![hex_digit(byte as int / 16, false), hex_digit(byte as int % 16, false)]
}

/// A number as four hexadecimal digits.
pub open spec fn hex_word(word: u16, small: bool) -> Seq<char> {
    let word = word as int;
    seq![
        hex_digit(word / 4096, small),
        hex_digit(word / 256 % 16, small),
        hex_digit(word / 16 % 16, small),
        hex_digit(word % 16, small),
    ]
}

/// A number in capital hexadecimal digits, as few as it takes.
pub open spec fn hex_digits(number: nat) -> Seq<char>
    decreases number,
{
    if number < 16 {
        seq![hex_digit(number as int, false)]
    } else {
        hex_digits(number / 16).push(hex_digit(number as int % 16, false))
    }
}

fn nibble(number: u32, small: bool) -> (ch: char)
    requires
        number < 16,
    ensures
        ch == hex_digit(number as int, small),
{
    let number: u8 = number as u8;
    if number < 10 {
        (48 + number) as char
    } else if small {
        (87 + number) as char
    } else {
        (55 + number) as char
    }
}

/// Writes a byte as two capital hexadecimal digits.
pub fn push_hex_byte(text: &mut String, byte: u8)
    ensures
        final(text)@ == old(text)@ + hex_byte(byte),
{
    let ghost before = text@;
    text.push(nibble((byte / 16) as u32, false));
    text.push(nibble((byte % 16) as u32, false));
    assert(text@ == before + hex_byte(byte));
}

/// Writes a number as four hexadecimal digits.
pub fn push_hex_word(text: &mut String, word: u16, small: bool)
    ensures
        final(text)@ == old(text)@ + hex_word(word, small),
{
    let ghost before = text@;
    text.push(nibble((word / 4096) as u32, small));
    text.push(nibble((word / 256 % 16) as u32, small));
    text.push(nibble((word / 16 % 16) as u32, small));
    text.push(nibble((word % 16) as u32, small));
    assert(text@ == before + hex_word(word, small));
}

/// A number in capital hexadecimal digits.
pub fn hexadecimal(number: u32) -> (text: String)
    ensures
        text@ == hex_digits(number as nat),
    decreases number,
{
    let mut text = if number < 16 {
        String::new()
    } else {
        hexadecimal(number / 16)
    };
    text.push(nibble(number % 16, false));
    assert(text@ == hex_digits(number as nat));
    text
}

/// So many spaces.
pub open spec fn spaces(count: int) -> Seq<char> {
    Seq::new(
        if count > 0 {
            count as nat
        } else {
            0
        },
        |i: int| ' ',
    )
}

/// `text` with spaces after it, up to a width.
pub fn pad_right(text: &str, width: usize) -> (padded: String)
    ensures
        padded@ == text@ + spaces(width - text@.len()),
{
    let mut padded = text.to_owned();
    let mut count: usize = chars_of(text).len();
    while count < width
        invariant
            text@.len() <= count,
            count <= width || count == text@.len(),
            padded@ == text@ + spaces(count - text@.len()),
        decreases width - count,
    {
        padded.push(' ');
        count = count + 1;
        assert(padded@ == text@ + spaces(count - text@.len()));
    }
    assert(padded@ == text@ + spaces(width - text@.len()));
    padded
}

/// `text` with spaces before it, up to a width.
pub fn pad_left(text: &str, width: usize) -> (padded: String)
    ensures
        padded@ == spaces(width - text@.len()) + text@,
{
    let mut padded = String::new();
    let length: usize = chars_of(text).len();
    let mut count: usize = length;
    while count < width
        invariant
            length == text@.len(),
            length <= count,
            count <= width || count == length,
            padded@ == spaces(count - length),
        decreases width - count,
    {
        padded.push(' ');
        count = count + 1;
        assert(padded@ == spaces(count - length));
    }
    padded.append(text);
    assert(padded@ == spaces(width - text@.len()) + text@);
    padded
}

/// The number that some digits stand for, in a base.
pub open spec fn number_read(text: Seq<char>, base: nat) -> nat
    decreases text.len(),
{
    if text.len() == 0 {
        0
    } else {
        number_read(text.drop_last(), base) * base + digit_value(text.last())
    }
}

/// What a digit is worth: the letters follow the figures.
pub open spec fn digit_value(ch: char) -> nat {
    if '0' <= ch && ch <= '9' {
        (ch as u32 - '0' as u32) as nat
    } else if 'A' <= ch && ch <= 'F' {
        (ch as u32 - 'A' as u32 + 10) as nat
    } else if 'a' <= ch && ch <= 'f' {
        (ch as u32 - 'a' as u32 + 10) as nat
    } else {
        0
    }
}

/// The digits of a number stand for it, and are nothing but digits.
pub proof fn lemma_digits_read(number: nat)
    ensures
        number_read(digits(number), 10) == number,
        digits(number).len() > 0,
        forall|i: int|
            0 <= i < digits(number).len() ==> '0' <= #[trigger] digits(number)[i]
                && digits(number)[i] <= '9',
        number > 0 ==> digits(number)[0] != '0',
        number == 0 ==> digits(number).len() == 1,
    decreases number,
{
    reveal_with_fuel(number_read, 2);
    let text = digits(number);
    if number < 10 {
        assert(text.drop_last() == Seq::<char>::empty());
    } else {
        let rest = digits(number / 10);
        lemma_digits_read(number / 10);
        assert(text.drop_last() == rest);
        assert(text.last() == ('0' as u32 + number % 10) as char);
        assert(text[0] == rest[0]);
        assert forall|i: int| 0 <= i < text.len() implies '0' <= #[trigger] text[i] && text[i]
            <= '9' by {
            if i < rest.len() {
                assert(text[i] == rest[i]);
            }
        }
    }
}

proof fn lemma_hex_digits_read(number: nat)
    ensures
        number_read(hex_digits(number), 16) == number,
        hex_digits(number).len() > 0,
        number > 0 ==> hex_digits(number)[0] != '0',
        number == 0 ==> hex_digits(number).len() == 1,
    decreases number,
{
    reveal_with_fuel(number_read, 2);
    let text = hex_digits(number);
    if number < 16 {
        assert(text.drop_last() == Seq::<char>::empty());
    } else {
        lemma_hex_digits_read(number / 16);
        assert(text.drop_last() == hex_digits(number / 16));
    }
}

/// A number in decimal reads back as the number, and has no zero before it.
pub proof fn a_decimal_number_reads_back(number: u64, text: String)
    requires
        call_ensures(decimal, (number,), text),
    ensures
        number_read(text@, 10) == number,
        forall|i: int| 0 <= i < text@.len() ==> '0' <= #[trigger] text@[i] && text@[i] <= '9',
        text@.len() > 1 ==> text@[0] != '0',
{
    lemma_digits_read(number as nat);
}

/// A number with a sign reads back as the number.
pub proof fn a_signed_number_reads_back(number: i64, text: String)
    requires
        call_ensures(signed_decimal, (number,), text),
    ensures
        number >= 0 ==> number_read(text@, 10) == number,
        number < 0 ==> text@.len() > 0 && text@[0] == '-' && -(number_read(
            text@.drop_first(),
            10,
        ) as int) == number,
{
    if number < 0 {
        reveal_strlit("-");
        assert(text@.drop_first() == digits((-number) as nat));
        lemma_digits_read((-number) as nat);
    } else {
        lemma_digits_read(number as nat);
    }
}

/// A number in hexadecimal reads back as the number, and has no zero before it.
pub proof fn a_hexadecimal_number_reads_back(number: u32, text: String)
    requires
        call_ensures(hexadecimal, (number,), text),
    ensures
        number_read(text@, 16) == number,
        text@.len() > 1 ==> text@[0] != '0',
{
    lemma_hex_digits_read(number as nat);
}

proof fn lemma_without_start(text: Seq<char>) -> (at: int)
    ensures
        0 <= at <= text.len(),
        without_start(text) == text.skip(at),
        forall|i: int| 0 <= i < at ==> is_white(#[trigger] text[i]),
        at < text.len() ==> !is_white(text[at]),
    decreases text.len(),
{
    if text.len() > 0 && is_white(text[0]) {
        let rest = text.drop_first();
        let at = lemma_without_start(rest);
        assert(rest.skip(at) == text.skip(at + 1));
        assert forall|i: int| 0 <= i < at + 1 implies is_white(#[trigger] text[i]) by {
            if i > 0 {
                assert(rest[i - 1] == text[i]);
            }
        }
        at + 1
    } else {
        assert(text.skip(0) == text);
        0
    }
}

proof fn lemma_without_end(text: Seq<char>) -> (end: int)
    ensures
        0 <= end <= text.len(),
        without_end(text) == text.take(end),
        forall|i: int| end <= i < text.len() ==> is_white(#[trigger] text[i]),
        end > 0 ==> !is_white(text[end - 1]),
    decreases text.len(),
{
    if text.len() > 0 && is_white(text.last()) {
        let rest = text.drop_last();
        let end = lemma_without_end(rest);
        assert(rest.take(end) == text.take(end));
        assert forall|i: int| end <= i < text.len() implies is_white(#[trigger] text[i]) by {
            if i < rest.len() {
                assert(rest[i] == text[i]);
            }
        }
        end
    } else {
        assert(text.take(text.len() as int) == text);
        text.len() as int
    }
}

/// Whether a text is what stands between two places of another, with nothing
/// but white space around it and none at its ends.
pub open spec fn is_core(part: Seq<char>, text: Seq<char>, from: int, to: int) -> bool {
    &&& 0 <= from <= to <= text.len()
    &&& part == text.subrange(from, to)
    &&& forall|i: int| 0 <= i < from || to <= i < text.len() ==> is_white(#[trigger] text[i])
    &&& from < to ==> !is_white(text[from]) && !is_white(text[to - 1])
}

/// Trimming takes white space away from both ends, all of it and nothing else.
pub proof fn trimming_takes_white_space_only(text: &str, rest: String)
    requires
        call_ensures(trim, (text,), rest),
    ensures
        exists|from: int, to: int| is_core(rest@, text@, from, to),
{
    let from = lemma_without_start(text@);
    let start = text@.skip(from);
    let end = lemma_without_end(start);
    let to: int = from + end;
    assert(start.take(end) == text@.subrange(from, to));
    assert forall|i: int| 0 <= i < from || to <= i < text@.len() implies is_white(
        #[trigger] text@[i],
    ) by {
        if i >= to {
            assert(start[i - from] == text@[i]);
        }
    }
    if from < to {
        assert(start[end - 1] == text@[to - 1]);
    }
    assert(is_core(rest@, text@, from, to));
}

/// A separator parts a text where it first stands, and there are no two parts
/// only where it does not.
pub proof fn a_text_is_parted_at_its_first_separator(
    text: &str,
    separator: char,
    parts: Option<(String, String)>,
)
    requires
        call_ensures(split_once, (text, separator), parts),
    ensures
        parts is None <==> !text@.contains(separator),
        parts matches Some((before, after)) ==> text@ == before@.push(separator) + after@
            && !before@.contains(separator),
{
    lemma_first_at(text@, separator);
    let at = first_at(text@, separator) as int;
    if at < text@.len() {
        let (before, after) = parts->0;
        assert(text@.contains(text@[at]));
        assert(before@.push(separator) + after@ == text@);
        assert forall|i: int| 0 <= i < before@.len() implies before@[i] != separator by {
            assert(text@[i] != separator);
        }
    }
}

proof fn lemma_first_at(text: Seq<char>, ch: char)
    ensures
        first_at(text, ch) <= text.len(),
        forall|i: int| 0 <= i < first_at(text, ch) ==> #[trigger] text[i] != ch,
        first_at(text, ch) < text.len() ==> text[first_at(text, ch) as int] == ch,
    decreases text.len(),
{
    if text.len() > 0 && text[0] != ch {
        let rest = text.drop_first();
        lemma_first_at(rest, ch);
        assert forall|i: int| 0 <= i < first_at(text, ch) implies #[trigger] text[i] != ch by {
            if i > 0 {
                assert(rest[i - 1] == text[i]);
            }
        }
    }
}

proof fn lemma_word_list(first: Seq<char>, ch: char, rest: Seq<char>)
    requires
        is_white(ch),
    ensures
        word_list(first.push(ch) + rest) == (
            words_of(first) + word_list(rest).0,
            word_list(rest).1,
        ),
    decreases rest.len(),
{
    let whole = first.push(ch) + rest;
    if rest.len() == 0 {
        assert(whole == first.push(ch));
        assert(whole.drop_last() == first);
        assert(words_of(first) + word_list(rest).0 == words_of(first));
    } else {
        lemma_word_list(first, ch, rest.drop_last());
        assert(whole.drop_last() == first.push(ch) + rest.drop_last());
        assert(whole.last() == rest.last());
        let before = word_list(rest.drop_last());
        assert(words_of(first) + before.0.push(before.1) == (words_of(first) + before.0).push(
            before.1,
        ));
    }
}

/// White space parts the words of a text: those before it and those behind it
/// are its words.
pub proof fn white_space_parts_words(
    text: &str,
    first: &str,
    ch: char,
    rest: &str,
    words: Vec<String>,
    before: Vec<String>,
    behind: Vec<String>,
)
    requires
        text@ == first@.push(ch) + rest@,
        is_white(ch),
        call_ensures(split_words, (text,), words),
        call_ensures(split_words, (first,), before),
        call_ensures(split_words, (rest,), behind),
    ensures
        views(words@) == views(before@) + views(behind@),
{
    lemma_word_list(first@, ch, rest@);
    let (ended, last) = word_list(rest@);
    assert(words_of(first@) + ended.push(last) == (words_of(first@) + ended).push(last));
}

/// A text without white space is one word, and one with nothing in it is none.
pub proof fn a_text_without_white_space_is_a_word(text: &str, words: Vec<String>)
    requires
        forall|i: int| 0 <= i < text@.len() ==> !is_white(#[trigger] text@[i]),
        call_ensures(split_words, (text,), words),
    ensures
        views(words@) == if text@.len() > 0 {
            seq![text@]
        } else {
            Seq::empty()
        },
{
    lemma_one_word(text@);
}

pub proof fn lemma_one_word(text: Seq<char>)
    requires
        forall|i: int| 0 <= i < text.len() ==> !is_white(#[trigger] text[i]),
    ensures
        word_list(text) == (Seq::<Seq<char>>::empty(), text),
    decreases text.len(),
{
    if text.len() > 0 {
        let rest = text.drop_last();
        assert forall|i: int| 0 <= i < rest.len() implies !is_white(#[trigger] rest[i]) by {
            assert(rest[i] == text[i]);
        }
        lemma_one_word(rest);
        assert(rest.push(text.last()) == text);
    } else {
        assert(text == Seq::<char>::empty());
    }
}

/// Unquoting takes quotes away from both ends, all of them and nothing else.
pub proof fn unquoting_takes_quotes_only(text: &str, rest: String)
    requires
        call_ensures(unquote, (text,), rest),
    ensures
        rest@.len() > 0 ==> rest@[0] != '"' && rest@.last() != '"',
        exists|from: int, to: int| unquotes(rest@, text@, from, to),
{
    let (from, to) = lemma_unquoted(text@);
    assert(unquotes(rest@, text@, from, to));
}

/// Whether a text is what stands between two places of another, with nothing
/// but quotes around it.
pub open spec fn unquotes(part: Seq<char>, text: Seq<char>, from: int, to: int) -> bool {
    &&& 0 <= from <= to <= text.len()
    &&& part == text.subrange(from, to)
    &&& forall|i: int| 0 <= i < from || to <= i < text.len() ==> #[trigger] text[i] == '"'
}

proof fn lemma_unquoted(text: Seq<char>) -> (places: (int, int))
    ensures
        unquotes(unquoted(text), text, places.0, places.1),
        unquoted(text).len() > 0 ==> unquoted(text)[0] != '"' && unquoted(text).last() != '"',
    decreases text.len(),
{
    if text.len() > 0 && text[0] == '"' {
        let rest = text.drop_first();
        let (from, to) = lemma_unquoted(rest);
        assert(rest.subrange(from, to) == text.subrange(from + 1, to + 1));
        assert forall|i: int|
            0 <= i < from + 1 || to + 1 <= i < text.len() implies #[trigger] text[i] == '"' by {
            if i > 0 {
                assert(rest[i - 1] == text[i]);
            }
        }
        (from + 1, to + 1)
    } else if text.len() > 0 && text.last() == '"' {
        let rest = text.drop_last();
        let (from, to) = lemma_unquoted(rest);
        assert(rest.subrange(from, to) == text.subrange(from, to));
        assert forall|i: int|
            0 <= i < from || to <= i < text.len() implies #[trigger] text[i] == '"' by {
            if i < rest.len() {
                assert(rest[i] == text[i]);
            }
        }
        (from, to)
    } else {
        assert(text.subrange(0, text.len() as int) == text);
        (0, text.len() as int)
    }
}

/// A text that has been trimmed is left alone.
pub proof fn lemma_trimmed_twice(text: Seq<char>)
    ensures
        trimmed(trimmed(text)) == trimmed(text),
{
    let start = without_start(text);
    let at = lemma_without_start(text);
    let end = lemma_without_end(start);
    let core = start.take(end);
    if end > 0 {
        assert(core[0] == start[0]);
        assert(start[0] == text[at]);
        assert(core.last() == start[end - 1]);
    }
    assert(without_start(core) == core);
    assert(without_end(core) == core);
}

/// The white space that is trimmed away: the control characters among it, the
/// space and those that Unicode adds to it, and nothing else.
pub proof fn what_white_space_is(text: &str, ch: char, rest: String)
    requires
        text@ == seq![ch],
        call_ensures(trim, (text,), rest),
    ensures
        ({
            let white: Seq<u32> = seq![
                9, 10, 11, 12, 13, 32, 133, 160, 5760, 8192, 8193, 8194, 8195, 8196, 8197, 8198,
                8199, 8200, 8201, 8202, 8232, 8233, 8239, 8287, 12288,
            ];
            rest@.len() == 0 <==> white.contains(ch as u32)
        }),
        rest@.len() > 0 ==> rest@ == text@,
{
    let white: Seq<u32> = seq![
        9, 10, 11, 12, 13, 32, 133, 160, 5760, 8192, 8193, 8194, 8195, 8196, 8197, 8198,
        8199, 8200, 8201, 8202, 8232, 8233, 8239, 8287, 12288,
    ];
    let code = ch as u32;
    reveal_with_fuel(without_start, 2);
    reveal_with_fuel(without_end, 2);
    assert(text@.drop_first() == Seq::<char>::empty());
    if is_white(ch) {
        let at: int = if 9 <= code <= 13 {
            code - 9
        } else if code == 32 {
            5
        } else if code == 133 {
            6
        } else if code == 160 {
            7
        } else if code == 5760 {
            8
        } else if 8192 <= code <= 8202 {
            code - 8192 + 9
        } else if code == 8232 {
            20
        } else if code == 8233 {
            21
        } else if code == 8239 {
            22
        } else if code == 8287 {
            23
        } else {
            24
        };
        assert(white[at] == code);
    } else if white.contains(code) {
        let at = choose|at: int| 0 <= at < white.len() && white[at] == code;
        assert(0 <= at < 25);
    }
}

/// No capital ASCII letter is left, each has become the small one, and every
/// other character is as it was.
pub proof fn capitals_become_small(text: &str, lower: String, at: int)
    requires
        call_ensures(to_ascii_lower, (text,), lower),
        0 <= at < text@.len(),
    ensures
        lower@.len() == text@.len(),
        !('A' <= lower@[at] && lower@[at] <= 'Z'),
        'A' <= text@[at] && text@[at] <= 'Z' ==> lower@[at] as int - 'a' as int == text@[at] as int
            - 'A' as int,
        !('A' <= text@[at] && text@[at] <= 'Z') ==> lower@[at] == text@[at],
{
    lemma_lowered(text@[at]);
}

proof fn lemma_lowered(ch: char)
    ensures
        !('A' <= ch && ch <= 'Z') ==> lowered(ch) == ch,
        'A' <= ch && ch <= 'Z' ==> lowered(ch) as int == ch as int + 32,
{
}

proof fn lemma_digit_read(number: int, small: bool)
    requires
        0 <= number < 16,
    ensures
        digit_value(hex_digit(number, small)) == number,
{
}

/// A number as four hexadecimal digits reads back as the number, and a byte as
/// two does.
pub proof fn a_hexadecimal_word_reads_back(word: u16, small: bool, byte: u8)
    ensures
        hex_word(word, small).len() == 4,
        number_read(hex_word(word, small), 16) == word,
        hex_byte(byte).len() == 2,
        number_read(hex_byte(byte), 16) == byte,
{
    let number = word as int;
    let text = hex_word(word, small);
    reveal_with_fuel(number_read, 5);
    lemma_digit_read(number / 4096, small);
    lemma_digit_read(number / 256 % 16, small);
    lemma_digit_read(number / 16 % 16, small);
    lemma_digit_read(number % 16, small);
    lemma_digit_read(byte as int / 16, false);
    lemma_digit_read(byte as int % 16, false);
    assert(text.drop_last() == seq![text[0], text[1], text[2]]);
    assert(text.drop_last().drop_last() == seq![text[0], text[1]]);
    assert(text.drop_last().drop_last().drop_last() == seq![text[0]]);
    assert(text.drop_last().drop_last().drop_last().drop_last() == Seq::<char>::empty());
    let pair = hex_byte(byte);
    assert(pair.drop_last() == seq![pair[0]]);
    assert(pair.drop_last().drop_last() == Seq::<char>::empty());
}

pub proof fn lemma_pieces_apart(first: Seq<char>, separator: char, second: Seq<char>)
    ensures
        pieces(first.push(separator) + second, separator) == pieces(first, separator) + pieces(
            second,
            separator,
        ),
    decreases second.len(),
{
    let whole = first.push(separator) + second;
    let before = pieces(first, separator);
    if second.len() == 0 {
        assert(whole == first.push(separator));
        assert(whole.drop_last() == first);
        assert(pieces(whole, separator) == before + pieces(second, separator));
    } else {
        let rest = second.drop_last();
        lemma_pieces_apart(first, separator, rest);
        assert(whole.drop_last() == first.push(separator) + rest);
        assert(whole.last() == second.last());
        lemma_pieces(rest, separator);
        let after = pieces(rest, separator);
        let both = before + after;
        assert(both.last() == after.last());
        assert(both.drop_last() == before + after.drop_last());
        assert(pieces(whole, separator) == before + pieces(second, separator));
    }
}

pub proof fn lemma_only_piece(text: Seq<char>, separator: char)
    requires
        !text.contains(separator),
    ensures
        pieces(text, separator) == seq![text],
    decreases text.len(),
{
    if text.len() > 0 {
        let rest = text.drop_last();
        assert(text.contains(text.last()));
        assert(!rest.contains(separator)) by {
            if rest.contains(separator) {
                let k = choose|k: int| 0 <= k < rest.len() && rest[k] == separator;
                assert(text[k] == separator);
            }
        }
        lemma_only_piece(rest, separator);
        assert(rest.push(text.last()) == text);
        assert(pieces(text, separator) == seq![text]);
    } else {
        assert(text == Seq::<char>::empty());
    }
}

/// A line feed ends a line, and a carriage return before it belongs to that
/// end; what follows reads as it would alone.
pub proof fn a_line_feed_ends_a_line(
    text: &str,
    line: Seq<char>,
    rest: &str,
    all: Vec<String>,
    others: Vec<String>,
)
    requires
        text@ == line.push('\n') + rest@,
        !line.contains('\n'),
        call_ensures(lines, (text,), all),
        call_ensures(lines, (rest,), others),
    ensures
        views(all@) == seq![
            if line.len() > 0 && line.last() == '\r' {
                line.drop_last()
            } else {
                line
            },
        ] + views(others@),
{
    lemma_pieces_apart(line, '\n', rest@);
    lemma_only_piece(line, '\n');
    lemma_pieces(rest@, '\n');
    let after = pieces(rest@, '\n');
    let whole = pieces(text@, '\n');
    assert(whole == seq![line] + after);
    assert(whole.last() == after.last());
    assert(whole.drop_last() == seq![line] + after.drop_last());
    let first = seq![without_return(line)];
    assert(line_list(text@) == first + line_list(rest@));
}

/// A text that no line feed ends is one line as it stands, and one with nothing
/// in it is none.
pub proof fn the_last_line_needs_no_end(text: &str, all: Vec<String>)
    requires
        !text@.contains('\n'),
        call_ensures(lines, (text,), all),
    ensures
        views(all@) == if text@.len() == 0 {
            Seq::empty()
        } else {
            seq![text@]
        },
{
    lemma_only_piece(text@, '\n');
    assert(line_list(text@) == if text@.len() == 0 {
        Seq::empty()
    } else {
        seq![text@]
    });
}

/// Padding adds spaces only, and as many as it takes: the text keeps to its
/// side, and nothing is cut off.
pub proof fn padding_fills_a_column(text: &str, width: usize, right: String, left: String)
    requires
        call_ensures(pad_right, (text, width), right),
        call_ensures(pad_left, (text, width), left),
    ensures
        right@.len() == if text@.len() < width {
            width as nat
        } else {
            text@.len()
        },
        left@.len() == right@.len(),
        text@.is_prefix_of(right@),
        text@.is_suffix_of(left@),
        forall|i: int| text@.len() <= i < right@.len() ==> #[trigger] right@[i] == ' ',
        forall|i: int| 0 <= i < left@.len() - text@.len() ==> #[trigger] left@[i] == ' ',
{
    assert(right@.take(text@.len() as int) == text@);
    assert(left@.skip(left@.len() - text@.len()) == text@);
}

pub proof fn lemma_only_line(text: Seq<char>)
    requires
        !text.contains('\n'),
    ensures
        line_list(text) == if text.len() == 0 {
            Seq::empty()
        } else {
            seq![text]
        },
{
    lemma_only_piece(text, '\n');
    assert(line_list(text) == if text.len() == 0 {
        Seq::empty()
    } else {
        seq![text]
    });
}

pub proof fn lemma_cut(before: Seq<char>, separator: char, after: Seq<char>)
    requires
        !before.contains(separator),
    ensures
        cut(before.push(separator) + after, separator) == Some((before, after)),
{
    let whole = before.push(separator) + after;
    let at = first_at(whole, separator) as int;
    lemma_first_at(whole, separator);
    assert(whole[before.len() as int] == separator);
    if at < before.len() {
        assert(before[at] == whole[at]);
        assert(before.contains(before[at]));
    }
    assert(at == before.len());
    assert(whole.take(at) == before);
    assert(whole.skip(at + 1) == after);
}

pub proof fn lemma_nothing_quoted(text: Seq<char>)
    requires
        !text.contains('"'),
    ensures
        unquoted(text) == text,
{
    if text.len() > 0 {
        assert(text.contains(text[0]));
        assert(text.contains(text.last()));
    }
}

} // verus!
