//! `rosco config`: settings you save once instead of passing them every run.
//!
//! The per-user file holds what belongs to this workstation and applies to
//! every project; the project's file holds what belongs to the application
//! and wins where they overlap. Command-line flags still beat both.
use vstd::prelude::*;
use vstd::string::*;

use crate::cli::ScopeArgs;
use crate::config;
use crate::config::{
    global_config_path, optional_settings, Config, Environment, Host, Layers, CONFIG_FILE,
};
use crate::document;
use crate::document::{
    document_text, holds_nothing, names_in, parse_document, parse_value, put_value, replace_value,
    root_table, section_of, section_or_new, take_out, text_value, value_at, value_text, Entry,
    Margin, Margins, Page,
};
use crate::path;
use crate::path::join_path;
use crate::text;
use crate::text::{
    byte_length, cat, chars_of, comes_before, contains, debug_text, join, pad_right, same,
    signed_decimal, split, trim,
};
use crate::value;
use crate::value::{flatten, lookup, Node, Section, Setting};

verus! {

/// Which settings file a command writes to.
#[derive(Clone, Copy, Debug, PartialEq, Eq, Structural)]
pub enum Scope {
    Global,
    Project,
}

impl Scope {
    pub fn from_args(args: &ScopeArgs) -> (scope: Scope)
        ensures
            scope == (if args.local {
                Scope::Project
            } else {
                Scope::Global
            }),
    {
        if args.local {
            Scope::Project
        } else {
            Scope::Global
        }
    }
}

/// The settings file of a scope.
pub fn scope_path(
    scope: Scope,
    project_root: Option<&str>,
    env: &Environment,
    host: Host,
) -> (file: Result<String, String>)
    ensures
        scope == Scope::Global ==> match config::settings_place(*env, host) {
            Some(place) => file matches Ok(file) && file@ == place,
            None => file matches Err(words) && words@ == config::no_settings_directory(host),
        },
        scope == Scope::Project ==> match project_root {
            Some(root) => file matches Ok(file) && file@ == path::below(root@, CONFIG_FILE@),
            None => file matches Err(words) && words@
                == "no project directory; run this inside one or pass -C"@,
        },
{
    match scope {
        Scope::Global => global_config_path(env, host),
        Scope::Project => match project_root {
            Some(root) => Ok(join_path(root, CONFIG_FILE)),
            None => Err("no project directory; run this inside one or pass -C".to_owned()),
        },
    }
}

/// Whether a dotted name can be a setting's: it has no empty piece.
pub open spec fn setting_name(key: Seq<char>) -> bool {
    forall|i: int|
        0 <= i < text::pieces(key, '.').len() ==> (#[trigger] text::pieces(key, '.')[i]).len() > 0
}

/// The pieces of a dotted name, if it can be a setting's.
fn checked_key(key: &str) -> (parts: Option<Vec<String>>)
    ensures
        parts is Some == setting_name(key@),
        parts matches Some(parts) ==> text::views(parts@) == text::pieces(key@, '.'),
{
    let parts = split(key, '.');
    assert(text::views(parts@).len() == parts@.len());
    for i in 0..parts.len()
        invariant
            text::views(parts@) == text::pieces(key@, '.'),
            forall|j: int| 0 <= j < i ==> (#[trigger] text::pieces(key@, '.')[j]).len() > 0,
    {
        assert(text::pieces(key@, '.')[i as int] == parts@[i as int]@);
        if chars_of(parts[i].as_str()).len() == 0 {
            return None;
        }
    }
    Some(parts)
}

/// What stands at the end of a path through the sections of a document.
pub open spec fn entry_at(entries: Map<Seq<char>, Entry>, path: Seq<Seq<char>>) -> Option<Entry>
    decreases path.len(),
{
    if path.len() == 0 || !entries.contains_key(path[0]) {
        None
    } else if path.len() == 1 {
        Some(entries[path[0]])
    } else {
        match entries[path[0]] {
            Entry::Section(inner) => entry_at(inner, path.drop_first()),
            Entry::Leaf(_) => None,
        }
    }
}

/// The first name on the way to the end of a path that stands for something
/// other than a section.
pub open spec fn obstacle(entries: Map<Seq<char>, Entry>, path: Seq<Seq<char>>) -> Option<Seq<char>>
    decreases path.len(),
{
    if path.len() <= 1 || !entries.contains_key(path[0]) {
        None
    } else {
        match entries[path[0]] {
            Entry::Section(inner) => obstacle(inner, path.drop_first()),
            Entry::Leaf(_) => Some(path[0]),
        }
    }
}

/// The section of a name, or an empty one.
pub open spec fn section_or_empty(entries: Map<Seq<char>, Entry>, name: Seq<char>) -> Map<
    Seq<char>,
    Entry,
> {
    if entries.contains_key(name) && entries[name] is Section {
        entries[name]->Section_0
    } else {
        Map::empty()
    }
}

/// A document with a value at the end of a path, and the sections that lead
/// there.
pub open spec fn placed(
    entries: Map<Seq<char>, Entry>,
    path: Seq<Seq<char>>,
    node: Node,
) -> Map<Seq<char>, Entry>
    decreases path.len(),
{
    if path.len() == 0 {
        entries
    } else if path.len() == 1 {
        entries.insert(path[0], Entry::Leaf(node))
    } else {
        entries.insert(
            path[0],
            Entry::Section(placed(section_or_empty(entries, path[0]), path.drop_first(), node)),
        )
    }
}

/// Whether saving a value at the end of a path leaves an entry alone: every
/// one that is there, but what is replaced by the value.
pub open spec fn untouched(
    entries: Map<Seq<char>, Entry>,
    path: Seq<Seq<char>>,
    other: Seq<Seq<char>>,
) -> bool {
    other.len() == 0 || (entry_at(entries, other) is Some && !path.is_prefix_of(other))
}

/// Whether saving makes a section: it is on the way to the value, and was not
/// there.
pub open spec fn is_new(
    entries: Map<Seq<char>, Entry>,
    path: Seq<Seq<char>>,
    other: Seq<Seq<char>>,
) -> bool {
    0 < other.len() < path.len() && other.is_prefix_of(path) && entry_at(entries, other) is None
}

/// Whether one value stands within what stood around another.
pub open spec fn takes_place(before: Margin, after: Margin) -> bool {
    &&& after.above == before.above
    &&& after.behind == before.behind
    &&& before.lined ==> after.lined
}

/// Whether saving a value at the end of a path left the other entries laid out
/// as they were, put the value in place of the one that was there, and made
/// the section that holds it with a header, and those that only lead there
/// without one.
pub open spec fn spared(
    entries: Map<Seq<char>, Entry>,
    margins: Margins,
    after: Margins,
    path: Seq<Seq<char>>,
) -> bool {
    &&& forall|other: Seq<Seq<char>>|
        untouched(entries, path, other) ==> #[trigger] document::margin_at(after, other)
            == document::margin_at(margins, other)
    &&& (entry_at(entries, path) matches Some(Entry::Leaf(_))) && margins.contains_key(path)
        ==> after.contains_key(path) && takes_place(margins[path], after[path])
    &&& forall|other: Seq<Seq<char>>| #[trigger]
        is_new(entries, path, other) ==> after.contains_key(other) && after[other].lined == (
        other.len() + 1 == path.len())
}

/// Puts a value under a name. In place of another value it stands within the
/// spaces and the comments that stood around that one.
fn put(table: &mut toml_edit::Table, name: &str, value: toml_edit::Value)
    requires
        document::edit_whole(value),
    ensures
        document::table_entries(*final(table)) == document::table_entries(*old(table)).insert(
            name@,
            Entry::Leaf(document::edit_node(value)),
        ),
        spared(
            document::table_entries(*old(table)),
            document::table_margins(*old(table)),
            document::table_margins(*final(table)),
            seq![name@],
        ),
{
    let ghost entries = document::table_entries(*table);
    let ghost margins = document::table_margins(*table);
    let ghost path = seq![name@];
    let ghost there = document::has_value(*table, name@);
    match value_at(table, name) {
        Some(place) => replace_value(place, value),
        None => put_value(table, name, value),
    }
    proof {
        let after = document::table_margins(*table);
        assert forall|other: Seq<Seq<char>>|
            untouched(entries, path, other) implies #[trigger] document::margin_at(after, other)
            == document::margin_at(margins, other) by {
            if document::through(other, name@) {
                assert(path == other.take(1));
                assert(path.is_prefix_of(other));
            } else {
                assert(document::margin_at(document::margins_without(after, name@), other)
                    == document::margin_at(document::margins_without(margins, name@), other));
            }
        }
        assert(entry_at(entries, path) matches Some(Entry::Leaf(_)) && margins.contains_key(path)
            ==> there);
    }
}

/// What is spared inside a section is spared in the table that holds it.
proof fn lemma_spared_below(
    entries: Map<Seq<char>, Entry>,
    margins: Margins,
    start: Margins,
    inner: Margins,
    path: Seq<Seq<char>>,
)
    requires
        path.len() > 1,
        entries.contains_key(path[0]) ==> entries[path[0]] is Section && start
            == document::margins_below(margins, path[0]),
        !entries.contains_key(path[0]) ==> start == document::new_section(path.len() > 2),
        spared(section_or_empty(entries, path[0]), start, inner, path.drop_first()),
    ensures
        spared(entries, margins, document::margins_with(margins, path[0], inner), path),
{
    let name = path[0];
    let rest = path.drop_first();
    let section = section_or_empty(entries, name);
    let after = document::margins_with(margins, name, inner);
    assert(seq![name] + rest == path);
    assert(document::margin_at(inner, Seq::empty()) == document::margin_at(start, Seq::empty()));
    assert forall|other: Seq<Seq<char>>|
        untouched(entries, path, other) implies #[trigger] document::margin_at(after, other)
        == document::margin_at(margins, other) by {
        if document::through(other, name) {
            let left = other.drop_first();
            assert(seq![name] + left == other);
            lemma_prefix(name, rest, left);
            assert(untouched(section, rest, left));
            assert(document::margin_at(inner, left) == document::margin_at(start, left));
        }
    }
    if (entry_at(entries, path) matches Some(Entry::Leaf(_))) && margins.contains_key(path) {
        assert(start.contains_key(rest) && start[rest] == margins[path]);
        assert(after[path] == inner[rest]);
    }
    assert forall|other: Seq<Seq<char>>| #[trigger]
        is_new(entries, path, other) implies after.contains_key(other) && after[other].lined == (
    other.len() + 1 == path.len()) by {
        let left = other.drop_first();
        assert(other[0] == path.take(other.len() as int)[0]);
        assert(seq![name] + left == other);
        assert(document::through(other, name));
        lemma_prefix(name, left, rest);
        if left.len() > 0 {
            assert(is_new(section, rest, left));
        } else {
            assert(left == Seq::<Seq<char>>::empty());
        }
    }
}

/// One path leads to another just where it does behind a name on the way to
/// both.
proof fn lemma_prefix(name: Seq<char>, first: Seq<Seq<char>>, second: Seq<Seq<char>>)
    ensures
        first.is_prefix_of(second) <==> (seq![name] + first).is_prefix_of(seq![name] + second),
{
    let one = seq![name] + first;
    let other = seq![name] + second;
    if first.is_prefix_of(second) {
        assert(other.take(one.len() as int) == seq![name] + second.take(first.len() as int));
    }
    if one.is_prefix_of(other) {
        assert(other.take(one.len() as int).drop_first() == second.take(first.len() as int));
        assert(one.drop_first() == first);
    }
}

/// Writes a value into a section, below the sections that lead to it, which
/// are made where there are none. A section that only holds other sections
/// needs no header of its own; one that holds the value does.
fn insert(
    table: &mut toml_edit::Table,
    parts: &Vec<String>,
    depth: usize,
    value: toml_edit::Value,
) -> (blocked: Option<String>)
    requires
        depth < parts@.len(),
        document::edit_whole(value),
    ensures
        match obstacle(
            document::table_entries(*old(table)),
            text::views(parts@).skip(depth as int),
        ) {
            Some(name) => blocked matches Some(blocked) && blocked@ == name,
            None => blocked is None && document::table_entries(*final(table)) == placed(
                document::table_entries(*old(table)),
                text::views(parts@).skip(depth as int),
                document::edit_node(value),
            ) && spared(
                document::table_entries(*old(table)),
                document::table_margins(*old(table)),
                document::table_margins(*final(table)),
                text::views(parts@).skip(depth as int),
            ),
        },
    decreases parts@.len() - depth,
{
    let ghost path = text::views(parts@).skip(depth as int);
    let ghost before = document::table_entries(*table);
    let ghost margins = document::table_margins(*table);
    assert(path[0] == parts@[depth as int]@);
    let last: usize = parts.len() - 1;
    if depth == last {
        assert(path == seq![path[0]]);
        put(table, parts[depth].as_str(), value);
        return None;
    }
    assert(path.drop_first() == text::views(parts@).skip(depth + 1));
    let implicit: bool = depth + 1 < last;
    match section_or_new(table, parts[depth].as_str(), implicit) {
        Some(section) => {
            let ghost start = document::table_margins(*section);
            let blocked = insert(section, parts, depth + 1, value);
            let ghost inner = document::table_margins(*section);
            proof {
                if obstacle(before, path) is None {
                    lemma_spared_below(before, margins, start, inner, path);
                }
            }
            blocked
        },
        None => Some(parts[depth].clone()),
    }
}

/// Why a setting was not saved or removed.
pub enum SettingError {
    /// The name is not one that a setting can have.
    NotAName(String),
    /// The file cannot be read, in the parser's words.
    Invalid(String),
    /// A name on the way to the setting stands for something else.
    NotASection { name: String, key: String },
    /// There is nothing to remove.
    NotSet(String),
    /// There is not even a file to remove it from.
    NoFile(String),
}

impl SettingError {
    /// What is said of a setting in the file that `path` names.
    pub open spec fn words(&self, path: Seq<char>) -> Seq<char> {
        match self {
            SettingError::NotAName(key) => text::debug_words(key@)
                + " is not a setting name; use a dotted name such as serial.port"@,
            SettingError::Invalid(words) => "invalid "@ + path + ": "@ + words@,
            SettingError::NotASection { name, key } => name@ + " is not a section, so "@ + key@
                + " cannot be set"@,
            SettingError::NotSet(key) => key@ + " is not set in "@ + path,
            SettingError::NoFile(key) => path + " does not exist, so "@ + key@
                + " is not set there"@,
        }
    }

    pub fn message(&self, path: &str) -> (message: String)
        ensures
            message@ == self.words(path@),
    {
        match self {
            SettingError::NotAName(key) => cat(
                debug_text(key.as_str()).as_str(),
                " is not a setting name; use a dotted name such as serial.port",
            ),
            SettingError::Invalid(words) => {
                let mut message = cat("invalid ", path);
                message.append(": ");
                message.append(words.as_str());
                message
            },
            SettingError::NotASection { name, key } => {
                let mut message = cat(name.as_str(), " is not a section, so ");
                message.append(key.as_str());
                message.append(" cannot be set");
                message
            },
            SettingError::NotSet(key) => {
                let mut message = cat(key.as_str(), " is not set in ");
                message.append(path);
                message
            },
            SettingError::NoFile(key) => {
                let mut message = cat(path, " does not exist, so ");
                message.append(key.as_str());
                message.append(" is not set there");
                message
            },
        }
    }
}

/// A file with a setting saved in it, and the value as it was written.
pub struct Trial {
    pub text: String,
    pub shown: String,
}

/// Whether a text is what a document that holds this is written as. Where
/// such a text reads at all, it reads as the entries, but for sections that
/// hold nothing, and every entry with a line of its own stands in it.
pub open spec fn writes_down(text: Seq<char>, page: Page) -> bool {
    &&& exists|document: toml_edit::DocumentMut|
        document::document_page(document) == page && text == #[trigger] document::document_words(
            document,
        )
    &&& document::reads_nearly_as(text, page.entries)
    &&& document::laid_out(text, page.margins)
    &&& document::ends_in(text, page.tail)
}

/// Whether a document is another with a value saved at the end of a path. What
/// stands around the other entries is as it was, the comments among it.
pub open spec fn saved(before: Page, after: Page, path: Seq<Seq<char>>, node: Node) -> bool {
    &&& after.entries == placed(before.entries, path, node)
    &&& spared(before.entries, before.margins, after.margins, path)
    &&& after.tail == before.tail
}

/// Whether a text is what a document is written as once a value is saved in it
/// at the end of a path.
pub open spec fn writes_saved(
    text: Seq<char>,
    before: Page,
    path: Seq<Seq<char>>,
    node: Node,
) -> bool {
    exists|after: Page| saved(before, after, path, node) && #[trigger] writes_down(text, after)
}

/// What a raw value may mean, and how each meaning is written: what it says as
/// TOML, if it is any, and the text that it is, unless that is written alike.
pub open spec fn readings(raw: Seq<char>) -> Seq<(Node, Seq<char>)> {
    let literal = (Node::Text(raw), document::text_words(raw));
    match document::value_read(text::trimmed(raw)) {
        Some(parsed) => if parsed.1 != literal.1 {
            seq![parsed, literal]
        } else {
            seq![parsed]
        },
        None => seq![literal],
    }
}

/// `38400` is an integer and `COM3` is a string, but only the schema knows
/// which one a given setting wants, so offer both and let it choose.
fn candidates(raw: &str) -> (values: Vec<toml_edit::Value>)
    ensures
        values@.len() == readings(raw@).len(),
        forall|i: int|
            0 <= i < values@.len() ==> readings(raw@)[i] == (
                document::edit_node(#[trigger] values@[i]),
                document::edit_words(values@[i]),
            ) && document::edit_whole(values@[i]),
{
    let mut values: Vec<toml_edit::Value> = Vec::new();
    let literal = text_value(raw);
    match parse_value(trim(raw).as_str()) {
        Some(parsed) => {
            let differ: bool = value_text(&parsed) != value_text(&literal);
            values.push(parsed);
            if differ {
                values.push(literal);
            }
        },
        None => {
            values.push(literal);
        },
    }
    values
}

/// The files that saving a setting might write, the one with the value read
/// as TOML first. The rest of the file is left alone.
pub fn trials(source: &str, key: &str, raw: &str) -> (trials: Result<Vec<Trial>, SettingError>)
    ensures
        !setting_name(key@) ==> (trials matches Err(SettingError::NotAName(name)) && name@ == key@),
        setting_name(key@) ==> match document::document_read(source@) {
            Err(complaint) => trials matches Err(SettingError::Invalid(words)) && words@
                == complaint,
            Ok(page) => document::reads_as(source@, page.entries) && match obstacle(
                page.entries,
                text::pieces(key@, '.'),
            ) {
                Some(parent) => trials matches Err(SettingError::NotASection { name, key: at })
                    && name@ == parent && at@ == key@,
                None => trials matches Ok(trials) && trials@.len() == readings(raw@).len()
                    && forall|i: int|
                    0 <= i < trials@.len() ==> (#[trigger] trials@[i]).shown@ == text::trimmed(
                        readings(raw@)[i].1,
                    ) && writes_saved(
                        trials@[i].text@,
                        page,
                        text::pieces(key@, '.'),
                        readings(raw@)[i].0,
                    ),
            },
        },
{
    let parts = match checked_key(key) {
        Some(parts) => parts,
        None => {
            return Err(SettingError::NotAName(key.to_owned()));
        },
    };
    proof {
        text::lemma_pieces(key@, '.');
        assert(text::views(parts@).len() == parts@.len());
        assert(text::views(parts@).skip(0) == text::pieces(key@, '.'));
    }
    let ghost path = text::pieces(key@, '.');
    let ghost read = document::document_read(source@);
    let mut left = candidates(raw);
    let ghost values = left@;
    let mut made: Vec<Trial> = Vec::new();
    while left.len() > 0
        invariant
            read == document::document_read(source@),
            path == text::pieces(key@, '.'),
            path == text::views(parts@).skip(0),
            parts@.len() > 0,
            setting_name(key@),
            values.len() == readings(raw@).len(),
            forall|i: int|
                0 <= i < values.len() ==> readings(raw@)[i] == (
                    document::edit_node(#[trigger] values[i]),
                    document::edit_words(values[i]),
                ) && document::edit_whole(values[i]),
            made@.len() + left@.len() == values.len(),
            left@ == values.skip(made@.len() as int),
            made@.len() > 0 ==> read is Ok && obstacle(read->Ok_0.entries, path) is None
                && document::reads_as(source@, read->Ok_0.entries),
            forall|i: int|
                0 <= i < made@.len() ==> (#[trigger] made@[i]).shown@ == text::trimmed(
                    readings(raw@)[i].1,
                ) && writes_saved(made@[i].text@, read->Ok_0, path, readings(raw@)[i].0),
        decreases left@.len(),
    {
        let value = left.remove(0);
        assert(value == values[made@.len() as int]);
        let shown = trim(value_text(&value).as_str());
        let mut document = match parse_document(source) {
            Ok(document) => document,
            Err(words) => {
                return Err(SettingError::Invalid(words));
            },
        };
        if let Some(name) = insert(root_table(&mut document), &parts, 0, value) {
            return Err(SettingError::NotASection { name, key: key.to_owned() });
        }
        let text = document_text(&document);
        let ghost after = document::document_page(document);
        assert(text@ == document::document_words(document));
        assert(saved(read->Ok_0, after, path, readings(raw@)[made@.len() as int].0));
        assert(writes_down(text@, after));
        made.push(Trial { text, shown });
    }
    Ok(made)
}

/// A section without the sections that hold nothing, or come to hold nothing
/// once theirs are left out.
pub open spec fn pruned(entry: Entry) -> Entry
    decreases entry,
{
    match entry {
        Entry::Section(map) => Entry::Section(
            Map::new(
                |k: Seq<char>|
                    map.contains_key(k) && !(map[k] is Section && pruned(map[k]) == Entry::Section(
                        Map::empty(),
                    )),
                |k: Seq<char>|
                    if map.contains_key(k) {
                        pruned(map[k])
                    } else {
                        entry
                    },
            ),
        ),
        Entry::Leaf(_) => entry,
    }
}

/// A document without what stands at the end of a path.
pub open spec fn without(entries: Map<Seq<char>, Entry>, path: Seq<Seq<char>>) -> Map<
    Seq<char>,
    Entry,
>
    decreases path.len(),
{
    if path.len() == 0 {
        entries
    } else if path.len() == 1 {
        entries.remove(path[0])
    } else if document::has_section(entries, path[0]) {
        entries.insert(
            path[0],
            Entry::Section(without(entries[path[0]]->Section_0, path.drop_first())),
        )
    } else {
        entries
    }
}

/// Whether everything around the entries that are left is as it was.
pub open spec fn left_alone(
    margins: Margins,
    entries: Map<Seq<char>, Entry>,
    after: Margins,
) -> bool {
    forall|path: Seq<Seq<char>>|
        path.len() == 0 || entry_at(entries, path) is Some ==> #[trigger] document::margin_at(
            after,
            path,
        ) == document::margin_at(margins, path)
}

/// What is left alone inside a section is left alone in the table that holds
/// it.
proof fn lemma_left_below(
    margins: Margins,
    entries: Map<Seq<char>, Entry>,
    inner: Margins,
    name: Seq<char>,
)
    requires
        document::has_section(entries, name),
        left_alone(document::margins_below(margins, name), entries[name]->Section_0, inner),
    ensures
        left_alone(margins, entries, document::margins_with(margins, name, inner)),
{
    let after = document::margins_with(margins, name, inner);
    let below = document::margins_below(margins, name);
    assert forall|path: Seq<Seq<char>>|
        path.len() == 0 || entry_at(entries, path) is Some implies #[trigger] document::margin_at(
        after,
        path,
    ) == document::margin_at(margins, path) by {
        if document::through(path, name) {
            let left = path.drop_first();
            assert(seq![name] + left == path);
            assert(document::margin_at(inner, left) == document::margin_at(below, left));
        }
    }
}

/// Taking a name out leaves the others alone, and brings no other.
proof fn lemma_left_without(margins: Margins, entries: Map<Seq<char>, Entry>, name: Seq<char>)
    ensures
        left_alone(margins, entries.remove(name), document::margins_without(margins, name)),
        forall|path: Seq<Seq<char>>| #[trigger]
            entry_at(entries.remove(name), path) is Some ==> entry_at(entries, path) is Some,
{
    let after = document::margins_without(margins, name);
    let kept = entries.remove(name);
    assert forall|path: Seq<Seq<char>>|
        path.len() == 0 || entry_at(kept, path) is Some implies #[trigger] document::margin_at(
        after,
        path,
    ) == document::margin_at(margins, path) by {
        assert(!document::through(path, name));
    }
}

/// Takes out what stands at the end of a path, and says whether anything did.
fn remove(table: &mut toml_edit::Table, parts: &Vec<String>, depth: usize) -> (was: bool)
    requires
        depth < parts@.len(),
    ensures
        was == (entry_at(
            document::table_entries(*old(table)),
            text::views(parts@).skip(depth as int),
        ) is Some),
        document::table_entries(*final(table)) == without(
            document::table_entries(*old(table)),
            text::views(parts@).skip(depth as int),
        ),
        left_alone(
            document::table_margins(*old(table)),
            document::table_entries(*final(table)),
            document::table_margins(*final(table)),
        ),
    decreases parts@.len() - depth,
{
    let ghost path = text::views(parts@).skip(depth as int);
    let ghost before = document::table_entries(*table);
    let ghost margins = document::table_margins(*table);
    assert(path[0] == parts@[depth as int]@);
    let last: usize = parts.len() - 1;
    if depth == last {
        proof {
            lemma_left_without(margins, before, path[0]);
        }
        return take_out(table, parts[depth].as_str());
    }
    assert(path.drop_first() == text::views(parts@).skip(depth + 1));
    match section_of(table, parts[depth].as_str()) {
        Some(section) => {
            let was = remove(section, parts, depth + 1);
            proof {
                let after = before.insert(
                    path[0],
                    Entry::Section(document::table_entries(*section)),
                );
                lemma_left_below(margins, after, document::table_margins(*section), path[0]);
            }
            was
        },
        None => false,
    }
}

/// What is left alone twice is left alone, where the second time leaves no
/// more than the first.
proof fn lemma_left_on(
    margins: Margins,
    first: Map<Seq<char>, Entry>,
    between: Margins,
    second: Map<Seq<char>, Entry>,
    after: Margins,
)
    requires
        left_alone(margins, first, between),
        left_alone(between, second, after),
        forall|path: Seq<Seq<char>>| #[trigger]
            entry_at(second, path) is Some ==> entry_at(first, path) is Some,
    ensures
        left_alone(margins, second, after),
{
    assert forall|path: Seq<Seq<char>>|
        path.len() == 0 || entry_at(second, path) is Some implies #[trigger] document::margin_at(
        after,
        path,
    ) == document::margin_at(margins, path) by {
        assert(document::margin_at(between, path) == document::margin_at(margins, path));
    }
}

/// Dropping husks in a section brings nothing that was not there.
proof fn lemma_pruned_in(entries: Map<Seq<char>, Entry>, name: Seq<char>)
    requires
        document::has_section(entries, name),
    ensures
        forall|path: Seq<Seq<char>>| #[trigger]
            entry_at(entries.insert(name, pruned(entries[name])), path) is Some ==> entry_at(
                entries,
                path,
            ) is Some,
{
    let after = entries.insert(name, pruned(entries[name]));
    assert forall|path: Seq<Seq<char>>| #[trigger] entry_at(after, path) is Some implies entry_at(
        entries,
        path,
    ) is Some by {
        if document::through(path, name) && path.len() > 1 {
            lemma_pruned(entries[name]->Section_0, path.drop_first());
        }
    }
}

/// Drops sections left empty so files do not collect husks.
fn prune(table: &mut toml_edit::Table)
    ensures
        Entry::Section(document::table_entries(*final(table))) == pruned(
            Entry::Section(document::table_entries(*old(table))),
        ),
        left_alone(
            document::table_margins(*old(table)),
            document::table_entries(*final(table)),
            document::table_margins(*final(table)),
        ),
    decreases Entry::Section(document::table_entries(*old(table))),
{
    let ghost before = document::table_entries(*table);
    let ghost whole = Entry::Section(before);
    let ghost goal = pruned(whole)->Section_0;
    let names = names_in(table);
    for i in 0..names.len()
        invariant
            whole == Entry::Section(before),
            before == document::table_entries(*old(table)),
            goal == pruned(whole)->Section_0,
            forall|i: int, j: int|
                0 <= i < j < names@.len() ==> (#[trigger] names@[i])@ != (#[trigger] names@[j])@,
            forall|i: int|
                0 <= i < names@.len() ==> before.contains_key((#[trigger] names@[i])@),
            forall|k: Seq<char>| #[trigger]
                before.contains_key(k) ==> exists|i: int|
                    0 <= i < names@.len() && (#[trigger] names@[i])@ == k,
            forall|j: int|
                0 <= j < i ==> document::table_entries(*table).contains_key(
                    (#[trigger] names@[j])@,
                ) == goal.contains_key(names@[j]@) && (goal.contains_key(names@[j]@)
                    ==> document::table_entries(*table)[names@[j]@] == goal[names@[j]@]),
            forall|j: int|
                i <= j < names@.len() ==> document::table_entries(*table).contains_key(
                    (#[trigger] names@[j])@,
                ) && document::table_entries(*table)[names@[j]@] == before[names@[j]@],
            forall|k: Seq<char>| #[trigger]
                document::table_entries(*table).contains_key(k) ==> before.contains_key(k),
            left_alone(
                document::table_margins(*old(table)),
                document::table_entries(*table),
                document::table_margins(*table),
            ),
    {
        let ghost name = names@[i as int]@;
        let ghost now = document::table_entries(*table);
        let ghost margins = document::table_margins(*table);
        let ghost mut inner = before;
        let mut empty: bool = false;
        assert(before.contains_key(name) && now[name] == before[name]);
        assert(goal.contains_key(name) == !(before[name] is Section && pruned(before[name])
            == Entry::Section(Map::empty())));
        assert(goal.contains_key(name) ==> goal[name] == pruned(before[name]));
        if let Some(section) = section_of(table, names[i].as_str()) {
            assert(before[name] is Section);
            assert(decreases_to!(whole => whole->Section_0[name]));
            prune(section);
            empty = holds_nothing(section);
            proof {
                inner = now.insert(name, Entry::Section(document::table_entries(*section)));
                lemma_left_below(margins, inner, document::table_margins(*section), name);
                lemma_pruned_in(now, name);
                lemma_left_on(
                    document::table_margins(*old(table)),
                    now,
                    margins,
                    inner,
                    document::margins_with(margins, name, document::table_margins(*section)),
                );
            }
        }
        let ghost between = document::table_margins(*table);
        if empty {
            proof {
                lemma_left_without(between, inner, name);
                lemma_left_on(
                    document::table_margins(*old(table)),
                    inner,
                    between,
                    inner.remove(name),
                    document::margins_without(between, name),
                );
            }
            let _ = take_out(table, names[i].as_str());
        }
        let ghost left_now = document::table_entries(*table);
        assert(left_now.contains_key(name) == goal.contains_key(name));
        assert(left_now.contains_key(name) ==> left_now[name] == goal[name]);
        assert forall|k: Seq<char>| k != name implies #[trigger] left_now.contains_key(k)
            == now.contains_key(k) && left_now[k] == now[k] by {}
    }
    proof {
        let after = document::table_entries(*table);
        assert forall|k: Seq<char>| after.dom().contains(k) == goal.dom().contains(k) by {
            if before.contains_key(k) {
                let i = choose|i: int| 0 <= i < names@.len() && (#[trigger] names@[i])@ == k;
                assert(after.contains_key(names@[i]@) == goal.contains_key(names@[i]@));
            } else {
                assert(after.contains_key(k) ==> before.contains_key(k));
            }
        }
        assert forall|k: Seq<char>| after.dom().contains(k) implies after[k] == goal[k] by {
            assert(after.contains_key(k));
            let i = choose|i: int| 0 <= i < names@.len() && (#[trigger] names@[i])@ == k;
            assert(goal.contains_key(names@[i]@));
        }
        assert(after =~= goal);
    }
}

/// Whether a document is another without a setting, and without the sections
/// that this leaves empty. What stands around the entries that are left is as
/// it was, the comments among it.
pub open spec fn cleared(before: Page, after: Page, key: Seq<char>) -> bool {
    &&& after.entries == removed(before.entries, key)
    &&& left_alone(before.margins, after.entries, after.margins)
    &&& after.tail == before.tail
}

/// Whether a text is what a document is written as once a setting is removed
/// from it.
pub open spec fn writes_cleared(text: Seq<char>, before: Page, key: Seq<char>) -> bool {
    exists|after: Page| cleared(before, after, key) && #[trigger] writes_down(text, after)
}

/// A settings file without a setting, and without the sections that this
/// leaves empty.
pub fn unset(source: Option<&str>, key: &str) -> (text: Result<String, SettingError>)
    ensures
        !setting_name(key@) ==> (text matches Err(SettingError::NotAName(name)) && name@ == key@),
        setting_name(key@) && source is None ==> (text matches Err(SettingError::NoFile(name))
            && name@ == key@),
        setting_name(key@) && source is Some ==> match document::document_read(source->Some_0@) {
            Err(complaint) => text matches Err(SettingError::Invalid(words)) && words@ == complaint,
            Ok(page) => document::reads_as(source->Some_0@, page.entries) && match entry_at(
                page.entries,
                text::pieces(key@, '.'),
            ) {
                None => text matches Err(SettingError::NotSet(name)) && name@ == key@,
                Some(_) => text matches Ok(text) && writes_cleared(text@, page, key@),
            },
        },
{
    let parts = match checked_key(key) {
        Some(parts) => parts,
        None => {
            return Err(SettingError::NotAName(key.to_owned()));
        },
    };
    proof {
        text::lemma_pieces(key@, '.');
        assert(text::views(parts@).len() == parts@.len());
        assert(text::views(parts@).skip(0) == text::pieces(key@, '.'));
    }
    let source = match source {
        Some(source) => source,
        None => {
            return Err(SettingError::NoFile(key.to_owned()));
        },
    };
    let mut document = match parse_document(source) {
        Ok(document) => document,
        Err(words) => {
            return Err(SettingError::Invalid(words));
        },
    };
    let ghost before = document::document_page(document);
    if !remove(root_table(&mut document), &parts, 0) {
        return Err(SettingError::NotSet(key.to_owned()));
    }
    let ghost between = document::document_page(document);
    prune(root_table(&mut document));
    let text = document_text(&document);
    proof {
        let after = document::document_page(document);
        assert forall|path: Seq<Seq<char>>| #[trigger]
            entry_at(after.entries, path) is Some implies entry_at(
            between.entries,
            path,
        ) is Some by {
            lemma_pruned(between.entries, path);
        }
        lemma_left_on(
            before.margins,
            between.entries,
            between.margins,
            after.entries,
            after.margins,
        );
        assert(text@ == document::document_words(document));
        assert(cleared(before, after, key@));
        assert(writes_down(text@, after));
    }
    Ok(text)
}

/// A saved value stands at the end of its path.
proof fn lemma_placed(entries: Map<Seq<char>, Entry>, path: Seq<Seq<char>>, node: Node)
    requires
        path.len() > 0,
        obstacle(entries, path) is None,
    ensures
        entry_at(placed(entries, path, node), path) == Some(Entry::Leaf(node)),
        value::at_path(
            document::meaning(Entry::Section(placed(entries, path, node))),
            path,
        ) == Some(node),
    decreases path.len(),
{
    let rest = path.drop_first();
    let after = placed(entries, path, node);
    assert(document::meaning(Entry::Section(after))->Section_0.contains_key(path[0]));
    if path.len() > 1 {
        let inner = section_or_empty(entries, path[0]);
        lemma_placed(inner, rest, node);
        assert(document::meaning(Entry::Section(after))->Section_0[path[0]] == document::meaning(
            Entry::Section(placed(inner, rest, node)),
        ));
    } else {
        assert(rest.len() == 0);
        reveal_with_fuel(document::meaning, 2);
        assert(document::meaning(Entry::Section(after))->Section_0[path[0]] == node);
        assert(value::at_path(node, rest) == Some(node));
    }
}

/// What `set` saved is what is read back: the file that was written, where it
/// reads at all, has the value under the name it was saved by. Of a table that
/// was saved it has what is not itself empty.
pub proof fn a_saved_setting_is_read_back(before: Page, key: Seq<char>, node: Node, text: Seq<char>)
    requires
        obstacle(before.entries, text::pieces(key, '.')) is None,
        writes_saved(text, before, text::pieces(key, '.'), node),
        document::plainly_named(
            Entry::Section(placed(before.entries, text::pieces(key, '.'), node)),
        ),
        document::kept(node) != Node::Section(Map::empty()),
    ensures
        document::toml_read(text) matches Ok(map) ==> (value::found(map, key) matches Some(read)
            && document::kept(read) == document::kept(node) && (node !is Section ==> read == node)),
{
    let path = text::pieces(key, '.');
    text::lemma_pieces(key, '.');
    lemma_placed(before.entries, path, node);
    let whole = document::meaning(Entry::Section(placed(before.entries, path, node)));
    document::lemma_kept(whole, path);
    if let Ok(map) = document::toml_read(text) {
        document::lemma_kept(Node::Section(map), path);
    }
}

/// Saving a setting leaves every other one as it was.
pub proof fn saving_leaves_the_rest_alone(
    entries: Map<Seq<char>, Entry>,
    path: Seq<Seq<char>>,
    node: Node,
    other: Seq<Seq<char>>,
)
    requires
        !path.is_prefix_of(other),
        !other.is_prefix_of(path),
        obstacle(entries, path) is None,
    ensures
        entry_at(placed(entries, path, node), other) == entry_at(entries, other),
    decreases path.len(),
{
    if path.len() > 0 && other.len() > 0 && path[0] == other[0] {
        let rest = path.drop_first();
        let left = other.drop_first();
        if path.len() > 1 && other.len() > 1 {
            if rest.is_prefix_of(left) {
                assert(path == seq![path[0]] + rest);
                assert(other.take(path.len() as int) == seq![path[0]] + left.take(
                    rest.len() as int,
                ));
            }
            if left.is_prefix_of(rest) {
                assert(other == seq![path[0]] + left);
                assert(path.take(other.len() as int) == seq![path[0]] + rest.take(
                    left.len() as int,
                ));
            }
            saving_leaves_the_rest_alone(section_or_empty(entries, path[0]), rest, node, left);
        } else if path.len() == 1 {
            assert(path == other.take(1));
        } else {
            assert(other == path.take(1));
        }
    }
}

/// A name that leads nowhere before leads nowhere once husks are dropped, and
/// a value stays where it was.
proof fn lemma_pruned(entries: Map<Seq<char>, Entry>, path: Seq<Seq<char>>)
    ensures
        entry_at(entries, path) is None ==> entry_at(
            pruned(Entry::Section(entries))->Section_0,
            path,
        ) is None,
        entry_at(entries, path) matches Some(Entry::Leaf(node)) ==> entry_at(
            pruned(Entry::Section(entries))->Section_0,
            path,
        ) == Some(Entry::Leaf(node)),
        entry_at(pruned(Entry::Section(entries))->Section_0, path) != Some(
            Entry::Section(Map::<Seq<char>, Entry>::empty()),
        ),
    decreases path.len(),
{
    let after = pruned(Entry::Section(entries))->Section_0;
    if path.len() > 0 && entries.contains_key(path[0]) {
        if let Entry::Section(inner) = entries[path[0]] {
            if path.len() > 1 {
                lemma_pruned(inner, path.drop_first());
                if !after.contains_key(path[0]) {
                    assert(pruned(entries[path[0]]) == Entry::Section(
                        Map::<Seq<char>, Entry>::empty(),
                    ));
                    assert(entry_at(Map::<Seq<char>, Entry>::empty(), path.drop_first()) is None);
                }
            }
        }
    }
}

proof fn lemma_without(entries: Map<Seq<char>, Entry>, path: Seq<Seq<char>>)
    requires
        path.len() > 0,
    ensures
        entry_at(without(entries, path), path) is None,
    decreases path.len(),
{
    if path.len() > 1 && document::has_section(entries, path[0]) {
        lemma_without(entries[path[0]]->Section_0, path.drop_first());
    }
}

proof fn lemma_without_keeps(
    entries: Map<Seq<char>, Entry>,
    path: Seq<Seq<char>>,
    other: Seq<Seq<char>>,
)
    requires
        entry_at(entries, other) matches Some(entry) && entry is Leaf,
        !path.is_prefix_of(other),
    ensures
        entry_at(without(entries, path), other) == entry_at(entries, other),
    decreases path.len(),
{
    if path.len() > 0 && path[0] == other[0] {
        let rest = path.drop_first();
        let left = other.drop_first();
        if path.len() > 1 && other.len() > 1 {
            if rest.is_prefix_of(left) {
                assert(path == seq![path[0]] + rest);
                assert(other.take(path.len() as int) == seq![path[0]] + left.take(
                    rest.len() as int,
                ));
            }
            lemma_without_keeps(entries[path[0]]->Section_0, rest, left);
        } else if path.len() == 1 {
            assert(path == other.take(1));
        }
    }
}

/// What a document without a setting holds.
pub open spec fn removed(entries: Map<Seq<char>, Entry>, key: Seq<char>) -> Map<Seq<char>, Entry> {
    pruned(Entry::Section(without(entries, text::pieces(key, '.'))))->Section_0
}

/// A setting that was removed is not there any more.
pub proof fn a_removed_setting_is_gone(entries: Map<Seq<char>, Entry>, key: Seq<char>)
    ensures
        entry_at(removed(entries, key), text::pieces(key, '.')) is None,
{
    let path = text::pieces(key, '.');
    text::lemma_pieces(key, '.');
    lemma_without(entries, path);
    lemma_pruned(without(entries, path), path);
}

/// Removing a setting leaves every other value where it was.
pub proof fn removing_leaves_the_rest_alone(
    entries: Map<Seq<char>, Entry>,
    key: Seq<char>,
    other: Seq<Seq<char>>,
)
    requires
        entry_at(entries, other) matches Some(entry) && entry is Leaf,
        !text::pieces(key, '.').is_prefix_of(other),
    ensures
        entry_at(removed(entries, key), other) == entry_at(entries, other),
{
    let path = text::pieces(key, '.');
    lemma_without_keeps(entries, path, other);
    lemma_pruned(without(entries, path), other);
}

/// Removing a setting leaves no section behind that holds nothing.
pub proof fn removing_leaves_no_husks(
    entries: Map<Seq<char>, Entry>,
    key: Seq<char>,
    path: Seq<Seq<char>>,
)
    ensures
        entry_at(removed(entries, key), path) != Some(
            Entry::Section(Map::<Seq<char>, Entry>::empty()),
        ),
{
    lemma_pruned(without(entries, text::pieces(key, '.')), path);
}

/// Saving changes what is said at the end of its path, and nowhere else.
proof fn lemma_placed_says(
    entries: Map<Seq<char>, Entry>,
    path: Seq<Seq<char>>,
    node: Node,
    other: Seq<Seq<char>>,
)
    requires
        !path.is_prefix_of(other),
        !other.is_prefix_of(path),
        obstacle(entries, path) is None,
    ensures
        value::at_path(document::meaning(Entry::Section(placed(entries, path, node))), other)
            == value::at_path(document::meaning(Entry::Section(entries)), other),
    decreases path.len(),
{
    let before = document::meaning(Entry::Section(entries))->Section_0;
    let after = document::meaning(Entry::Section(placed(entries, path, node)))->Section_0;
    if path.len() == 0 {
        assert(path == other.take(0));
    } else if other.len() == 0 {
        assert(other == path.take(0));
    } else if path[0] != other[0] {
        assert(after.contains_key(other[0]) == before.contains_key(other[0]));
    } else if path.len() == 1 {
        assert(path == other.take(1));
    } else if other.len() == 1 {
        assert(other == path.take(1));
    } else {
        let rest = path.drop_first();
        let left = other.drop_first();
        let inner = section_or_empty(entries, path[0]);
        if rest.is_prefix_of(left) {
            assert(path == seq![path[0]] + rest);
            assert(other.take(path.len() as int) == seq![path[0]] + left.take(rest.len() as int));
        }
        if left.is_prefix_of(rest) {
            assert(other == seq![path[0]] + left);
            assert(path.take(other.len() as int) == seq![path[0]] + rest.take(left.len() as int));
        }
        lemma_placed_says(inner, rest, node, left);
        assert(after[path[0]] == document::meaning(Entry::Section(placed(inner, rest, node))));
        if entries.contains_key(path[0]) {
            assert(before[path[0]] == document::meaning(Entry::Section(inner)));
        } else {
            assert(!before.contains_key(path[0]));
            assert(!document::meaning(Entry::Section(inner))->Section_0.contains_key(left[0]));
        }
    }
}

/// What was not saved reads as before: under every name that neither leads to
/// the saved setting nor through it, the file that was written has the value
/// that the file had that it was made from, and no other.
pub proof fn what_was_not_saved_reads_as_before(
    source: Seq<char>,
    text: Seq<char>,
    page: Page,
    key: Seq<char>,
    node: Node,
    other: Seq<char>,
    leaf: Node,
)
    requires
        document::reads_as(source, page.entries),
        document::plainly_named(Entry::Section(page.entries)),
        obstacle(page.entries, text::pieces(key, '.')) is None,
        writes_saved(text, page, text::pieces(key, '.'), node),
        document::plainly_named(
            Entry::Section(placed(page.entries, text::pieces(key, '.'), node)),
        ),
        !text::pieces(key, '.').is_prefix_of(text::pieces(other, '.')),
        !text::pieces(other, '.').is_prefix_of(text::pieces(key, '.')),
        leaf !is Section,
    ensures
        document::toml_read(source) matches Ok(before) ==> (document::toml_read(
            text,
        ) matches Ok(after) ==> (value::found(after, other) == Some(leaf) <==> value::found(
            before,
            other,
        ) == Some(leaf))),
{
    let path = text::pieces(key, '.');
    let names = text::pieces(other, '.');
    lemma_placed_says(page.entries, path, node, names);
    if let Ok(after) = document::toml_read(text) {
        document::lemma_kept_alike(
            Node::Section(after),
            document::meaning(Entry::Section(placed(page.entries, path, node))),
            names,
            leaf,
        );
    }
}

/// Dropping husks takes nothing away but sections that hold nothing.
proof fn lemma_pruned_says(entry: Entry)
    ensures
        document::kept(document::meaning(pruned(entry))) == document::kept(
            document::meaning(entry),
        ),
    decreases entry,
{
    if let Entry::Section(map) = entry {
        let said = document::meaning(entry)->Section_0;
        let rest = pruned(entry)->Section_0;
        let left = document::meaning(pruned(entry))->Section_0;
        let goal = document::kept(document::meaning(entry))->Section_0;
        let after = document::kept(document::meaning(pruned(entry)))->Section_0;
        assert forall|k: Seq<char>| #[trigger] after.dom().contains(k) == goal.dom().contains(k)
            && (after.dom().contains(k) ==> after[k] == goal[k]) by {
            if map.contains_key(k) {
                lemma_pruned_says(map[k]);
                assert(said.contains_key(k) && said[k] == document::meaning(map[k]));
                if rest.contains_key(k) {
                    assert(left.contains_key(k) && left[k] == document::meaning(pruned(map[k])));
                } else {
                    assert(!left.contains_key(k));
                    let none = Entry::Section(Map::<Seq<char>, Entry>::empty());
                    assert(document::meaning(none)->Section_0 =~= Map::empty());
                    assert(document::kept(document::meaning(none))->Section_0 =~= Map::empty());
                }
            } else {
                assert(!said.contains_key(k));
                assert(!rest.contains_key(k));
                assert(!left.contains_key(k));
            }
        }
        assert(after =~= goal);
    }
}

/// Removing changes what is said at the end of its path, on the way there,
/// and nowhere else.
proof fn lemma_without_says(
    entries: Map<Seq<char>, Entry>,
    path: Seq<Seq<char>>,
    other: Seq<Seq<char>>,
)
    requires
        entry_at(entries, path) is Some,
    ensures
        value::at_path(document::meaning(Entry::Section(without(entries, path))), path) is None,
        !path.is_prefix_of(other) && !other.is_prefix_of(path) ==> value::at_path(
            document::meaning(Entry::Section(without(entries, path))),
            other,
        ) == value::at_path(document::meaning(Entry::Section(entries)), other),
    decreases path.len(),
{
    let before = document::meaning(Entry::Section(entries))->Section_0;
    let after = document::meaning(Entry::Section(without(entries, path)))->Section_0;
    let rest = path.drop_first();
    let left = other.drop_first();
    if path.len() > 1 {
        let inner = entries[path[0]]->Section_0;
        lemma_without_says(inner, rest, left);
        assert(after[path[0]] == document::meaning(Entry::Section(without(inner, rest))));
        assert(before[path[0]] == document::meaning(Entry::Section(inner)));
    }
    if !path.is_prefix_of(other) && !other.is_prefix_of(path) {
        if other.len() == 0 {
            assert(other == path.take(0));
        } else if path[0] != other[0] {
            assert(after.contains_key(other[0]) == before.contains_key(other[0]));
        } else if path.len() == 1 {
            assert(path == other.take(1));
        } else if other.len() == 1 {
            assert(other == path.take(1));
        } else {
            if rest.is_prefix_of(left) {
                assert(path == seq![path[0]] + rest);
                assert(other.take(path.len() as int) == seq![path[0]] + left.take(
                    rest.len() as int,
                ));
            }
            if left.is_prefix_of(rest) {
                assert(other == seq![path[0]] + left);
                assert(path.take(other.len() as int) == seq![path[0]] + rest.take(
                    left.len() as int,
                ));
            }
        }
    }
}

/// What leads to an entry is a section, and is one still without the entry.
proof fn lemma_on_the_way(
    entries: Map<Seq<char>, Entry>,
    path: Seq<Seq<char>>,
    other: Seq<Seq<char>>,
)
    requires
        entry_at(entries, path) is Some,
        other.is_prefix_of(path),
        other.len() < path.len(),
    ensures
        value::at_path(document::meaning(Entry::Section(entries)), other) matches Some(
            Node::Section(_),
        ),
        value::at_path(
            document::meaning(Entry::Section(without(entries, path))),
            other,
        ) matches Some(Node::Section(_)),
    decreases path.len(),
{
    if other.len() > 0 {
        let rest = path.drop_first();
        let left = other.drop_first();
        let inner = entries[path[0]]->Section_0;
        let after = without(entries, path);
        assert(other[0] == path[0]);
        assert(left == rest.take(left.len() as int));
        assert(document::meaning(Entry::Section(entries))->Section_0[path[0]]
            == document::meaning(entries[path[0]]));
        assert(document::meaning(Entry::Section(after))->Section_0[path[0]]
            == document::meaning(Entry::Section(without(inner, rest))));
        lemma_on_the_way(inner, rest, left);
    }
}

/// The file that a setting was removed from does not have it when it is read,
/// and has every other value that was there before, and no other.
pub proof fn what_was_not_removed_reads_as_before(
    source: Seq<char>,
    text: Seq<char>,
    page: Page,
    key: Seq<char>,
    other: Seq<char>,
    leaf: Node,
)
    requires
        document::reads_as(source, page.entries),
        document::plainly_named(Entry::Section(page.entries)),
        entry_at(page.entries, text::pieces(key, '.')) is Some,
        writes_cleared(text, page, key),
        document::plainly_named(Entry::Section(removed(page.entries, key))),
        !text::pieces(key, '.').is_prefix_of(text::pieces(other, '.')),
        leaf !is Section,
    ensures
        document::toml_read(text) matches Ok(after) ==> (value::found(after, key) matches Some(read)
            ==> document::kept(read) == Node::Section(Map::empty())),
        document::toml_read(source) matches Ok(before) ==> (document::toml_read(
            text,
        ) matches Ok(after) ==> (value::found(after, other) == Some(leaf) <==> value::found(
            before,
            other,
        ) == Some(leaf))),
{
    let path = text::pieces(key, '.');
    let names = text::pieces(other, '.');
    let rest = without(page.entries, path);
    let said = document::meaning(Entry::Section(rest));
    lemma_without_says(page.entries, path, names);
    lemma_pruned_says(Entry::Section(rest));
    document::lemma_kept(said, path);
    if names.is_prefix_of(path) {
        if names.len() == path.len() {
            assert(names == path.take(path.len() as int));
            assert(path == names.take(names.len() as int));
        } else {
            lemma_on_the_way(page.entries, path, names);
        }
    }
    if let Ok(after) = document::toml_read(text) {
        document::lemma_kept(Node::Section(after), path);
        document::lemma_kept_alike(Node::Section(after), said, names, leaf);
    }
}

/// Saving keeps the rest of the file, comments included: every entry that
/// neither leads to the setting nor is below it is there as it was, and every
/// one that is not below it is laid out as it was. Where it has a line of its
/// own, that stands in the file that is written, with what stood around it. The
/// file ends as it did.
pub proof fn saving_keeps_the_comments(
    before: Page,
    after: Page,
    path: Seq<Seq<char>>,
    node: Node,
    other: Seq<Seq<char>>,
    text: Seq<char>,
)
    requires
        path.len() > 0,
        obstacle(before.entries, path) is None,
        saved(before, after, path, node),
        writes_down(text, after),
        entry_at(before.entries, other) is Some,
        !path.is_prefix_of(other),
    ensures
        !other.is_prefix_of(path) ==> entry_at(after.entries, other) == entry_at(
            before.entries,
            other,
        ),
        document::margin_at(after.margins, other) == document::margin_at(before.margins, other),
        document::margin_at(before.margins, other) matches Some(margin) ==> (margin.lined
            ==> document::stands_in(text, margin)),
        document::ends_in(text, before.tail),
{
    if !other.is_prefix_of(path) {
        saving_leaves_the_rest_alone(before.entries, path, node, other);
    }
    assert(untouched(before.entries, path, other));
    assert(document::margin_at(after.margins, other) == document::margin_at(before.margins, other));
    if before.margins.contains_key(other) {
        assert(after.margins.contains_key(other));
    }
}

/// A value that is saved in place of another stands within the comments that
/// stood around that one, in the file that is written too.
pub proof fn a_replaced_value_keeps_its_comments(
    before: Page,
    after: Page,
    path: Seq<Seq<char>>,
    node: Node,
    text: Seq<char>,
)
    requires
        path.len() > 0,
        saved(before, after, path, node),
        writes_down(text, after),
        entry_at(before.entries, path) matches Some(Entry::Leaf(_)),
        before.margins.contains_key(path),
    ensures
        after.margins.contains_key(path),
        takes_place(before.margins[path], after.margins[path]),
        before.margins[path].lined ==> document::stands_in(text, after.margins[path]),
{
}

/// A section that saving makes has a header where it holds the setting, and
/// none where it only leads there.
pub proof fn a_new_section_has_a_header_where_it_is_needed(
    before: Page,
    after: Page,
    path: Seq<Seq<char>>,
    node: Node,
    section: Seq<Seq<char>>,
)
    requires
        saved(before, after, path, node),
        0 < section.len() < path.len(),
        section.is_prefix_of(path),
        entry_at(before.entries, section) is None,
    ensures
        document::margin_at(after.margins, section) matches Some(margin) && margin.lined == (
        section.len() + 1 == path.len()),
{
    assert(is_new(before.entries, path, section));
}

/// Removing keeps the rest of the file, comments included: every value that is
/// left is laid out as it was. Where it has a line of its own, that stands in
/// the file that is written, with what stood around it. The file ends as it
/// did.
pub proof fn removing_keeps_the_comments(
    before: Page,
    after: Page,
    key: Seq<char>,
    other: Seq<Seq<char>>,
    text: Seq<char>,
)
    requires
        cleared(before, after, key),
        writes_down(text, after),
        entry_at(before.entries, other) matches Some(entry) && entry is Leaf,
        !text::pieces(key, '.').is_prefix_of(other),
    ensures
        entry_at(after.entries, other) == entry_at(before.entries, other),
        document::margin_at(after.margins, other) == document::margin_at(before.margins, other),
        document::margin_at(before.margins, other) matches Some(margin) ==> (margin.lined
            ==> document::stands_in(text, margin)),
        document::ends_in(text, before.tail),
{
    removing_leaves_the_rest_alone(before.entries, key, other);
    assert(document::margin_at(after.margins, other) == document::margin_at(before.margins, other));
    if before.margins.contains_key(other) {
        assert(after.margins.contains_key(other));
    }
}

/// What to do with a setting that is being saved.
pub enum Judgement {
    /// Write this file.
    Write(Trial),
    /// Put this file to the schema.
    Try(Trial),
    /// Write nothing.
    Refuse(String),
}

/// What is said of a file that the schema does not accept.
pub open spec fn complaint(message: Seq<char>) -> Seq<char> {
    if text::occurs(message, "unknown field"@) {
        message + "\n`rosco config list` shows every setting there is."@
    } else {
        message
    }
}

/// What is said of a file that the schema does not accept, by its own account.
pub fn schema_complaint(message: &str) -> (words: String)
    ensures
        words@ == complaint(message@),
{
    if contains(message, "unknown field") {
        cat(message, "\n`rosco config list` shows every setting there is.")
    } else {
        message.to_owned()
    }
}

/// The schema's verdict on a trial: the file is written if it was accepted.
/// If not, the next trial is put to it, and when there is none left the
/// first rejection is the answer.
pub fn judge(
    trial: Trial,
    verdict: Option<String>,
    rejection: Option<String>,
    left: Option<Trial>,
) -> (judged: (Judgement, Option<String>))
    ensures
        verdict is None ==> judged.0 == Judgement::Write(trial),
        verdict matches Some(message) ==> {
            &&& judged.1 matches Some(first) && first@ == (match rejection {
                Some(words) => words@,
                None => complaint(message@),
            })
            &&& match left {
                Some(next) => judged.0 == Judgement::Try(next),
                None => judged.0 matches Judgement::Refuse(words) && Some(words)
                    == judged.1,
            }
        },
{
    match verdict {
        None => (Judgement::Write(trial), rejection),
        Some(message) => {
            let first = match rejection {
                Some(words) => words,
                None => schema_complaint(message.as_str()),
            };
            match left {
                Some(next) => (Judgement::Try(next), Some(first)),
                None => (Judgement::Refuse(first.clone()), Some(first)),
            }
        },
    }
}

/// How a value is listed.
pub open spec fn rendered(node: Node) -> Seq<char>
    decreases node,
{
    match node {
        Node::Text(words) => text::debug_words(words),
        Node::Integer(number) => text::signed_digits(number),
        Node::Float(words) => words,
        Node::Boolean(flag) => if flag {
            "true"@
        } else {
            "false"@
        },
        Node::Datetime(words) => words,
        Node::Array(items) => "["@ + text::joined(rendered_items(items, items.len()), ", "@)
            + "]"@,
        Node::Section(_) => "{ ... }"@,
    }
}

pub open spec fn rendered_items(items: Seq<Node>, count: nat) -> Seq<Seq<char>>
    decreases items, count,
{
    if count == 0 || count > items.len() {
        Seq::empty()
    } else {
        rendered_items(items, (count - 1) as nat).push(rendered(items[count - 1]))
    }
}

/// How a value is listed.
pub fn render_toml(setting: &Setting) -> (words: String)
    ensures
        words@ == rendered(setting@),
    decreases setting,
{
    match setting {
        Setting::Text(words) => debug_text(words.as_str()),
        Setting::Integer(number) => signed_decimal(*number),
        Setting::Float(words) => words.clone(),
        Setting::Boolean(flag) => if *flag {
            "true".to_owned()
        } else {
            "false".to_owned()
        },
        Setting::Datetime(words) => words.clone(),
        Setting::Array(items) => render_items(items),
        Setting::Section(_) => "{ ... }".to_owned(),
    }
}

fn render_items(items: &Vec<Setting>) -> (words: String)
    ensures
        words@ == rendered(Node::Array(value::nodes_of(items@, items@.len()))),
    decreases items,
{
    let ghost nodes = value::nodes_of(items@, items@.len());
    proof {
        value::lemma_items(items@, items@.len());
    }
    let mut parts: Vec<String> = Vec::new();
    assert(text::views(parts@) == rendered_items(nodes, 0));
    for i in 0..items.len()
        invariant
            nodes == value::nodes_of(items@, items@.len()),
            nodes.len() == items@.len(),
            forall|j: int| 0 <= j < nodes.len() ==> #[trigger] nodes[j] == value::node_of(items@[j]),
            text::views(parts@) == rendered_items(nodes, i as nat),
    {
        assert(decreases_to!(items => items@[i as int]));
        let ghost before = parts@;
        let part = render_toml(&items[i]);
        let ghost words = part@;
        parts.push(part);
        assert(text::views(parts@) == text::views(before).push(words));
    }
    let mut words = cat("[", join(&parts, ", ").as_str());
    words.append("]");
    words
}

/// How a value is printed for a script: a text as it is, anything else as it
/// is listed.
pub open spec fn printed(node: Node) -> Seq<char> {
    match node {
        Node::Text(words) => words,
        _ => rendered(node),
    }
}

/// How a value is printed for a script.
pub fn render_plain(setting: &Setting) -> (words: String)
    ensures
        words@ == printed(setting@),
{
    match setting {
        Setting::Text(words) => words.clone(),
        _ => render_toml(setting),
    }
}

/// One setting, printed so that it can be used in a script.
pub fn get(table: &Section, key: &str) -> (line: Result<String, String>)
    requires
        table.wf(),
    ensures
        match value::found(table@, key@) {
            Some(node) => line matches Ok(line) && line@ == printed(node),
            None => line matches Err(words) && words@ == key@
                + " is not set; `rosco config list` shows the settings that are"@,
        },
{
    match lookup(table, key) {
        Some(setting) => Ok(render_plain(setting)),
        None => {
            Err(cat(key, " is not set; `rosco config list` shows the settings that are"))
        },
    }
}

/// What a settings file starts with when it is first opened.
pub fn starter(scope: Scope) -> (line: &'static str)
    ensures
        line@ == (match scope {
            Scope::Global => "# rosco settings for this user, shared by every project.\n"@,
            Scope::Project => "# rosco settings for this project.\n"@,
        }),
{
    match scope {
        Scope::Global => "# rosco settings for this user, shared by every project.\n",
        Scope::Project => "# rosco settings for this project.\n",
    }
}

/// The editor to open a settings file in: what the user set, or what the host
/// always has.
pub fn choose_editor(visual: Option<String>, editor: Option<String>, host: Host) -> (program: String)
    ensures
        match (visual, editor) {
            (Some(program_set), _) => program == program_set,
            (None, Some(program_set)) => program == program_set,
            (None, None) => program@ == (if host == Host::Windows {
                "notepad"@
            } else {
                "vi"@
            }),
        },
{
    match (visual, editor) {
        (Some(program), _) => program,
        (None, Some(program)) => program,
        (None, None) => match host {
            Host::Windows => "notepad".to_owned(),
            _ => "vi".to_owned(),
        },
    }
}

/// A name and a value as they are listed.
pub open spec fn shown_pairs(list: Seq<(String, String)>) -> Seq<(Seq<char>, Seq<char>)> {
    Seq::new(list.len(), |i: int| (list[i].0@, list[i].1@))
}

/// A list in order with one more entry, behind those it does not come before.
pub open spec fn put_in_order(
    list: Seq<(Seq<char>, Seq<char>)>,
    entry: (Seq<char>, Seq<char>),
) -> Seq<(Seq<char>, Seq<char>)>
    decreases list.len(),
{
    if list.len() == 0 || !text::precedes(entry.0, list.last().0) {
        list.push(entry)
    } else {
        put_in_order(list.drop_last(), entry).push(list.last())
    }
}

/// A list in the order of its names.
pub open spec fn sorted(list: Seq<(Seq<char>, Seq<char>)>) -> Seq<(Seq<char>, Seq<char>)>
    decreases list.len(),
{
    if list.len() == 0 {
        Seq::empty()
    } else {
        put_in_order(sorted(list.drop_last()), list.last())
    }
}

proof fn lemma_put_in_order(
    list: Seq<(Seq<char>, Seq<char>)>,
    entry: (Seq<char>, Seq<char>),
    at: int,
)
    requires
        0 <= at <= list.len(),
        at > 0 ==> !text::precedes(entry.0, list[at - 1].0),
        forall|i: int| at <= i < list.len() ==> text::precedes(entry.0, (#[trigger] list[i]).0),
    ensures
        put_in_order(list, entry) == list.insert(at, entry),
    decreases list.len(),
{
    if at < list.len() {
        assert(text::precedes(entry.0, list[list.len() - 1].0));
        lemma_put_in_order(list.drop_last(), entry, at);
        assert(list.insert(at, entry) == list.drop_last().insert(at, entry).push(list.last()));
    } else {
        assert(list.insert(at, entry) == list.push(entry));
    }
}

fn sort(list: Vec<(String, String)>) -> (ordered: Vec<(String, String)>)
    ensures
        shown_pairs(ordered@) == sorted(shown_pairs(list@)),
{
    let ghost all = shown_pairs(list@);
    let mut ordered: Vec<(String, String)> = Vec::new();
    assert(shown_pairs(ordered@) == sorted(all.take(0)));
    for i in 0..list.len()
        invariant
            all == shown_pairs(list@),
            ordered@.len() == i,
            shown_pairs(ordered@) == sorted(all.take(i as int)),
    {
        let entry = (list[i].0.clone(), list[i].1.clone());
        let ghost shown = (entry.0@, entry.1@);
        let ghost before = ordered@;
        let mut at: usize = ordered.len();
        while at > 0 && comes_before(entry.0.as_str(), ordered[at - 1].0.as_str())
            invariant
                before == ordered@,
                shown == (entry.0@, entry.1@),
                at <= ordered@.len(),
                forall|j: int|
                    at <= j < ordered@.len() ==> text::precedes(
                        entry.0@,
                        (#[trigger] shown_pairs(ordered@)[j]).0,
                    ),
            decreases at,
        {
            at = at - 1;
        }
        proof {
            lemma_put_in_order(shown_pairs(before), shown, at as int);
            assert(all.take(i + 1).drop_last() == all.take(i as int));
        }
        ordered.insert(at, entry);
        assert(shown_pairs(ordered@) == shown_pairs(before).insert(at as int, shown));
    }
    assert(all.take(all.len() as int) == all);
    ordered
}

proof fn lemma_put_keeps_order(
    list: Seq<(Seq<char>, Seq<char>)>,
    entry: (Seq<char>, Seq<char>),
)
    requires
        forall|i: int, j: int|
            0 <= i < j < list.len() ==> !text::precedes(
                (#[trigger] list[j]).0,
                (#[trigger] list[i]).0,
            ),
    ensures
        forall|i: int, j: int|
            0 <= i < j < put_in_order(list, entry).len() ==> !text::precedes(
                (#[trigger] put_in_order(list, entry)[j]).0,
                (#[trigger] put_in_order(list, entry)[i]).0,
            ),
        put_in_order(list, entry).to_multiset() == list.to_multiset().insert(entry),
        forall|i: int|
            0 <= i < put_in_order(list, entry).len() ==> (#[trigger] put_in_order(list, entry)[i])
                == entry || list.contains(put_in_order(list, entry)[i]),
    decreases list.len(),
{
    broadcast use vstd::seq_lib::group_to_multiset_ensures;

    let after = put_in_order(list, entry);
    if list.len() > 0 && text::precedes(entry.0, list.last().0) {
        let rest = list.drop_last();
        lemma_put_keeps_order(rest, entry);
        let inner = put_in_order(rest, entry);
        assert(list == rest.push(list.last()));
        assert forall|i: int| 0 <= i < inner.len() implies !text::precedes(
            list.last().0,
            (#[trigger] inner[i]).0,
        ) by {
            if inner[i] == entry {
                if text::precedes(list.last().0, entry.0) {
                    text::lemma_precedes_transitive(entry.0, list.last().0, entry.0);
                    text::lemma_precedes_irreflexive(entry.0);
                }
            } else {
                assert(rest.contains(inner[i]));
                let k = rest.index_of(inner[i]);
                assert(list[k] == inner[i]);
            }
        }
        assert forall|i: int| 0 <= i < after.len() implies (#[trigger] after[i]) == entry
            || list.contains(after[i]) by {
            if i < inner.len() {
                assert(after[i] == inner[i]);
                if inner[i] != entry {
                    assert(rest.contains(inner[i]));
                    let k = rest.index_of(inner[i]);
                    assert(list[k] == inner[i]);
                }
            } else {
                assert(after[i] == list[list.len() - 1]);
            }
        }
        assert(after.to_multiset() == inner.to_multiset().insert(list.last()));
        assert(list.to_multiset() == rest.to_multiset().insert(list.last()));
        assert(after.to_multiset() == list.to_multiset().insert(entry));
    } else {
        assert forall|i: int, j: int| 0 <= i < j < after.len() implies !text::precedes(
            (#[trigger] after[j]).0,
            (#[trigger] after[i]).0,
        ) by {
            if j == list.len() {
                assert(after[i] == list[i]);
                if i < list.len() - 1 && text::precedes(entry.0, list[i].0) {
                    if list[i].0 == list.last().0 {
                    } else {
                        text::lemma_precedes_total(list[i].0, list.last().0);
                        text::lemma_precedes_transitive(entry.0, list[i].0, list.last().0);
                    }
                }
            }
        }
        assert forall|i: int| 0 <= i < after.len() implies (#[trigger] after[i]) == entry
            || list.contains(after[i]) by {
            if i < list.len() {
                assert(after[i] == list[i]);
            }
        }
    }
}

/// The listing is in the order of its names, and holds every setting as often
/// as it is there.
pub proof fn the_listing_is_in_order(list: Seq<(Seq<char>, Seq<char>)>)
    ensures
        forall|i: int, j: int|
            0 <= i < j < sorted(list).len() ==> !text::precedes(
                (#[trigger] sorted(list)[j]).0,
                (#[trigger] sorted(list)[i]).0,
            ),
        sorted(list).to_multiset() == list.to_multiset(),
    decreases list.len(),
{
    broadcast use vstd::seq_lib::group_to_multiset_ensures;

    if list.len() > 0 {
        the_listing_is_in_order(list.drop_last());
        lemma_put_keeps_order(sorted(list.drop_last()), list.last());
        assert(list == list.drop_last().push(list.last()));
    } else {
        assert(list == Seq::<(Seq<char>, Seq<char>)>::empty());
    }
}

/// The widest of the first texts of a list, in bytes.
pub open spec fn widest(list: Seq<Seq<char>>, count: nat) -> nat
    decreases count,
{
    if count == 0 || count > list.len() {
        0
    } else {
        let before = widest(list, (count - 1) as nat);
        let last = vstd::utf8::encode_utf8(list[count - 1]).len();
        if last > before {
            last
        } else {
            before
        }
    }
}

/// The names, or the values, of a listing.
pub open spec fn column(list: Seq<(Seq<char>, Seq<char>)>, values: bool) -> Seq<Seq<char>> {
    Seq::new(
        list.len(),
        |i: int|
            if values {
                list[i].1
            } else {
                list[i].0
            },
    )
}

/// The line about a settings file.
pub open spec fn file_line(label: Seq<char>, path: Option<Seq<char>>, present: bool) -> Seq<char> {
    "# "@ + label + "  "@ + match path {
        Some(path) => if present {
            path
        } else {
            path + " (not created yet)"@
        },
        None => "<none>"@,
    }
}

/// What a listing shows before it is put in order: every setting that has a
/// value, and those that have none and could.
pub open spec fn listed(
    leaves: Seq<(Seq<char>, Node)>,
    optional: Seq<Seq<char>>,
    count: nat,
) -> Seq<(Seq<char>, Seq<char>)>
    decreases count,
{
    let values = Seq::new(leaves.len(), |i: int| (leaves[i].0, rendered(leaves[i].1)));
    if count == 0 || count > optional.len() {
        values
    } else {
        let before = listed(leaves, optional, (count - 1) as nat);
        let name = optional[count - 1];
        if exists|i: int| 0 <= i < before.len() && (#[trigger] before[i]).0 == name {
            before
        } else {
            before.push((name, "(unset)"@))
        }
    }
}

/// Which file supplies a setting.
pub open spec fn origin_of(layers: Layers, key: Seq<char>) -> config::Origin {
    if value::found(config::said(layers.project), key) is Some {
        config::Origin::Project
    } else if value::found(config::said(layers.global), key) is Some {
        config::Origin::Global
    } else {
        config::Origin::Default
    }
}

/// The line about a setting: its name and its value in columns, and the file
/// that supplies it.
pub open spec fn setting_line(
    entry: (Seq<char>, Seq<char>),
    keys: nat,
    values: nat,
    layers: Layers,
) -> Seq<char> {
    entry.0 + text::spaces(keys - entry.0.len()) + "  "@ + entry.1 + text::spaces(
        values - entry.1.len(),
    ) + "  "@ + config::origin_word(origin_of(layers, entry.0))
}

/// The lines about every setting in force.
pub open spec fn setting_lines(
    list: Seq<(Seq<char>, Seq<char>)>,
    layers: Layers,
) -> Seq<Seq<char>> {
    let keys = widest(column(list, false), list.len());
    let values = widest(column(list, true), list.len());
    Seq::new(list.len(), |i: int| setting_line(list[i], keys, values, layers))
}

/// Whether a configuration passes no variable to the build.
pub open spec fn no_variables(table: Map<Seq<char>, Node>) -> bool {
    match value::found(table, "build.environment"@) {
        Some(Node::Section(variables)) => variables == Map::<Seq<char>, Node>::empty(),
        Some(_) => false,
        None => true,
    }
}

/// Everything that `rosco config list` prints.
pub open spec fn listing(layers: Layers, table: Section) -> Seq<Seq<char>> {
    let leaves = value::leaves(Seq::empty(), Setting::Section(table));
    let list = sorted(
        listed(leaves, config::optional_names(), config::optional_names().len()),
    );
    let files = seq![
        file_line("global "@, config::optional(layers.global_path), layers.global is Some),
        file_line("project"@, config::optional(layers.project_path), layers.project is Some),
        Seq::empty(),
    ];
    let note = if no_variables(table@) {
        seq![
            Seq::empty(),
            "build.environment.<NAME> passes a variable to the build process."@,
        ]
    } else {
        Seq::empty()
    };
    files + setting_lines(list, layers) + note
}

fn line_of_file(label: &str, path: &Option<String>, present: bool) -> (line: String)
    ensures
        line@ == file_line(label@, config::optional(*path), present),
{
    let mut line = cat("# ", label);
    line.append("  ");
    match path {
        Some(path) => {
            line.append(path.as_str());
            if !present {
                line.append(" (not created yet)");
            }
        },
        None => {
            line.append("<none>");
        },
    }
    assert(line@ == file_line(label@, config::optional(*path), present));
    line
}

fn lists(list: &Vec<(String, String)>, name: &str) -> (does: bool)
    ensures
        does == exists|i: int|
            0 <= i < shown_pairs(list@).len() && (#[trigger] shown_pairs(list@)[i]).0 == name@,
{
    for i in 0..list.len()
        invariant
            forall|j: int| 0 <= j < i ==> (#[trigger] shown_pairs(list@)[j]).0 != name@,
    {
        if same(list[i].0.as_str(), name) {
            assert(shown_pairs(list@)[i as int].0 == name@);
            return true;
        }
    }
    false
}

fn width_of(list: &Vec<(String, String)>, values: bool) -> (width: usize)
    ensures
        width == widest(column(shown_pairs(list@), values), list@.len()),
{
    let mut width: usize = 0;
    for i in 0..list.len()
        invariant
            width == widest(column(shown_pairs(list@), values), i as nat),
    {
        let length: usize = if values {
            byte_length(list[i].1.as_str())
        } else {
            byte_length(list[i].0.as_str())
        };
        if length > width {
            width = length;
        }
    }
    width
}

/// Whether a configuration passes no variable to the build.
fn lacks_variables(table: &Section) -> (lacks: bool)
    requires
        table.wf(),
    ensures
        lacks == no_variables(table@),
{
    match lookup(table, "build.environment") {
        Some(Setting::Section(variables)) => variables.is_empty(),
        Some(_) => false,
        None => true,
    }
}

/// Every setting in force and which file supplies it, line by line. `table` is
/// the whole configuration, as `Config::to_value` gives it.
pub fn list(layers: &Layers, table: Section) -> (lines: Vec<String>)
    requires
        layers.wf(),
        table.wf(),
    ensures
        text::views(lines@) == listing(*layers, table),
{
    let lacks: bool = lacks_variables(&table);
    let ghost nodes = value::leaves(Seq::empty(), Setting::Section(table));
    let setting = Setting::Section(table);
    let leaves = flatten(&setting);
    let mut pairs: Vec<(String, String)> = Vec::new();
    for i in 0..leaves.len()
        invariant
            value::pairs(leaves@) == nodes,
            shown_pairs(pairs@) == listed(nodes, Seq::empty(), 0).take(i as int),
            pairs@.len() == i,
    {
        let ghost before = pairs@;
        assert(value::pairs(leaves@)[i as int] == (
            leaves@[i as int].0@,
            value::node_of(leaves@[i as int].1),
        ));
        pairs.push((leaves[i].0.clone(), render_toml(&leaves[i].1)));
        assert(shown_pairs(pairs@) == listed(nodes, Seq::empty(), 0).take(i + 1));
    }
    let optional = optional_settings();
    let ghost names = config::optional_names();
    assert(shown_pairs(pairs@) == listed(nodes, names, 0));
    for i in 0..optional.len()
        invariant
            text::views(optional@) == names,
            shown_pairs(pairs@) == listed(nodes, names, i as nat),
    {
        assert(names[i as int] == optional@[i as int]@);
        if !lists(&pairs, optional[i].as_str()) {
            let ghost before = pairs@;
            pairs.push((optional[i].clone(), "(unset)".to_owned()));
            assert(shown_pairs(pairs@) == shown_pairs(before).push(
                (names[i as int], "(unset)"@),
            ));
        }
    }
    assert(optional@.len() == names.len());
    let pairs = sort(pairs);
    let ghost all = shown_pairs(pairs@);
    let keys: usize = width_of(&pairs, false);
    let values: usize = width_of(&pairs, true);
    let mut lines: Vec<String> = Vec::new();
    lines.push(line_of_file("global ", &layers.global_path, layers.global.is_some()));
    lines.push(line_of_file("project", &layers.project_path, layers.project.is_some()));
    lines.push(String::new());
    let ghost files = text::views(lines@);
    for i in 0..pairs.len()
        invariant
            layers.wf(),
            all == shown_pairs(pairs@),
            keys == widest(column(all, false), all.len()),
            values == widest(column(all, true), all.len()),
            text::views(lines@) == files + setting_lines(all, *layers).take(i as int),
    {
        let ghost before = lines@;
        let mut line = pad_right(pairs[i].0.as_str(), keys);
        line.append("  ");
        line.append(pad_right(pairs[i].1.as_str(), values).as_str());
        line.append("  ");
        line.append(layers.origin(pairs[i].0.as_str()).label());
        let ghost words = line@;
        assert(words == setting_line(all[i as int], keys as nat, values as nat, *layers));
        lines.push(line);
        assert(text::views(lines@) == text::views(before).push(words));
        assert(text::views(lines@) == files + setting_lines(all, *layers).take(i + 1));
    }
    assert(setting_lines(all, *layers).take(all.len() as int) == setting_lines(all, *layers));
    if lacks {
        let ghost before = lines@;
        lines.push(String::new());
        lines.push("build.environment.<NAME> passes a variable to the build process.".to_owned());
        assert(text::views(lines@) == text::views(before) + seq![
            Seq::empty(),
            "build.environment.<NAME> passes a variable to the build process."@,
        ]);
    }
    assert(text::views(lines@) == listing(*layers, table));
    lines
}

/// What is said once a setting is saved.
pub fn saved_line(key: &str, shown: &str, path: &str) -> (line: String)
    ensures
        line@ == key@ + " = "@ + shown@ + " saved to "@ + path@,
{
    let mut line = cat(key, " = ");
    line.append(shown);
    line.append(" saved to ");
    line.append(path);
    line
}

/// What is said once a setting is removed.
pub fn removed_line(key: &str, path: &str) -> (line: String)
    ensures
        line@ == "Removed "@ + key@ + " from "@ + path@,
{
    let mut line = cat("Removed ", key);
    line.append(" from ");
    line.append(path);
    line
}

/// A line about a setting: its name, its value and where that was decided, with
/// so many more spaces behind the first two.
pub open spec fn line_about(
    key: Seq<char>,
    shown: Seq<char>,
    origin: Seq<char>,
    gap: int,
    rest: int,
) -> Seq<char> {
    key + text::spaces(gap) + "  "@ + shown + text::spaces(rest) + "  "@ + origin
}

proof fn lemma_sorted_holds(list: Seq<(Seq<char>, Seq<char>)>, at: int) -> (place: int)
    requires
        0 <= at < list.len(),
    ensures
        0 <= place < sorted(list).len(),
        sorted(list)[place] == list[at],
{
    broadcast use vstd::seq_lib::group_to_multiset_ensures;

    the_listing_is_in_order(list);
    assert(list.contains(list[at]));
    assert(list.to_multiset().count(list[at]) > 0);
    assert(sorted(list).contains(list[at]));
    choose|place: int| 0 <= place < sorted(list).len() && sorted(list)[place] == list[at]
}

proof fn lemma_listed_grows(
    leaves: Seq<(Seq<char>, Node)>,
    optional: Seq<Seq<char>>,
    few: nat,
    count: nat,
)
    requires
        few <= count <= optional.len(),
    ensures
        listed(leaves, optional, few).len() <= listed(leaves, optional, count).len(),
        forall|i: int|
            0 <= i < listed(leaves, optional, few).len() ==> #[trigger] listed(
                leaves,
                optional,
                count,
            )[i] == listed(leaves, optional, few)[i],
    decreases count,
{
    if few < count {
        lemma_listed_grows(leaves, optional, few, (count - 1) as nat);
    }
}

proof fn lemma_listed_line(layers: &Layers, table: Section, lines: Vec<String>, at: int) -> (place:
    (int, int, int))
    requires
        call_ensures(list, (layers, table), lines),
        0 <= at < listed(
            value::leaves(Seq::empty(), Setting::Section(table)),
            config::optional_names(),
            config::optional_names().len(),
        ).len(),
    ensures
        ({
            let entry = listed(
                value::leaves(Seq::empty(), Setting::Section(table)),
                config::optional_names(),
                config::optional_names().len(),
            )[at];
            &&& 0 <= place.0 < lines@.len()
            &&& lines@[place.0]@ == line_about(
                entry.0,
                entry.1,
                config::origin_word(origin_of(*layers, entry.0)),
                place.1,
                place.2,
            )
        }),
{
    let leaves = value::leaves(Seq::empty(), Setting::Section(table));
    let before = listed(leaves, config::optional_names(), config::optional_names().len());
    let entry = before[at];
    let all = sorted(before);
    let k = lemma_sorted_holds(before, at);
    let keys = widest(column(all, false), all.len());
    let values = widest(column(all, true), all.len());
    let shown = text::views(lines@);
    let said = setting_lines(all, *layers);
    let files = seq![
        file_line("global "@, config::optional(layers.global_path), layers.global is Some),
        file_line("project"@, config::optional(layers.project_path), layers.project is Some),
        Seq::<char>::empty(),
    ];
    let note = if no_variables(table@) {
        seq![
            Seq::<char>::empty(),
            "build.environment.<NAME> passes a variable to the build process."@,
        ]
    } else {
        Seq::empty()
    };
    assert(shown == files + said + note);
    assert(files.len() == 3);
    assert(said.len() == all.len());
    assert(said[k] == setting_line(all[k], keys, values, *layers));
    assert(shown[k + 3] == said[k]);
    assert(lines@.len() == shown.len());
    assert(lines@[k + 3]@ == shown[k + 3]);
    assert(said[k] == line_about(
        entry.0,
        entry.1,
        config::origin_word(origin_of(*layers, entry.0)),
        keys - entry.0.len(),
        values - entry.1.len(),
    ));
    (k + 3, keys - entry.0.len(), values - entry.1.len())
}

/// Every setting in force has a line that says its name, its value and which
/// file decided it.
pub proof fn every_setting_in_force_is_listed(
    layers: &Layers,
    table: Section,
    lines: Vec<String>,
    leaves: Vec<(String, Setting)>,
    at: int,
    shown: String,
    name: &str,
    origin: config::Origin,
)
    requires
        layers.wf(),
        table.wf(),
        call_ensures(list, (layers, table), lines),
        call_ensures(flatten, (&Setting::Section(table),), leaves),
        0 <= at < leaves@.len(),
        name@ == leaves@[at].0@,
        call_ensures(render_toml, (&leaves@[at].1,), shown),
        call_ensures(Layers::origin, (layers, name), origin),
    ensures
        exists|k: int, gap: int, rest: int|
            0 <= k < lines@.len() && (#[trigger] lines@[k])@ == #[trigger] line_about(
                name@,
                shown@,
                config::origin_word(origin),
                gap,
                rest,
            ),
{
    let names = config::optional_names();
    let nodes = value::leaves(Seq::empty(), Setting::Section(table));
    assert(value::pairs(leaves@) == nodes);
    assert(nodes[at] == (leaves@[at].0@, value::node_of(leaves@[at].1)));
    let first = listed(nodes, names, 0);
    assert(first[at] == (name@, shown@));
    lemma_listed_grows(nodes, names, 0, names.len());
    let all = listed(nodes, names, names.len());
    assert(all[at] == first[at]);
    let (k, gap, rest) = lemma_listed_line(layers, table, lines, at);
    assert(0 <= k < lines@.len() && lines@[k]@ == line_about(
        name@,
        shown@,
        config::origin_word(origin),
        gap,
        rest,
    ));
}

/// A setting that could be set and is not has a line that says so.
pub proof fn what_is_not_set_is_listed_as_such(
    layers: &Layers,
    table: Section,
    lines: Vec<String>,
    leaves: Vec<(String, Setting)>,
    names: Vec<String>,
    at: int,
)
    requires
        layers.wf(),
        table.wf(),
        call_ensures(list, (layers, table), lines),
        call_ensures(flatten, (&Setting::Section(table),), leaves),
        call_ensures(optional_settings, (), names),
        0 <= at < names@.len(),
        forall|i: int| 0 <= i < leaves@.len() ==> (#[trigger] leaves@[i]).0@ != names@[at]@,
    ensures
        exists|k: int, gap: int, rest: int|
            0 <= k < lines@.len() && (#[trigger] lines@[k])@ == #[trigger] line_about(
                names@[at]@,
                "(unset)"@,
                config::origin_word(origin_of(*layers, names@[at]@)),
                gap,
                rest,
            ),
{
    let optional = config::optional_names();
    let nodes = value::leaves(Seq::empty(), Setting::Section(table));
    let name = names@[at]@;
    assert(text::views(names@)[at] == name);
    assert(value::pairs(leaves@) == nodes);
    assert forall|i: int| 0 <= i < nodes.len() implies (#[trigger] nodes[i]).0 != name by {
        assert(nodes[i].0 == leaves@[i].0@);
    }
    assert(optional.len() == names@.len());
    assert(optional.take(at + 1)[at] == name);
    let place = lemma_listed_unset(nodes, optional, (at + 1) as nat, name);
    lemma_listed_grows(nodes, optional, (at + 1) as nat, optional.len());
    assert(listed(nodes, optional, optional.len())[place] == (name, "(unset)"@));
    let (k, gap, rest) = lemma_listed_line(layers, table, lines, place);
    assert(0 <= k < lines@.len() && lines@[k]@ == line_about(
        name,
        "(unset)"@,
        config::origin_word(origin_of(*layers, name)),
        gap,
        rest,
    ));
}

proof fn lemma_listed_unset(
    leaves: Seq<(Seq<char>, Node)>,
    optional: Seq<Seq<char>>,
    count: nat,
    name: Seq<char>,
) -> (place: int)
    requires
        0 < count <= optional.len(),
        optional.take(count as int).contains(name),
        forall|i: int| 0 <= i < leaves.len() ==> (#[trigger] leaves[i]).0 != name,
    ensures
        0 <= place < listed(leaves, optional, count).len(),
        listed(leaves, optional, count)[place] == (name, "(unset)"@),
    decreases count,
{
    let before = listed(leaves, optional, (count - 1) as nat);
    let shorter = optional.take(count - 1);
    let whole = optional.take(count as int);
    assert(whole == shorter.push(optional[count - 1]));
    if shorter.contains(name) {
        assert(count > 1);
        let place = lemma_listed_unset(leaves, optional, (count - 1) as nat, name);
        place
    } else {
        let k = choose|k: int| 0 <= k < whole.len() && whole[k] == name;
        if k < count - 1 {
            assert(shorter[k] == name);
        }
        assert(optional[count - 1] == name);
        lemma_not_listed(leaves, optional, (count - 1) as nat, name);
        before.len() as int
    }
}

proof fn lemma_not_listed(
    leaves: Seq<(Seq<char>, Node)>,
    optional: Seq<Seq<char>>,
    count: nat,
    name: Seq<char>,
)
    requires
        count <= optional.len(),
        !optional.take(count as int).contains(name),
        forall|i: int| 0 <= i < leaves.len() ==> (#[trigger] leaves[i]).0 != name,
    ensures
        forall|i: int|
            0 <= i < listed(leaves, optional, count).len() ==> (#[trigger] listed(
                leaves,
                optional,
                count,
            )[i]).0 != name,
    decreases count,
{
    if count > 0 {
        let shorter = optional.take(count - 1);
        let whole = optional.take(count as int);
        assert(whole[count - 1] == optional[count - 1]);
        assert(whole.contains(whole[count - 1]));
        assert(!shorter.contains(name)) by {
            if shorter.contains(name) {
                let k = choose|k: int| 0 <= k < shorter.len() && shorter[k] == name;
                assert(whole[k] == name);
            }
        }
        lemma_not_listed(leaves, optional, (count - 1) as nat, name);
        let before = listed(leaves, optional, (count - 1) as nat);
        let now = listed(leaves, optional, count);
        assert forall|i: int| 0 <= i < now.len() implies (#[trigger] now[i]).0 != name by {
            if i < before.len() {
                assert(now[i] == before[i]);
            } else {
                assert(now[i].0 == optional[count - 1]);
            }
        }
    } else {
        assert forall|i: int|
            0 <= i < listed(leaves, optional, count).len() implies (#[trigger] listed(
            leaves,
            optional,
            count,
        )[i]).0 != name by {
            assert(leaves[i].0 != name);
        }
    }
}

/// A file is written only where the schema accepts it. Where it accepts neither
/// reading of a value, what it said of the first is what is told.
pub proof fn the_first_rejection_is_told(
    first: Trial,
    second: Trial,
    complaint_of_first: String,
    complaint_of_second: Option<String>,
    said: &str,
    words: String,
    after_first: (Judgement, Option<String>),
    after_second: (Judgement, Option<String>),
)
    requires
        call_ensures(
            judge,
            (first, Some(complaint_of_first), None::<String>, Some(second)),
            after_first,
        ),
        call_ensures(
            judge,
            (second, complaint_of_second, after_first.1, None::<Trial>),
            after_second,
        ),
        said@ == complaint_of_first@,
        call_ensures(schema_complaint, (said,), words),
    ensures
        after_first.0 == Judgement::Try(second),
        complaint_of_second is None ==> after_second.0 == Judgement::Write(second),
        complaint_of_second is Some ==> (after_second.0 matches Judgement::Refuse(told) && told@
            == words@),
{
}

/// A dotted name can be a setting's where both its parts can, and one without a
/// full stop where it says anything.
pub proof fn a_name_is_made_of_names(first: Seq<char>, second: Seq<char>)
    ensures
        setting_name(first.push('.') + second) <==> setting_name(first) && setting_name(second),
        !first.contains('.') ==> (setting_name(first) <==> first.len() > 0),
{
    let before = text::pieces(first, '.');
    let after = text::pieces(second, '.');
    let both = before + after;
    text::lemma_pieces_apart(first, '.', second);
    if setting_name(first.push('.') + second) {
        assert forall|i: int| 0 <= i < before.len() implies (#[trigger] before[i]).len() > 0 by {
            assert(both[i] == before[i]);
        }
        assert forall|i: int| 0 <= i < after.len() implies (#[trigger] after[i]).len() > 0 by {
            assert(both[before.len() + i] == after[i]);
        }
    }
    if setting_name(first) && setting_name(second) {
        assert forall|i: int| 0 <= i < both.len() implies (#[trigger] both[i]).len() > 0 by {
            if i < before.len() {
                assert(both[i] == before[i]);
            } else {
                assert(both[i] == after[i - before.len()]);
            }
        }
    }
    if !first.contains('.') {
        text::lemma_only_piece(first, '.');
        assert(before[0] == first);
    }
}

/// Nothing stands in the way of a setting outside the sections, and a name is
/// refused exactly where it cannot be one.
pub proof fn only_a_value_stands_in_the_way(
    source: &str,
    key: &str,
    raw: &str,
    made: Result<Vec<Trial>, SettingError>,
)
    requires
        call_ensures(trials, (source, key, raw), made),
    ensures
        made matches Err(SettingError::NotAName(_)) <==> !setting_name(key@),
        !key@.contains('.') ==> !(made matches Err(SettingError::NotASection { .. })),
{
    if !key@.contains('.') {
        text::lemma_only_piece(key@, '.');
    }
}

} // verus!
