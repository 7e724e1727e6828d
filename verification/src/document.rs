//! Settings files, as the TOML crates read and edit them.
use vstd::prelude::*;
use vstd::string::*;

use crate::text;
use crate::value;
use crate::value::{Node, Section, Setting};

verus! {

/// The table type of the `toml` crate.
#[verifier::external_type_specification]
#[verifier::external_body]
#[verifier::reject_recursive_types(K)]
#[verifier::reject_recursive_types(V)]
pub struct ExTomlMap<K, V>(toml::map::Map<K, V>);

/// The value type of the `toml` crate.
#[verifier::external_type_specification]
#[verifier::external_body]
pub struct ExTomlValue(toml::Value);

/// What a `toml` value says.
pub uninterp spec fn toml_node(value: toml::Value) -> Node;

/// What a `toml` table says, by name.
pub uninterp spec fn toml_map(table: toml::map::Map<String, toml::Value>) -> Map<Seq<char>, Node>;

/// What `toml::from_str` makes of a text: the table it writes down, or the
/// complaint about it.
pub uninterp spec fn toml_read(text: Seq<char>) -> Result<Map<Seq<char>, Node>, Seq<char>>;

/// A `toml` value taken apart.
pub enum Plain {
    Text(String),
    Integer(i64),
    Float(String),
    Boolean(bool),
    Datetime(String),
    Array(Vec<toml::Value>),
    Section(toml::map::Map<String, toml::Value>),
}

/// How TOML spells a text.
pub uninterp spec fn toml_words(text: Seq<char>) -> Seq<char>;

/// Calls `to_string` on a `toml::Value::String`: a text as TOML spells it, in
/// quotes, backslashes and all. The spelling depends on the text alone.
#[verifier::external_body]
pub(crate) fn toml_string(text: &str) -> (words: String)
    ensures
        words@ == toml_words(text@),
{
    toml::Value::String(text.to_string()).to_string()
}

/// A line of a simple settings file.
pub enum Line {
    Blank,
    /// A number sign, and what is behind it.
    Comment(Seq<char>),
    /// The name of a section, in brackets.
    Header(Seq<char>),
    /// A name, how a text is spelled, and the text that is meant.
    Pair(Seq<char>, Seq<char>, Seq<char>),
}

/// How a line is written.
pub open spec fn line_text(line: Line) -> Seq<char> {
    match line {
        Line::Blank => "\n"@,
        Line::Comment(words) => "#"@ + words + "\n"@,
        Line::Header(name) => "["@ + name + "]\n"@,
        Line::Pair(name, words, _) => name + " = "@ + words + "\n"@,
    }
}

/// How lines are written, one below the other.
pub open spec fn written(lines: Seq<Line>) -> Seq<char>
    decreases lines.len(),
{
    if lines.len() == 0 {
        Seq::empty()
    } else {
        written(lines.drop_last()) + line_text(lines.last())
    }
}

/// Whether a text is made of printable ASCII characters.
pub open spec fn printable(text: Seq<char>) -> bool {
    forall|i: int| 0 <= i < text.len() ==> ' ' <= #[trigger] text[i] <= '~'
}

/// Whether a name needs no quotes: it is made of letters, digits, underscores
/// and hyphens.
pub open spec fn bare(name: Seq<char>) -> bool {
    &&& name.len() > 0
    &&& forall|i: int|
        0 <= i < name.len() ==> ('a' <= #[trigger] name[i] <= 'z' || 'A' <= name[i] <= 'Z' || '0'
            <= name[i] <= '9' || name[i] == '_' || name[i] == '-')
}

/// Whether words spell a text: between quotes, where it is printable and holds
/// none and no backslash, or in any case as TOML spells it.
pub open spec fn spells(words: Seq<char>, text: Seq<char>) -> bool {
    ||| words == toml_words(text)
    ||| words == "\""@ + text + "\""@ && printable(text) && !text.contains('"')
        && !text.contains('\\')
}

/// The section that the end of a file is in.
pub open spec fn under(lines: Seq<Line>) -> Option<Seq<char>>
    decreases lines.len(),
{
    if lines.len() == 0 {
        None
    } else {
        match lines.last() {
            Line::Header(name) => Some(name),
            _ => under(lines.drop_last()),
        }
    }
}

/// What the lines of a simple settings file say.
pub open spec fn said(lines: Seq<Line>) -> Map<Seq<char>, Node>
    decreases lines.len(),
{
    if lines.len() == 0 {
        Map::empty()
    } else {
        let before = said(lines.drop_last());
        match (lines.last(), under(lines.drop_last())) {
            (Line::Header(name), _) => before.insert(name, Node::Section(Map::empty())),
            (Line::Pair(name, _, text), Some(section)) => before.insert(
                section,
                Node::Section(before[section]->Section_0.insert(name, Node::Text(text))),
            ),
            _ => before,
        }
    }
}

/// Whether lines make a simple settings file: every setting is in a section,
/// no section and no name in it comes twice, and nothing needs quotes that has
/// none.
pub open spec fn simple(lines: Seq<Line>) -> bool
    decreases lines.len(),
{
    lines.len() > 0 ==> simple(lines.drop_last()) && match lines.last() {
        Line::Blank => true,
        Line::Comment(words) => printable(words),
        Line::Header(name) => bare(name) && !said(lines.drop_last()).contains_key(name),
        Line::Pair(name, words, text) => bare(name) && spells(words, text) && (under(
            lines.drop_last(),
        ) matches Some(section) && !said(
            lines.drop_last(),
        )[section]->Section_0.contains_key(name)),
    }
}

/// Calls `toml::from_str` for a table. What comes of it depends on the text
/// alone, the words of the error among it. A simple settings file reads as
/// what its lines say.
#[verifier::external_body]
fn parse_toml(text: &str) -> (read: Result<toml::map::Map<String, toml::Value>, String>)
    ensures
        match read {
            Ok(table) => toml_read(text@) == Ok::<Map<Seq<char>, Node>, Seq<char>>(
                toml_map(table),
            ),
            Err(words) => toml_read(text@) == Err::<Map<Seq<char>, Node>, Seq<char>>(words@),
        },
        forall|lines: Seq<Line>| #[trigger]
            written(lines) == text@ && simple(lines) ==> read is Ok && toml_map(read->Ok_0) == said(
                lines,
            ),
{
    toml::from_str(text).map_err(|error: toml::de::Error| error.to_string())
}

/// Calls `toml::map::Map::into_iter`, which hands out every name of the table
/// once, with the value that stands under it.
#[verifier::external_body]
fn entries_of(table: toml::map::Map<String, toml::Value>) -> (entries: Vec<(String, toml::Value)>)
    ensures
        forall|i: int, j: int|
            0 <= i < j < entries@.len() ==> (#[trigger] entries@[i]).0@ != (
            #[trigger] entries@[j]).0@,
        forall|i: int|
            0 <= i < entries@.len() ==> toml_map(table).contains_key((#[trigger] entries@[i]).0@)
                && toml_map(table)[entries@[i].0@] == toml_node(entries@[i].1),
        forall|k: Seq<char>| #[trigger]
            toml_map(table).contains_key(k) ==> exists|i: int|
                0 <= i < entries@.len() && (#[trigger] entries@[i]).0@ == k,
{
    table.into_iter().collect()
}

/// Takes a `toml::Value` apart by its variant. A float and a date stay in the
/// words that their `to_string` gives.
#[verifier::external_body]
fn plain(value: toml::Value) -> (plain: Plain)
    ensures
        toml_node(value) == (match plain {
            Plain::Text(words) => Node::Text(words@),
            Plain::Integer(number) => Node::Integer(number as int),
            Plain::Float(words) => Node::Float(words@),
            Plain::Boolean(flag) => Node::Boolean(flag),
            Plain::Datetime(words) => Node::Datetime(words@),
            Plain::Array(items) => Node::Array(
                Seq::new(items@.len(), |i: int| toml_node(items@[i])),
            ),
            Plain::Section(table) => Node::Section(toml_map(table)),
        }),
{
    match value {
        toml::Value::String(words) => Plain::Text(words),
        toml::Value::Integer(number) => Plain::Integer(number),
        toml::Value::Float(number) => Plain::Float(number.to_string()),
        toml::Value::Boolean(flag) => Plain::Boolean(flag),
        toml::Value::Datetime(stamp) => Plain::Datetime(stamp.to_string()),
        toml::Value::Array(items) => Plain::Array(items),
        toml::Value::Table(table) => Plain::Section(table),
    }
}

fn value_of(given: toml::Value) -> (value: Setting)
    ensures
        value.wf(),
        value@ == toml_node(given),
    decreases toml_node(given), 1nat,
{
    let ghost node = toml_node(given);
    match plain(given) {
        Plain::Text(words) => Setting::Text(words),
        Plain::Integer(number) => Setting::Integer(number),
        Plain::Float(words) => Setting::Float(words),
        Plain::Boolean(flag) => Setting::Boolean(flag),
        Plain::Datetime(words) => Setting::Datetime(words),
        Plain::Array(items) => {
            let ghost all = items@;
            let mut left = items;
            let mut values: Vec<Setting> = Vec::new();
            while left.len() > 0
                invariant
                    node == toml_node(given),
                    node == Node::Array(Seq::new(all.len(), |i: int| toml_node(all[i]))),
                    left@.len() + values@.len() == all.len(),
                    left@ == all.skip(values@.len() as int),
                    forall|i: int|
                        0 <= i < values@.len() ==> (#[trigger] values@[i]).wf() && value::node_of(
                            values@[i],
                        ) == toml_node(all[i]),
                decreases left@.len(),
            {
                let item = left.remove(0);
                assert(item == all[values@.len() as int]);
                assert(node->Array_0[values@.len() as int] == toml_node(item));
                assert(decreases_to!(node => node->Array_0[values@.len() as int]));
                values.push(value_of(item));
            }
            proof {
                value::lemma_items(values@, values@.len());
                assert(value::nodes_of(values@, values@.len()) == node->Array_0);
            }
            Setting::Array(values)
        },
        Plain::Section(table) => Setting::Section(table_of(table)),
    }
}

fn table_of(given: toml::map::Map<String, toml::Value>) -> (table: Section)
    ensures
        table.wf(),
        table@ == toml_map(given),
    decreases Node::Section(toml_map(given)), 0nat,
{
    let ghost map = toml_map(given);
    let ghost node = Node::Section(map);
    let mut left = entries_of(given);
    let ghost all = left@;
    let mut table = Section::new();
    while left.len() > 0
        invariant
            node == Node::Section(map),
            map == toml_map(given),
            left@.len() <= all.len(),
            left@ == all.take(left@.len() as int),
            forall|i: int, j: int|
                0 <= i < j < all.len() ==> (#[trigger] all[i]).0@ != (#[trigger] all[j]).0@,
            forall|i: int|
                0 <= i < all.len() ==> map.contains_key((#[trigger] all[i]).0@) && map[all[i].0@]
                    == toml_node(all[i].1),
            table.wf(),
            forall|k: Seq<char>| #[trigger]
                table@.contains_key(k) ==> map.contains_key(k) && table@[k] == map[k],
            forall|i: int|
                left@.len() <= i < all.len() ==> table@.contains_key((#[trigger] all[i]).0@),
        decreases left@.len(),
    {
        let (key, item) = left.pop().unwrap();
        assert((key, item) == all[left@.len() as int]);
        assert(decreases_to!(node => node->Section_0[key@]));
        let ghost before = table@;
        table.insert(key, value_of(item));
    }
    proof {
        value::lemma_one_map(table@, map);
    }
    table
}

/// Reads a settings file: the table it writes down, or what is wrong with it.
/// With a simple one nothing is.
pub fn read_table(text: &str) -> (read: Result<Section, String>)
    ensures
        forall|lines: Seq<Line>| #[trigger]
            written(lines) == text@ && simple(lines) ==> read is Ok && read->Ok_0@ == said(lines),
        match read {
            Ok(table) => table.wf() && toml_read(text@) == Ok::<Map<Seq<char>, Node>, Seq<char>>(
                table@,
            ),
            Err(words) => toml_read(text@) == Err::<Map<Seq<char>, Node>, Seq<char>>(words@),
        },
{
    match parse_toml(text) {
        Ok(table) => Ok(table_of(table)),
        Err(words) => Err(words),
    }
}

/// The document type of the `toml_edit` crate.
#[verifier::external_type_specification]
#[verifier::external_body]
pub struct ExDocument(toml_edit::DocumentMut);

/// The table type of the `toml_edit` crate.
#[verifier::external_type_specification]
#[verifier::external_body]
pub struct ExEditTable(toml_edit::Table);

/// The value type of the `toml_edit` crate.
#[verifier::external_type_specification]
#[verifier::external_body]
pub struct ExEditValue(toml_edit::Value);

/// What stands under a name in a document that can be edited: a section to
/// write into, or something that is only replaced as a whole, by what it says
/// once it is written.
pub enum Entry {
    Section(Map<Seq<char>, Entry>),
    Leaf(Node),
}

/// What an entry says.
pub open spec fn meaning(entry: Entry) -> Node
    decreases entry,
{
    match entry {
        Entry::Section(map) => Node::Section(
            Map::new(
                |k: Seq<char>| map.contains_key(k),
                |k: Seq<char>|
                    if map.contains_key(k) {
                        meaning(map[k])
                    } else {
                        Node::Boolean(false)
                    },
            ),
        ),
        Entry::Leaf(node) => node,
    }
}

/// Whether no section in an entry uses the name that the `toml` crate hands
/// dates around by. A section that starts with it is read as a date.
pub open spec fn plainly_named(entry: Entry) -> bool
    decreases entry,
{
    match entry {
        Entry::Section(map) => forall|k: Seq<char>| #[trigger]
            map.contains_key(k) ==> k != "$__toml_private_datetime"@ && plainly_named(map[k]),
        Entry::Leaf(_) => true,
    }
}

/// A section without the sections in it that hold nothing, or come to hold
/// nothing once theirs are left out.
pub open spec fn kept(node: Node) -> Node
    decreases node,
{
    match node {
        Node::Section(map) => Node::Section(
            Map::new(
                |k: Seq<char>|
                    map.contains_key(k) && !(map[k] is Section && kept(map[k]) == Node::Section(
                        Map::empty(),
                    )),
                |k: Seq<char>|
                    if map.contains_key(k) {
                        kept(map[k])
                    } else {
                        node
                    },
            ),
        ),
        _ => node,
    }
}

/// How an entry is laid out: the comments, blank lines and spaces around it,
/// and what stands between them. Carriage returns, which `toml_edit` never
/// writes between entries, are left out.
pub struct Margin {
    /// What is written before the name of a value, or the header of a section.
    pub above: Seq<char>,
    /// A name and its value, as they are written. A section has none.
    pub line: Option<Seq<char>>,
    /// What is written on the rest of the line.
    pub behind: Seq<char>,
    /// Whether the entry has a line of its own in any case. A value has one
    /// unless dotted names lead to it, or from it to what it holds; a section
    /// has a header unless it is implicit, or made by dotted names.
    pub lined: bool,
}

/// The margins in a table, by the names that lead to what they are around.
/// The table's own is under no name at all.
pub type Margins = Map<Seq<Seq<char>>, Margin>;

/// The margin at the end of a path, where there is one.
pub open spec fn margin_at(margins: Margins, path: Seq<Seq<char>>) -> Option<Margin> {
    if margins.contains_key(path) {
        Some(margins[path])
    } else {
        None
    }
}

/// Whether a text is a name or more between brackets.
pub open spec fn in_brackets(header: Seq<char>) -> bool {
    header.len() > 1 && header[0] == '[' && header.last() == ']'
}

/// Whether an entry stands in a text, with what is around it.
pub open spec fn stands_in(text: Seq<char>, margin: Margin) -> bool {
    match margin.line {
        Some(line) => text::occurs(text, margin.above + line + margin.behind + "\n"@),
        None => exists|header: Seq<char>| #[trigger]
            in_brackets(header) && text::occurs(
                text,
                margin.above + header + margin.behind + "\n"@,
            ),
    }
}

/// Whether every entry that has a line of its own stands in a text, with what
/// is around it.
pub open spec fn laid_out(text: Seq<char>, margins: Margins) -> bool {
    forall|path: Seq<Seq<char>>| #[trigger]
        margins.contains_key(path) && path.len() > 0 && margins[path].lined ==> stands_in(
            text,
            margins[path],
        )
}

/// Whether a path leads through a name.
pub open spec fn through(path: Seq<Seq<char>>, name: Seq<char>) -> bool {
    path.len() > 0 && path[0] == name
}

/// The margins in the section of a name.
pub open spec fn margins_below(margins: Margins, name: Seq<char>) -> Margins {
    Map::new(
        |path: Seq<Seq<char>>| margins.contains_key(seq![name] + path),
        |path: Seq<Seq<char>>| margins[seq![name] + path],
    )
}

/// The margins in a table whose section of a name has these.
pub open spec fn margins_with(margins: Margins, name: Seq<char>, inner: Margins) -> Margins {
    Map::new(
        |path: Seq<Seq<char>>|
            if through(path, name) {
                inner.contains_key(path.drop_first())
            } else {
                margins.contains_key(path)
            },
        |path: Seq<Seq<char>>|
            if through(path, name) {
                inner[path.drop_first()]
            } else {
                margins[path]
            },
    )
}

/// The margins in a table without those of a name and what is below it.
pub open spec fn margins_without(margins: Margins, name: Seq<char>) -> Margins {
    margins.remove_keys(Set::new(|path: Seq<Seq<char>>| through(path, name)))
}

/// The margins in a section that was just made.
pub open spec fn new_section(implicit: bool) -> Margins {
    Map::empty().insert(
        Seq::empty(),
        Margin { above: Seq::empty(), line: None, behind: Seq::empty(), lined: !implicit },
    )
}

/// What an editable document holds: its entries by name, the margins around
/// them, and what is written behind the last of them.
pub struct Page {
    pub entries: Map<Seq<char>, Entry>,
    pub margins: Margins,
    pub tail: Seq<char>,
}

/// What an editable document holds.
pub uninterp spec fn document_page(document: toml_edit::DocumentMut) -> Page;

/// What a table of an editable document holds, by name.
pub uninterp spec fn table_entries(table: toml_edit::Table) -> Map<Seq<char>, Entry>;

/// What is written around a table of an editable document and what is in it.
pub uninterp spec fn table_margins(table: toml_edit::Table) -> Margins;

/// What a value of an editable document says.
pub uninterp spec fn edit_node(value: toml_edit::Value) -> Node;

/// What is written behind a value of an editable document on its line.
pub uninterp spec fn edit_behind(value: toml_edit::Value) -> Seq<char>;

/// Whether a value of an editable document is written in one piece, rather
/// than as dotted names.
pub uninterp spec fn edit_whole(value: toml_edit::Value) -> bool;

/// How a value of an editable document is written.
pub uninterp spec fn edit_words(value: toml_edit::Value) -> Seq<char>;

/// How an editable document is written.
pub uninterp spec fn document_words(document: toml_edit::DocumentMut) -> Seq<char>;

/// What parsing a text as a `toml_edit::DocumentMut` gives: what the document
/// holds, or the complaint about it.
pub uninterp spec fn document_read(text: Seq<char>) -> Result<Page, Seq<char>>;

/// What parsing a text as a single `toml_edit::Value` gives, if it is one:
/// what it says, and how it is written with a space in front.
pub uninterp spec fn value_read(text: Seq<char>) -> Option<(Node, Seq<char>)>;

/// How `toml_edit::Value::from` writes a text, with a space in front.
pub uninterp spec fn text_words(text: Seq<char>) -> Seq<char>;

/// Leaving out sections that hold nothing moves no value.
pub proof fn lemma_kept(node: Node, path: Seq<Seq<char>>)
    ensures
        value::at_path(node, path) matches Some(found) ==> kept(found) == Node::Section(
            Map::empty(),
        ) || value::at_path(kept(node), path) == Some(kept(found)),
        value::at_path(kept(node), path) matches Some(left) ==> (value::at_path(
            node,
            path,
        ) matches Some(found) && kept(found) == left),
    decreases path.len(),
{
    if path.len() > 0 && node is Section && node->Section_0.contains_key(path[0]) {
        lemma_kept(node->Section_0[path[0]], path.drop_first());
        assert(kept(node) is Section);
    }
}

/// Two sections that are the same but for those in them that hold nothing
/// have the same values.
pub proof fn lemma_kept_alike(node: Node, other: Node, path: Seq<Seq<char>>, leaf: Node)
    requires
        kept(node) == kept(other),
        leaf !is Section,
    ensures
        value::at_path(node, path) == Some(leaf) <==> value::at_path(other, path) == Some(leaf),
{
    lemma_kept(node, path);
    lemma_kept(other, path);
}

/// Whether a text reads as these entries, where `toml::from_str` reads it at
/// all.
pub open spec fn reads_as(text: Seq<char>, entries: Map<Seq<char>, Entry>) -> bool {
    plainly_named(Entry::Section(entries)) ==> (toml_read(text) matches Ok(map) ==> Node::Section(
        map,
    ) == meaning(Entry::Section(entries)))
}

/// Whether a text reads as these entries, but for sections that hold nothing,
/// where `toml::from_str` reads it at all.
pub open spec fn reads_nearly_as(text: Seq<char>, entries: Map<Seq<char>, Entry>) -> bool {
    plainly_named(Entry::Section(entries)) ==> (toml_read(text) matches Ok(map) ==> kept(
        Node::Section(map),
    ) == kept(meaning(Entry::Section(entries))))
}

/// Whether a text ends in another.
pub open spec fn ends_in(text: Seq<char>, tail: Seq<char>) -> bool {
    tail.len() <= text.len() && text.skip(text.len() - tail.len()) == tail
}

/// Calls `str::parse` for a `toml_edit::DocumentMut`. What comes of it
/// depends on the text alone, and where `toml::from_str` reads the text too,
/// the document says the same, unless it uses the name that is kept for
/// dates.
#[verifier::external_body]
pub(crate) fn parse_document(text: &str) -> (read: Result<toml_edit::DocumentMut, String>)
    ensures
        match read {
            Ok(document) => document_read(text@) == Ok::<Page, Seq<char>>(document_page(document))
                && reads_as(text@, document_page(document).entries),
            Err(words) => document_read(text@) == Err::<Page, Seq<char>>(words@),
        },
{
    text.parse().map_err(|error: toml_edit::TomlError| error.to_string())
}

/// Calls `to_string` on a `toml_edit::DocumentMut`. Where `toml::from_str`
/// reads the text that comes out, it reads what the document holds, unless
/// that uses the name that is kept for dates. A section that holds nothing
/// may be missing from the text: one that is implicit, or made by dotted
/// names, has no header. An entry that has a line of its own stands in the
/// text as it is laid out, and the text ends in the document's tail. In which
/// order the entries stand is not stated.
#[verifier::external_body]
pub(crate) fn document_text(document: &toml_edit::DocumentMut) -> (text: String)
    ensures
        text@ == document_words(*document),
        reads_nearly_as(text@, document_page(*document).entries),
        laid_out(text@, document_page(*document).margins),
        ends_in(text@, document_page(*document).tail),
{
    document.to_string()
}

/// Calls `toml_edit::DocumentMut::as_table_mut`: the table that a document is.
/// What stands behind the last entry is no part of it.
#[verifier::external_body]
pub(crate) fn root_table(document: &mut toml_edit::DocumentMut) -> (table: &mut toml_edit::Table)
    ensures
        table_entries(*table) == document_page(*old(document)).entries,
        table_margins(*table) == document_page(*old(document)).margins,
        document_page(*final(document)).entries == table_entries(*final(table)),
        document_page(*final(document)).margins == table_margins(*final(table)),
        document_page(*final(document)).tail == document_page(*old(document)).tail,
{
    document.as_table_mut()
}

/// Whether a name stands for a section.
pub open spec fn has_section(entries: Map<Seq<char>, Entry>, name: Seq<char>) -> bool {
    entries.contains_key(name) && entries[name] is Section
}

/// Calls `toml_edit::Table::get_mut` and `toml_edit::Item::as_table_mut`: the
/// section of a name, if it stands for one.
#[verifier::external_body]
pub(crate) fn section_of<'a>(table: &'a mut toml_edit::Table, name: &str) -> (found: Option<
    &'a mut toml_edit::Table,
>)
    ensures
        found is Some == has_section(table_entries(*old(table)), name@),
        match found {
            Some(section) => Entry::Section(table_entries(*section)) == table_entries(
                *old(table),
            )[name@] && table_entries(*final(table)) == table_entries(*old(table)).insert(
                name@,
                Entry::Section(table_entries(*final(section))),
            ),
            None => table_entries(*final(table)) == table_entries(*old(table)),
        },
        match found {
            Some(section) => table_margins(*section) == margins_below(
                table_margins(*old(table)),
                name@,
            ) && table_margins(*final(table)) == margins_with(
                table_margins(*old(table)),
                name@,
                table_margins(*final(section)),
            ),
            None => table_margins(*final(table)) == table_margins(*old(table)),
        },
{
    table.get_mut(name).and_then(toml_edit::Item::as_table_mut)
}

/// Calls `toml_edit::Table::entry`, `Entry::or_insert` and
/// `toml_edit::Item::as_table_mut`: the section of a name, which is made where
/// nothing stands under it. One that is made implicit has a header only where
/// it holds values.
#[verifier::external_body]
pub(crate) fn section_or_new<'a>(
    table: &'a mut toml_edit::Table,
    name: &str,
    implicit: bool,
) -> (found: Option<&'a mut toml_edit::Table>)
    ensures
        found is Some == (has_section(table_entries(*old(table)), name@) || !table_entries(
            *old(table),
        ).contains_key(name@)),
        match found {
            Some(section) => Entry::Section(table_entries(*section)) == (if table_entries(
                *old(table),
            ).contains_key(name@) {
                table_entries(*old(table))[name@]
            } else {
                Entry::Section(Map::empty())
            }) && table_entries(*final(table)) == table_entries(*old(table)).insert(
                name@,
                Entry::Section(table_entries(*final(section))),
            ),
            None => table_entries(*final(table)) == table_entries(*old(table)),
        },
        match found {
            Some(section) => table_margins(*section) == (if table_entries(
                *old(table),
            ).contains_key(name@) {
                margins_below(table_margins(*old(table)), name@)
            } else {
                new_section(implicit)
            }) && table_margins(*final(table)) == margins_with(
                table_margins(*old(table)),
                name@,
                table_margins(*final(section)),
            ),
            None => table_margins(*final(table)) == table_margins(*old(table)),
        },
{
    let mut created = toml_edit::Table::new();
    created.set_implicit(implicit);
    table.entry(name).or_insert(toml_edit::Item::Table(created)).as_table_mut()
}

/// Whether a name stands for a value on a line of its own: a leaf with a
/// margin. Tables in an array have none as a whole.
pub open spec fn has_value(table: toml_edit::Table, name: Seq<char>) -> bool {
    &&& table_entries(table).contains_key(name)
    &&& table_entries(table)[name] is Leaf
    &&& table_margins(table).contains_key(seq![name])
}

/// Calls `toml_edit::Table::get_mut` and `toml_edit::Item::as_value_mut`: the
/// value of a name, if it stands for one. What is above it is not part of the
/// value, what is behind it is.
#[verifier::external_body]
pub(crate) fn value_at<'a>(table: &'a mut toml_edit::Table, name: &str) -> (found: Option<
    &'a mut toml_edit::Value,
>)
    ensures
        found is Some == has_value(*old(table), name@),
        match found {
            Some(value) => edit_behind(*value) == table_margins(*old(table))[seq![name@]].behind
                && table_entries(*final(table)) == table_entries(*old(table)).insert(
                name@,
                Entry::Leaf(edit_node(*final(value))),
            ) && has_value(*final(table), name@) && margins_without(
                table_margins(*final(table)),
                name@,
            ) == margins_without(table_margins(*old(table)), name@) && table_margins(
                *final(table),
            )[seq![name@]].above == table_margins(*old(table))[seq![name@]].above && table_margins(
                *final(table),
            )[seq![name@]].behind == edit_behind(*final(value)) && (table_margins(
                *old(table),
            )[seq![name@]].lined && edit_whole(*final(value)) ==> table_margins(
                *final(table),
            )[seq![name@]].lined),
            None => table_entries(*final(table)) == table_entries(*old(table)) && table_margins(
                *final(table),
            ) == table_margins(*old(table)),
        },
{
    table.get_mut(name).and_then(toml_edit::Item::as_value_mut)
}

/// Calls `toml_edit::Value::decor` and `decor_mut`: puts a value in place of
/// another, within the spaces and the comment around that one.
#[verifier::external_body]
pub(crate) fn replace_value(place: &mut toml_edit::Value, mut value: toml_edit::Value)
    ensures
        edit_node(*final(place)) == edit_node(value),
        edit_behind(*final(place)) == edit_behind(*old(place)),
        edit_whole(*final(place)) == edit_whole(value),
{
    *value.decor_mut() = place.decor().clone();
    *place = value;
}

/// Calls `toml_edit::Table::insert`, which puts a value under a name in place
/// of what was there, and leaves every other name alone. What was around the
/// old entry goes with it.
#[verifier::external_body]
pub(crate) fn put_value(table: &mut toml_edit::Table, name: &str, value: toml_edit::Value)
    ensures
        table_entries(*final(table)) == table_entries(*old(table)).insert(
            name@,
            Entry::Leaf(edit_node(value)),
        ),
        margins_without(table_margins(*final(table)), name@) == margins_without(
            table_margins(*old(table)),
            name@,
        ),
{
    table.insert(name, toml_edit::value(value));
}

/// Calls `toml_edit::Table::remove`, which takes out what stands under a name,
/// with what is around it, and says whether anything did.
#[verifier::external_body]
pub(crate) fn take_out(table: &mut toml_edit::Table, name: &str) -> (was: bool)
    ensures
        was == table_entries(*old(table)).contains_key(name@),
        table_entries(*final(table)) == table_entries(*old(table)).remove(name@),
        table_margins(*final(table)) == margins_without(table_margins(*old(table)), name@),
{
    table.remove(name).is_some()
}

/// Calls `toml_edit::Table::iter` for the names in a table, each of them once.
#[verifier::external_body]
pub(crate) fn names_in(table: &toml_edit::Table) -> (names: Vec<String>)
    ensures
        forall|i: int, j: int|
            0 <= i < j < names@.len() ==> (#[trigger] names@[i])@ != (#[trigger] names@[j])@,
        forall|i: int|
            0 <= i < names@.len() ==> table_entries(*table).contains_key((#[trigger] names@[i])@),
        forall|k: Seq<char>| #[trigger]
            table_entries(*table).contains_key(k) ==> exists|i: int|
                0 <= i < names@.len() && (#[trigger] names@[i])@ == k,
{
    table.iter().map(|(name, _)| name.to_string()).collect()
}

/// Calls `toml_edit::Table::is_empty`.
#[verifier::external_body]
pub(crate) fn holds_nothing(table: &toml_edit::Table) -> (empty: bool)
    ensures
        empty == (table_entries(*table) == Map::<Seq<char>, Entry>::empty()),
{
    table.is_empty()
}

/// Calls `str::parse` for a `toml_edit::Value`, and `decorated` on it for one
/// space in front and nothing behind.
#[verifier::external_body]
pub(crate) fn parse_value(text: &str) -> (value: Option<toml_edit::Value>)
    ensures
        match value {
            Some(value) => value_read(text@) == Some((edit_node(value), edit_words(value)))
                && edit_whole(value),
            None => value_read(text@) is None,
        },
{
    let value: Option<toml_edit::Value> = text.parse().ok();
    value.map(|value| value.decorated(" ", ""))
}

/// Calls `toml_edit::Value::from` for a text, and `decorated` on it for one
/// space in front and nothing behind.
#[verifier::external_body]
pub(crate) fn text_value(text: &str) -> (value: toml_edit::Value)
    ensures
        edit_node(value) == Node::Text(text@),
        edit_words(value) == text_words(text@),
        edit_whole(value),
{
    toml_edit::Value::from(text).decorated(" ", "")
}

/// Calls `to_string` on a `toml_edit::Value`.
#[verifier::external_body]
pub(crate) fn value_text(value: &toml_edit::Value) -> (text: String)
    ensures
        text@ == edit_words(*value),
{
    value.to_string()
}

} // verus!
