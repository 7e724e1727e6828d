//! Settings as they stand in a file: tables of named values.
use vstd::prelude::*;
use vstd::string::*;

use crate::text;
use crate::text::{chars_of, comes_before, same, split};

verus! {

/// What a settings file says, whatever it is written down in.
pub enum Node {
    Text(Seq<char>),
    Integer(int),
    /// A number with a fraction, as it is written.
    Float(Seq<char>),
    Boolean(bool),
    /// A date or a time, as it is written.
    Datetime(Seq<char>),
    Array(Seq<Node>),
    Section(Map<Seq<char>, Node>),
}

/// One value of a settings file.
pub enum Setting {
    Text(String),
    Integer(i64),
    Float(String),
    Boolean(bool),
    Datetime(String),
    Array(Vec<Setting>),
    Section(Section),
}

/// The values of a section by name, in the order of their names.
pub struct Section {
    pub entries: Vec<(String, Setting)>,
}

pub open spec fn node_of(value: Setting) -> Node
    decreases value,
{
    match value {
        Setting::Text(words) => Node::Text(words@),
        Setting::Integer(number) => Node::Integer(number as int),
        Setting::Float(words) => Node::Float(words@),
        Setting::Boolean(flag) => Node::Boolean(flag),
        Setting::Datetime(words) => Node::Datetime(words@),
        Setting::Array(items) => Node::Array(nodes_of(items@, items@.len())),
        Setting::Section(table) => Node::Section(map_of(table.entries@, table.entries@.len())),
    }
}

pub open spec fn nodes_of(items: Seq<Setting>, count: nat) -> Seq<Node>
    decreases items, count,
{
    if count == 0 || count > items.len() {
        Seq::empty()
    } else {
        nodes_of(items, (count - 1) as nat).push(node_of(items[count - 1]))
    }
}

pub open spec fn map_of(entries: Seq<(String, Setting)>, count: nat) -> Map<Seq<char>, Node>
    decreases entries, count,
{
    if count == 0 || count > entries.len() {
        Map::empty()
    } else {
        map_of(entries, (count - 1) as nat).insert(
            entries[count - 1].0@,
            node_of(entries[count - 1].1),
        )
    }
}

impl View for Section {
    type V = Map<Seq<char>, Node>;

    open spec fn view(&self) -> Map<Seq<char>, Node> {
        map_of(self.entries@, self.entries@.len())
    }
}

impl View for Setting {
    type V = Node;

    open spec fn view(&self) -> Node {
        node_of(*self)
    }
}

/// Whether the names of a section are in order, each of them once, and so are
/// those of the sections inside it.
pub open spec fn in_order(entries: Seq<(String, Setting)>) -> bool {
    forall|i: int, j: int|
        0 <= i < j < entries.len() ==> text::precedes(
            (#[trigger] entries[i]).0@,
            (#[trigger] entries[j]).0@,
        )
}

impl Setting {
    pub open spec fn wf(&self) -> bool
        decreases self,
    {
        match self {
            Setting::Array(items) => forall|i: int|
                0 <= i < items@.len() ==> (#[trigger] items@[i]).wf(),
            Setting::Section(table) => table.wf(),
            _ => true,
        }
    }
}

impl Section {
    pub open spec fn wf(&self) -> bool
        decreases self,
    {
        &&& in_order(self.entries@)
        &&& forall|i: int|
            0 <= i < self.entries@.len() ==> (#[trigger] self.entries@[i]).1.wf()
    }
}

/// Where a name stands, and what is there.
pub proof fn lemma_entry(entries: Seq<(String, Setting)>, count: nat, at: int)
    requires
        in_order(entries),
        0 <= at < count <= entries.len(),
    ensures
        map_of(entries, count).contains_key(entries[at].0@),
        map_of(entries, count)[entries[at].0@] == node_of(entries[at].1),
    decreases count,
{
    if at < count - 1 {
        lemma_entry(entries, (count - 1) as nat, at);
        text::lemma_precedes_irreflexive(entries[at].0@);
    }
}

/// A name that is there stands somewhere.
pub proof fn lemma_named(entries: Seq<(String, Setting)>, count: nat, key: Seq<char>)
    requires
        count <= entries.len(),
        map_of(entries, count).contains_key(key),
    ensures
        exists|i: int| 0 <= i < count && (#[trigger] entries[i]).0@ == key,
    decreases count,
{
    if entries[count - 1].0@ != key {
        lemma_named(entries, (count - 1) as nat, key);
    }
}

/// Two maps with the same names, and the same under each of them, are one.
pub proof fn lemma_one_map(left: Map<Seq<char>, Node>, right: Map<Seq<char>, Node>)
    requires
        forall|k: Seq<char>| #[trigger]
            left.contains_key(k) ==> right.contains_key(k) && left[k] == right[k],
        forall|k: Seq<char>| #[trigger] right.contains_key(k) ==> left.contains_key(k),
    ensures
        left == right,
{
    assert forall|k: Seq<char>| left.dom().contains(k) == right.dom().contains(k) by {
        assert(left.contains_key(k) == right.contains_key(k));
    }
    assert(left.dom() =~= right.dom());
    assert forall|k: Seq<char>| left.dom().contains(k) implies left[k] == right[k] by {
        assert(left.contains_key(k));
    }
    assert(left =~= right);
}

/// Taking out an entry takes out its name.
proof fn lemma_removed(entries: Seq<(String, Setting)>, at: int)
    requires
        in_order(entries),
        0 <= at < entries.len(),
    ensures
        in_order(entries.remove(at)),
        map_of(entries.remove(at), (entries.len() - 1) as nat) == map_of(
            entries,
            entries.len(),
        ).remove(entries[at].0@),
{
    let after = entries.remove(at);
    let key = entries[at].0@;
    let left = map_of(after, after.len());
    let right = map_of(entries, entries.len()).remove(key);
    assert forall|k: Seq<char>| #[trigger] left.contains_key(k) implies right.contains_key(k)
        && left[k] == right[k] by {
        lemma_named(after, after.len(), k);
        let i = choose|i: int| 0 <= i < after.len() && (#[trigger] after[i]).0@ == k;
        lemma_entry(after, after.len(), i);
        let j = if i < at {
            i
        } else {
            i + 1
        };
        assert(after[i] == entries[j]);
        lemma_entry(entries, entries.len(), j);
        text::lemma_precedes_irreflexive(key);
    }
    assert forall|k: Seq<char>| #[trigger] right.contains_key(k) implies left.contains_key(k) by {
        lemma_named(entries, entries.len(), k);
        let j = choose|j: int| 0 <= j < entries.len() && (#[trigger] entries[j]).0@ == k;
        let i = if j < at {
            j
        } else {
            j - 1
        };
        assert(after[i] == entries[j]);
        lemma_entry(after, after.len(), i);
    }
    lemma_one_map(left, right);
}

/// Putting an entry in its place puts its value under its name.
proof fn lemma_inserted(entries: Seq<(String, Setting)>, at: int, entry: (String, Setting))
    requires
        in_order(entries),
        0 <= at <= entries.len(),
        forall|i: int| 0 <= i < at ==> text::precedes((#[trigger] entries[i]).0@, entry.0@),
        forall|i: int|
            at <= i < entries.len() ==> text::precedes(entry.0@, (#[trigger] entries[i]).0@),
    ensures
        in_order(entries.insert(at, entry)),
        map_of(entries.insert(at, entry), entries.len() + 1) == map_of(
            entries,
            entries.len(),
        ).insert(entry.0@, node_of(entry.1)),
{
    let after = entries.insert(at, entry);
    let left = map_of(after, after.len());
    let right = map_of(entries, entries.len()).insert(entry.0@, node_of(entry.1));
    assert forall|k: Seq<char>| #[trigger] left.contains_key(k) implies right.contains_key(k)
        && left[k] == right[k] by {
        lemma_named(after, after.len(), k);
        let i = choose|i: int| 0 <= i < after.len() && (#[trigger] after[i]).0@ == k;
        lemma_entry(after, after.len(), i);
        if i != at {
            let j = if i < at {
                i
            } else {
                i - 1
            };
            assert(after[i] == entries[j]);
            lemma_entry(entries, entries.len(), j);
            text::lemma_precedes_irreflexive(k);
        }
    }
    assert forall|k: Seq<char>| #[trigger] right.contains_key(k) implies left.contains_key(k) by {
        if k == entry.0@ {
            assert(after[at] == entry);
            lemma_entry(after, after.len(), at);
        } else {
            lemma_named(entries, entries.len(), k);
            let j = choose|j: int| 0 <= j < entries.len() && (#[trigger] entries[j]).0@ == k;
            let i = if j < at {
                j
            } else {
                j + 1
            };
            assert(after[i] == entries[j]);
            lemma_entry(after, after.len(), i);
        }
    }
    lemma_one_map(left, right);
}

/// A map only depends on the entries that it is made of.
pub proof fn lemma_same_map(
    left: Seq<(String, Setting)>,
    right: Seq<(String, Setting)>,
    count: nat,
)
    requires
        count <= left.len(),
        count <= right.len(),
        forall|i: int|
            0 <= i < count ==> (#[trigger] left[i]).0@ == right[i].0@ && node_of(left[i].1)
                == node_of(right[i].1),
    ensures
        map_of(left, count) == map_of(right, count),
    decreases count,
{
    if count > 0 {
        lemma_same_map(left, right, (count - 1) as nat);
    }
}

impl Section {
    /// A table with nothing in it.
    pub fn new() -> (table: Section)
        ensures
            table.wf(),
            table@ == Map::<Seq<char>, Node>::empty(),
    {
        Section { entries: Vec::new() }
    }

    /// Whether a table has nothing in it.
    pub fn is_empty(&self) -> (empty: bool)
        requires
            self.wf(),
        ensures
            empty == (self@ == Map::<Seq<char>, Node>::empty()),
    {
        proof {
            if self.entries@.len() > 0 {
                lemma_entry(self.entries@, self.entries@.len(), 0);
            }
        }
        self.entries.len() == 0
    }

    /// Where a name stands, or where it would have to.
    fn position(&self, key: &str) -> (found: (bool, usize))
        requires
            self.wf(),
        ensures
            found.0 == self@.contains_key(key@),
            found.0 ==> found.1 < self.entries@.len() && self.entries@[found.1 as int].0@ == key@,
            found.1 <= self.entries@.len(),
            forall|i: int|
                0 <= i < found.1 ==> text::precedes((#[trigger] self.entries@[i]).0@, key@),
            !found.0 ==> forall|i: int|
                found.1 <= i < self.entries@.len() ==> text::precedes(
                    key@,
                    (#[trigger] self.entries@[i]).0@,
                ),
    {
        for at in 0..self.entries.len()
            invariant
                self.wf(),
                forall|i: int|
                    0 <= i < at ==> text::precedes((#[trigger] self.entries@[i]).0@, key@),
        {
            if same(self.entries[at].0.as_str(), key) {
                proof {
                    lemma_entry(self.entries@, self.entries@.len(), at as int);
                }
                return (true, at);
            }
            if comes_before(key, self.entries[at].0.as_str()) {
                proof {
                    assert forall|i: int| at <= i < self.entries@.len() implies text::precedes(
                        key@,
                        (#[trigger] self.entries@[i]).0@,
                    ) by {
                        if i > at {
                            text::lemma_precedes_transitive(
                                key@,
                                self.entries@[at as int].0@,
                                self.entries@[i].0@,
                            );
                        }
                    }
                    self.lemma_absent(key@, at as int);
                }
                return (false, at);
            }
            proof {
                text::lemma_precedes_total(key@, self.entries@[at as int].0@);
            }
        }
        proof {
            self.lemma_absent(key@, self.entries@.len() as int);
        }
        (false, self.entries.len())
    }

    proof fn lemma_absent(&self, key: Seq<char>, at: int)
        requires
            0 <= at <= self.entries@.len(),
            forall|i: int| 0 <= i < at ==> text::precedes((#[trigger] self.entries@[i]).0@, key),
            forall|i: int|
                at <= i < self.entries@.len() ==> text::precedes(
                    key,
                    (#[trigger] self.entries@[i]).0@,
                ),
        ensures
            !self@.contains_key(key),
    {
        if self@.contains_key(key) {
            lemma_named(self.entries@, self.entries@.len(), key);
            text::lemma_precedes_irreflexive(key);
        }
    }

    /// What stands under a name.
    pub fn get(&self, key: &str) -> (found: Option<&Setting>)
        requires
            self.wf(),
        ensures
            found is Some == self@.contains_key(key@),
            found matches Some(value) ==> value@ == self@[key@] && value.wf(),
    {
        let (there, at) = self.position(key);
        if there {
            proof {
                lemma_entry(self.entries@, self.entries@.len(), at as int);
            }
            Some(&self.entries[at].1)
        } else {
            None
        }
    }

    /// Takes out what stands under a name.
    pub fn remove(&mut self, key: &str) -> (removed: Option<Setting>)
        requires
            old(self).wf(),
        ensures
            final(self).wf(),
            final(self)@ == old(self)@.remove(key@),
            removed is Some == old(self)@.contains_key(key@),
            removed matches Some(value) ==> value@ == old(self)@[key@] && value.wf(),
    {
        let (there, at) = self.position(key);
        if !there {
            assert(self@ == self@.remove(key@));
            return None;
        }
        let ghost before = *self;
        let (_, value) = self.entries.remove(at);
        proof {
            lemma_entry(before.entries@, before.entries@.len(), at as int);
            lemma_removed(before.entries@, at as int);
        }
        Some(value)
    }

    /// Puts a value under a name, in place of what was there.
    pub fn insert(&mut self, key: String, value: Setting)
        requires
            old(self).wf(),
            value.wf(),
        ensures
            final(self).wf(),
            final(self)@ == old(self)@.insert(key@, value@),
    {
        let ghost before = *self;
        let _ = self.remove(key.as_str());
        let ghost without = *self;
        let (_, at) = self.position(key.as_str());
        let ghost name = key@;
        let ghost entry = (key, value);
        self.entries.insert(at, (key, value));
        proof {
            assert(self.entries@ == without.entries@.insert(at as int, entry));
            lemma_inserted(without.entries@, at as int, entry);
            assert(without@.insert(name, entry.1@) == before@.insert(name, entry.1@));
        }
    }
}

/// A list only depends on the items that it is made of.
pub proof fn lemma_items(items: Seq<Setting>, count: nat)
    requires
        count <= items.len(),
    ensures
        nodes_of(items, count).len() == count,
        forall|i: int| 0 <= i < count ==> #[trigger] nodes_of(items, count)[i] == node_of(items[i]),
    decreases count,
{
    if count > 0 {
        lemma_items(items, (count - 1) as nat);
    }
}

impl Setting {
    /// The same value again.
    pub fn copied(&self) -> (copy: Setting)
        requires
            self.wf(),
        ensures
            copy.wf(),
            copy@ == self@,
        decreases self,
    {
        match self {
            Setting::Text(words) => Setting::Text(words.clone()),
            Setting::Integer(number) => Setting::Integer(*number),
            Setting::Float(words) => Setting::Float(words.clone()),
            Setting::Boolean(flag) => Setting::Boolean(*flag),
            Setting::Datetime(words) => Setting::Datetime(words.clone()),
            Setting::Array(items) => Setting::Array(copied_items(items)),
            Setting::Section(table) => Setting::Section(table.copied()),
        }
    }
}

fn copied_items(items: &Vec<Setting>) -> (copies: Vec<Setting>)
    requires
        forall|i: int| 0 <= i < items@.len() ==> (#[trigger] items@[i]).wf(),
    ensures
        forall|i: int| 0 <= i < copies@.len() ==> (#[trigger] copies@[i]).wf(),
        nodes_of(copies@, copies@.len()) == nodes_of(items@, items@.len()),
    decreases items,
{
    let mut copies: Vec<Setting> = Vec::new();
    for i in 0..items.len()
        invariant
            forall|i: int| 0 <= i < items@.len() ==> (#[trigger] items@[i]).wf(),
            copies@.len() == i,
            forall|j: int|
                0 <= j < i ==> (#[trigger] copies@[j]).wf() && node_of(copies@[j]) == node_of(
                    items@[j],
                ),
    {
        assert(decreases_to!(items => items@[i as int]));
        copies.push(items[i].copied());
    }
    proof {
        lemma_items(items@, items@.len());
        lemma_items(copies@, copies@.len());
        assert(nodes_of(copies@, copies@.len()) == nodes_of(items@, items@.len()));
    }
    copies
}

impl Section {
    /// The same table again.
    pub fn copied(&self) -> (copy: Section)
        requires
            self.wf(),
        ensures
            copy.wf(),
            copy@ == self@,
        decreases self,
    {
        let mut copies: Vec<(String, Setting)> = Vec::new();
        for i in 0..self.entries.len()
            invariant
                self.wf(),
                copies@.len() == i,
                forall|j: int|
                    0 <= j < i ==> (#[trigger] copies@[j]).1.wf() && copies@[j].0@
                        == self.entries@[j].0@ && node_of(copies@[j].1) == node_of(
                        self.entries@[j].1,
                    ),
        {
            assert(decreases_to!(self => self.entries@[i as int].1));
            let value = self.entries[i].1.copied();
            copies.push((self.entries[i].0.clone(), value));
        }
        proof {
            lemma_same_map(copies@, self.entries@, copies@.len());
        }
        Section { entries: copies }
    }
}

/// One value over another: tables are combined name by name, anything else
/// gives way to what lies over it.
pub open spec fn laid_over(base: Node, overlay: Node) -> Node
    decreases overlay,
{
    match (base, overlay) {
        (Node::Section(below), Node::Section(above)) => Node::Section(
            Map::new(
                |k: Seq<char>| below.contains_key(k) || above.contains_key(k),
                |k: Seq<char>|
                    if !above.contains_key(k) {
                        below[k]
                    } else if !below.contains_key(k) {
                        above[k]
                    } else {
                        laid_over(below[k], above[k])
                    },
            ),
        ),
        _ => overlay,
    }
}

/// Lays one table over another.
pub fn merge_tables(base: Section, overlay: Section) -> (merged: Section)
    requires
        base.wf(),
        overlay.wf(),
    ensures
        merged.wf(),
        Node::Section(merged@) == laid_over(Node::Section(base@), Node::Section(overlay@)),
    decreases overlay,
{
    let ghost below = base@;
    let ghost above = overlay@;
    let ghost whole = laid_over(Node::Section(below), Node::Section(above))->Section_0;
    let ghost all = overlay.entries@;
    let ghost over = overlay;
    let mut merged = base;
    let mut left = overlay.entries;
    proof {
        lemma_one_map(merged@, below);
    }
    while left.len() > 0
        invariant
            over.wf(),
            all == over.entries@,
            above == over@,
            overlay == over,
            whole == laid_over(Node::Section(below), Node::Section(above))->Section_0,
            left@ == all.take(left@.len() as int),
            left@.len() <= all.len(),
            merged.wf(),
            forall|k: Seq<char>| #[trigger]
                merged@.contains_key(k) == (if map_of(all, left@.len()).contains_key(k) {
                    below.contains_key(k)
                } else {
                    whole.contains_key(k)
                }),
            forall|k: Seq<char>| #[trigger]
                merged@.contains_key(k) ==> merged@[k] == (if map_of(
                    all,
                    left@.len(),
                ).contains_key(k) {
                    below[k]
                } else {
                    whole[k]
                }),
        decreases left@.len(),
    {
        let ghost count = left@.len();
        let (key, value) = left.pop().unwrap();
        let ghost name = key@;
        let ghost given = node_of(value);
        proof {
            assert((key, value) == all[count - 1]);
            lemma_entry(all, count, count - 1);
            lemma_entry(all, all.len(), count - 1);
            assert(decreases_to!(over => all[count - 1].1));
            if map_of(all, (count - 1) as nat).contains_key(name) {
                lemma_named(all, (count - 1) as nat, name);
                text::lemma_precedes_irreflexive(name);
            }
        }
        let ghost before = merged@;
        let removed = merged.remove(key.as_str());
        let ghost was = removed;
        assert(whole[name] == if below.contains_key(name) {
            laid_over(below[name], given)
        } else {
            given
        });
        let value = match (removed, value) {
            (Some(Setting::Section(existing)), Setting::Section(incoming)) => {
                Setting::Section(merge_tables(existing, incoming))
            },
            (_, value) => value,
        };
        assert(was matches Some(value) ==> node_of(value) == below[name]);
        assert(node_of(value) == whole[name]);
        merged.insert(key, value);
    }
    proof {
        assert(map_of(all, 0) == Map::<Seq<char>, Node>::empty());
        assert forall|k: Seq<char>| #[trigger] whole.contains_key(k) implies merged@.contains_key(
            k,
        ) by {
            assert(merged@.contains_key(k) == whole.contains_key(k));
        }
        lemma_one_map(merged@, whole);
    }
    merged
}

/// What stands at the end of a path through nested tables.
pub open spec fn at_path(node: Node, path: Seq<Seq<char>>) -> Option<Node>
    decreases path.len(),
{
    if path.len() == 0 {
        Some(node)
    } else {
        match node {
            Node::Section(map) => if map.contains_key(path[0]) {
                at_path(map[path[0]], path.drop_first())
            } else {
                None
            },
            _ => None,
        }
    }
}

/// What a dotted name such as `build.docker.image` stands for.
pub open spec fn found(table: Map<Seq<char>, Node>, key: Seq<char>) -> Option<Node> {
    at_path(Node::Section(table), text::pieces(key, '.'))
}

/// Follows a dotted key such as `build.docker.image`.
pub fn lookup<'a>(table: &'a Section, key: &str) -> (value: Option<&'a Setting>)
    requires
        table.wf(),
    ensures
        value is Some == found(table@, key@) is Some,
        value matches Some(value) ==> Some(value@) == found(table@, key@) && value.wf(),
{
    let parts = split(key, '.');
    let ghost path = text::pieces(key@, '.');
    proof {
        text::lemma_pieces(key@, '.');
        assert(text::views(parts@)[0] == parts@[0]@);
    }
    let mut value: &Setting = match table.get(parts[0].as_str()) {
        Some(value) => value,
        None => {
            return None;
        },
    };
    assert(path.drop_first() == path.skip(1));
    for i in 1..parts.len()
        invariant
            path == text::views(parts@),
            value.wf(),
            found(table@, key@) == at_path(value@, path.skip(i as int)),
    {
        assert(path.skip(i as int)[0] == parts@[i as int]@);
        assert(path.skip(i as int).drop_first() == path.skip(i + 1));
        value = match value {
            Setting::Section(inner) => match inner.get(parts[i].as_str()) {
                Some(value) => value,
                None => {
                    return None;
                },
            },
            _ => {
                return None;
            },
        };
    }
    assert(path.skip(parts@.len() as int).len() == 0);
    Some(value)
}

/// The name of an entry inside the section that a dotted name stands for.
pub open spec fn dotted(prefix: Seq<char>, key: Seq<char>) -> Seq<char> {
    if prefix.len() == 0 {
        key
    } else {
        prefix + "."@ + key
    }
}

/// Every value that is not a table, under its dotted name, in the order in
/// which the names stand in their tables.
pub open spec fn leaves(prefix: Seq<char>, value: Setting) -> Seq<(Seq<char>, Node)>
    decreases value,
{
    match value {
        Setting::Section(table) => table_leaves(prefix, table.entries@, table.entries@.len()),
        _ => seq![(prefix, node_of(value))],
    }
}

pub open spec fn table_leaves(
    prefix: Seq<char>,
    entries: Seq<(String, Setting)>,
    count: nat,
) -> Seq<(Seq<char>, Node)>
    decreases entries, count,
{
    if count == 0 || count > entries.len() {
        Seq::empty()
    } else {
        table_leaves(prefix, entries, (count - 1) as nat) + leaves(
            dotted(prefix, entries[count - 1].0@),
            entries[count - 1].1,
        )
    }
}

/// What a list of named values holds.
pub open spec fn pairs(list: Seq<(String, Setting)>) -> Seq<(Seq<char>, Node)> {
    Seq::new(list.len(), |i: int| (list[i].0@, node_of(list[i].1)))
}

/// Every value that is not a table, under its dotted name.
pub fn flatten(value: &Setting) -> (list: Vec<(String, Setting)>)
    requires
        value.wf(),
    ensures
        pairs(list@) == leaves(Seq::empty(), *value),
        forall|i: int| 0 <= i < list@.len() ==> (#[trigger] list@[i]).1.wf(),
{
    let mut list: Vec<(String, Setting)> = Vec::new();
    let prefix = String::new();
    assert(prefix@ == Seq::<char>::empty());
    walk(prefix, value, &mut list);
    assert(pairs(list@) == leaves(Seq::empty(), *value));
    list
}

fn walk(prefix: String, value: &Setting, list: &mut Vec<(String, Setting)>)
    requires
        value.wf(),
        forall|i: int| 0 <= i < old(list)@.len() ==> (#[trigger] old(list)@[i]).1.wf(),
    ensures
        pairs(final(list)@) == pairs(old(list)@) + leaves(prefix@, *value),
        forall|i: int| 0 <= i < final(list)@.len() ==> (#[trigger] final(list)@[i]).1.wf(),
    decreases value,
{
    let ghost before = list@;
    match value {
        Setting::Section(table) => {
            for i in 0..table.entries.len()
                invariant
                    value.wf(),
                    *value == Setting::Section(*table),
                    table.wf(),
                    pairs(list@) == pairs(before) + table_leaves(
                        prefix@,
                        table.entries@,
                        i as nat,
                    ),
                    forall|j: int| 0 <= j < list@.len() ==> (#[trigger] list@[j]).1.wf(),
            {
                assert(decreases_to!(table => table.entries@[i as int].1));
                let path = if chars_of(prefix.as_str()).len() == 0 {
                    table.entries[i].0.clone()
                } else {
                    let mut path = prefix.clone();
                    path.append(".");
                    path.append(table.entries[i].0.as_str());
                    path
                };
                walk(path, &table.entries[i].1, list);
            }
        },
        _ => {
            let leaf = value.copied();
            list.push((prefix, leaf));
            assert(pairs(list@) == pairs(before).push((prefix@, node_of(*value))));
            assert(pairs(list@) == pairs(before) + leaves(prefix@, *value));
        },
    }
}

/// Whether a name can be written in a dotted one: it is not empty and holds no
/// full stop.
pub open spec fn simple_name(name: Seq<char>) -> bool {
    name.len() > 0 && !name.contains('.')
}

impl Setting {
    /// Whether every name in a value is one that a dotted name can hold.
    pub open spec fn simply_named(&self) -> bool
        decreases self,
    {
        match self {
            Setting::Section(table) => table.simply_named(),
            _ => true,
        }
    }
}

impl Section {
    /// Whether every name in a table is one that a dotted name can hold.
    pub open spec fn simply_named(&self) -> bool
        decreases self,
    {
        forall|i: int|
            0 <= i < self.entries@.len() ==> simple_name((#[trigger] self.entries@[i]).0@)
                && self.entries@[i].1.simply_named()
    }
}

/// Whether a value stands at a path of simple names below a prefix.
pub open spec fn leads(
    value: Setting,
    prefix: Seq<Seq<char>>,
    leaf: (Seq<char>, Node),
    path: Seq<Seq<char>>,
) -> bool {
    &&& leaf.0 == text::joined(prefix + path, seq!['.'])
    &&& at_path(node_of(value), path) == Some(leaf.1)
    &&& forall|i: int| 0 <= i < path.len() ==> simple_name(#[trigger] path[i])
    &&& value is Section ==> path.len() > 0
}

proof fn lemma_leaves(prefix: Seq<Seq<char>>, value: Setting, at: int)
    requires
        value.wf(),
        value.simply_named(),
        prefix.len() > 0 ==> text::joined(prefix, seq!['.']).len() > 0,
        0 <= at < leaves(text::joined(prefix, seq!['.']), value).len(),
    ensures
        exists|path: Seq<Seq<char>>| #[trigger]
            leads(value, prefix, leaves(text::joined(prefix, seq!['.']), value)[at], path),
    decreases value,
{
    let name = text::joined(prefix, seq!['.']);
    match value {
        Setting::Section(table) => {
            lemma_table_leaves(prefix, table, table.entries@.len(), at);
        },
        _ => {
            let path = Seq::<Seq<char>>::empty();
            assert(prefix + path == prefix);
            assert(leads(value, prefix, leaves(name, value)[at], path));
        },
    }
}

/// Whether a path starts with one of the first names of a table.
spec fn starts_among(
    entries: Seq<(String, Setting)>,
    count: nat,
    path: Seq<Seq<char>>,
) -> bool {
    path.len() > 0 && exists|i: int| 0 <= i < count && (#[trigger] entries[i]).0@ == path[0]
}

proof fn lemma_table_leaves(prefix: Seq<Seq<char>>, table: Section, count: nat, at: int)
    requires
        table.wf(),
        table.simply_named(),
        prefix.len() > 0 ==> text::joined(prefix, seq!['.']).len() > 0,
        count <= table.entries@.len(),
        0 <= at < table_leaves(text::joined(prefix, seq!['.']), table.entries@, count).len(),
    ensures
        exists|path: Seq<Seq<char>>| #[trigger]
            leads(
                Setting::Section(table),
                prefix,
                table_leaves(text::joined(prefix, seq!['.']), table.entries@, count)[at],
                path,
            ) && starts_among(table.entries@, count, path) && (at >= table_leaves(
                text::joined(prefix, seq!['.']),
                table.entries@,
                (count - 1) as nat,
            ).len() ==> path[0] == table.entries@[count - 1].0@),
    decreases table, count,
{
    let entries = table.entries@;
    let name = text::joined(prefix, seq!['.']);
    let all = table_leaves(name, entries, count);
    assert(count > 0);
    let before = table_leaves(name, entries, (count - 1) as nat);
    if at < before.len() {
        lemma_table_leaves(prefix, table, (count - 1) as nat, at);
        assert(all[at] == before[at]);
        let path = choose|path: Seq<Seq<char>>| #[trigger]
            leads(Setting::Section(table), prefix, before[at], path) && starts_among(
                entries,
                (count - 1) as nat,
                path,
            );
        assert(leads(Setting::Section(table), prefix, all[at], path));
        assert(starts_among(entries, count, path));
    } else {
        let key = entries[count - 1].0@;
        let inner = entries[count - 1].1;
        let longer = prefix.push(key);
        assert(entries[count - 1].0@ == key);
        assert(simple_name(key));
        assert(inner.simply_named());
        reveal_strlit(".");
        assert("."@ == seq!['.']);
        assert(longer.drop_last() == prefix);
        assert(text::joined(longer, seq!['.']) == dotted(name, key));
        assert(decreases_to!(table => entries[count - 1].1));
        assert(inner.wf());
        lemma_leaves(longer, inner, at - before.len());
        let leaf = leaves(dotted(name, key), inner)[at - before.len()];
        assert(all[at] == leaf);
        let rest = choose|path: Seq<Seq<char>>| #[trigger] leads(inner, longer, leaf, path);
        let path = seq![key] + rest;
        assert(prefix + path == longer + rest);
        assert(path.drop_first() == rest);
        lemma_entry(entries, entries.len(), count - 1);
        assert forall|i: int| 0 <= i < path.len() implies simple_name(#[trigger] path[i]) by {
            if i > 0 {
                assert(path[i] == rest[i - 1]);
            }
        }
        assert(leads(Setting::Section(table), prefix, leaf, path));
        assert(entries[count - 1].0@ == path[0]);
        assert(starts_among(entries, count, path));
    }
}

/// Whatever `flatten` lists, `lookup` finds under the name it is listed by, in
/// a table whose names a dotted name can hold.
pub proof fn what_is_listed_is_found(table: Section, at: int)
    requires
        table.wf(),
        table.simply_named(),
        0 <= at < leaves(Seq::empty(), Setting::Section(table)).len(),
    ensures
        found(table@, leaves(Seq::empty(), Setting::Section(table))[at].0) == Some(
            leaves(Seq::empty(), Setting::Section(table))[at].1,
        ),
{
    let value = Setting::Section(table);
    let prefix = Seq::<Seq<char>>::empty();
    lemma_leaves(prefix, value, at);
    let leaf = leaves(Seq::empty(), value)[at];
    let path = choose|path: Seq<Seq<char>>| #[trigger] leads(value, prefix, leaf, path);
    assert(prefix + path == path);
    text::splitting_undoes_joining(path, '.');
}

/// Whether every name of a path is one that a dotted name can hold.
spec fn simple_path(path: Seq<Seq<char>>) -> bool {
    forall|i: int| 0 <= i < path.len() ==> simple_name(#[trigger] path[i])
}

/// Paths of simple names are told apart by their dotted names.
proof fn lemma_dotted_apart(first: Seq<Seq<char>>, second: Seq<Seq<char>>)
    requires
        simple_path(first),
        simple_path(second),
        first.len() > 0,
        second.len() > 0,
        text::joined(first, seq!['.']) == text::joined(second, seq!['.']),
    ensures
        first == second,
{
    text::splitting_undoes_joining(first, '.');
    text::splitting_undoes_joining(second, '.');
}

/// A path of simple names has a dotted name that is not empty.
proof fn lemma_dotted_long(path: Seq<Seq<char>>)
    requires
        simple_path(path),
        path.len() > 0,
    ensures
        text::joined(path, seq!['.']).len() > 0,
{
    assert(simple_name(path[path.len() - 1]));
}

proof fn lemma_leaves_apart(prefix: Seq<Seq<char>>, value: Setting, i: int, j: int)
    requires
        value.wf(),
        value.simply_named(),
        simple_path(prefix),
        0 <= i < j < leaves(text::joined(prefix, seq!['.']), value).len(),
    ensures
        leaves(text::joined(prefix, seq!['.']), value)[i].0 != leaves(
            text::joined(prefix, seq!['.']),
            value,
        )[j].0,
    decreases value,
{
    if let Setting::Section(table) = value {
        lemma_table_leaves_apart(prefix, table, table.entries@.len(), i, j);
    }
}

proof fn lemma_table_leaves_apart(
    prefix: Seq<Seq<char>>,
    table: Section,
    count: nat,
    i: int,
    j: int,
)
    requires
        table.wf(),
        table.simply_named(),
        simple_path(prefix),
        count <= table.entries@.len(),
        0 <= i < j < table_leaves(text::joined(prefix, seq!['.']), table.entries@, count).len(),
    ensures
        table_leaves(text::joined(prefix, seq!['.']), table.entries@, count)[i].0 != table_leaves(
            text::joined(prefix, seq!['.']),
            table.entries@,
            count,
        )[j].0,
    decreases table, count,
{
    let entries = table.entries@;
    let name = text::joined(prefix, seq!['.']);
    let all = table_leaves(name, entries, count);
    assert(count > 0);
    let fewer = (count - 1) as nat;
    let before = table_leaves(name, entries, fewer);
    let key = entries[count - 1].0@;
    let inner = entries[count - 1].1;
    if prefix.len() > 0 {
        lemma_dotted_long(prefix);
    }
    if j < before.len() {
        lemma_table_leaves_apart(prefix, table, fewer, i, j);
        assert(all[i] == before[i] && all[j] == before[j]);
    } else if i >= before.len() {
        let longer = prefix.push(key);
        assert(simple_name(entries[count - 1].0@));
        reveal_strlit(".");
        assert("."@ == seq!['.']);
        assert(longer.drop_last() == prefix);
        assert(text::joined(longer, seq!['.']) == dotted(name, key));
        assert(decreases_to!(table => entries[count - 1].1));
        lemma_leaves_apart(longer, inner, i - before.len(), j - before.len());
    } else {
        let value = Setting::Section(table);
        lemma_table_leaves(prefix, table, fewer, i);
        let first = choose|path: Seq<Seq<char>>| #[trigger]
            leads(value, prefix, before[i], path) && starts_among(entries, fewer, path);
        let at = choose|k: int| 0 <= k < fewer && (#[trigger] entries[k]).0@ == first[0];
        lemma_table_leaves(prefix, table, count, j);
        let second = choose|path: Seq<Seq<char>>| #[trigger]
            leads(value, prefix, all[j], path) && starts_among(entries, count, path) && path[0]
                == key;
        if all[i].0 == all[j].0 {
            lemma_dotted_apart(prefix + first, prefix + second);
            assert((prefix + first)[prefix.len() as int] == first[0]);
            assert((prefix + second)[prefix.len() as int] == second[0]);
            text::lemma_precedes_irreflexive(key);
        }
    }
}

/// Where the leaves of one entry stand among those of its table.
proof fn lemma_leaves_of_entry(
    prefix: Seq<char>,
    entries: Seq<(String, Setting)>,
    count: nat,
    entry: int,
    at: int,
)
    requires
        0 <= entry < count <= entries.len(),
        0 <= at < leaves(dotted(prefix, entries[entry].0@), entries[entry].1).len(),
    ensures
        table_leaves(prefix, entries, entry as nat).len() + at < table_leaves(
            prefix,
            entries,
            count,
        ).len(),
        table_leaves(prefix, entries, count)[table_leaves(prefix, entries, entry as nat).len() + at]
            == leaves(dotted(prefix, entries[entry].0@), entries[entry].1)[at],
    decreases count,
{
    if entry < count - 1 {
        lemma_leaves_of_entry(prefix, entries, (count - 1) as nat, entry, at);
    }
}

/// Whether a leaf is listed.
pub open spec fn is_listed(list: Seq<(Seq<char>, Node)>, key: Seq<char>, node: Node) -> bool {
    exists|i: int| 0 <= i < list.len() && #[trigger] list[i] == (key, node)
}

proof fn lemma_listed(
    prefix: Seq<Seq<char>>,
    value: Setting,
    path: Seq<Seq<char>>,
    node: Node,
)
    requires
        value.wf(),
        value.simply_named(),
        simple_path(prefix),
        at_path(node_of(value), path) == Some(node),
        node !is Section,
    ensures
        is_listed(
            leaves(text::joined(prefix, seq!['.']), value),
            text::joined(prefix + path, seq!['.']),
            node,
        ),
    decreases path.len(),
{
    let name = text::joined(prefix, seq!['.']);
    let list = leaves(name, value);
    match value {
        Setting::Section(table) => {
            let entries = table.entries@;
            let rest = path.drop_first();
            assert(table.wf() && table.simply_named());
            lemma_named(entries, entries.len(), path[0]);
            let entry = choose|i: int|
                0 <= i < entries.len() && (#[trigger] entries[i]).0@ == path[0];
            lemma_entry(entries, entries.len(), entry);
            let inner = entries[entry].1;
            let longer = prefix.push(path[0]);
            assert(simple_name(entries[entry].0@));
            reveal_strlit(".");
            assert("."@ == seq!['.']);
            if prefix.len() > 0 {
                lemma_dotted_long(prefix);
            }
            assert(longer.drop_last() == prefix);
            assert(text::joined(longer, seq!['.']) == dotted(name, path[0]));
            lemma_listed(longer, inner, rest, node);
            assert(longer + rest == prefix + path);
            let below = leaves(dotted(name, path[0]), inner);
            let at = choose|i: int|
                0 <= i < below.len() && #[trigger] below[i] == (
                    text::joined(prefix + path, seq!['.']),
                    node,
                );
            lemma_leaves_of_entry(name, entries, entries.len(), entry, at);
            assert(list[table_leaves(name, entries, entry as nat).len() + at] == below[at]);
        },
        _ => {
            assert(path.len() == 0);
            assert(prefix + path == prefix);
            assert(list[0] == (name, node));
        },
    }
}

/// `flatten` lists no name twice, in a table whose names a dotted name can
/// hold.
pub proof fn nothing_is_listed_twice(table: Section, first: int, second: int)
    requires
        table.wf(),
        table.simply_named(),
        0 <= first < second < leaves(Seq::empty(), Setting::Section(table)).len(),
    ensures
        leaves(Seq::empty(), Setting::Section(table))[first].0 != leaves(
            Seq::empty(),
            Setting::Section(table),
        )[second].0,
{
    lemma_leaves_apart(Seq::empty(), Setting::Section(table), first, second);
}

/// Whatever `lookup` finds that is not itself a table, `flatten` lists under
/// the name it is found by, in a table whose names a dotted name can hold.
pub proof fn what_is_found_is_listed(table: Section, key: Seq<char>, node: Node)
    requires
        table.wf(),
        table.simply_named(),
        found(table@, key) == Some(node),
        node !is Section,
    ensures
        is_listed(leaves(Seq::empty(), Setting::Section(table)), key, node),
{
    let path = text::pieces(key, '.');
    let prefix = Seq::<Seq<char>>::empty();
    lemma_listed(prefix, Setting::Section(table), path, node);
    assert(prefix + path == path);
    text::joining_undoes_splitting(key, '.');
}

} // verus!
