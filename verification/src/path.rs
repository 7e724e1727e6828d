//! Paths as text: names between forward slashes, with one in front when the
//! path starts at the root. What is typed on a host that writes them otherwise
//! is read by `from_host` first.
use vstd::prelude::*;
use vstd::string::*;

use crate::builder;
use crate::builder::strip_windows_verbatim_prefix;
use crate::config::Host;
use crate::text;
use crate::text::{chars_of, join, same, split};

verus! {

/// Whether a path starts at the root.
pub open spec fn absolute(path: Seq<char>) -> bool {
    path.len() > 0 && path[0] == '/'
}

/// A path below another, unless it starts at the root itself.
pub open spec fn below(base: Seq<char>, path: Seq<char>) -> Seq<char> {
    if absolute(path) {
        path
    } else if base.len() == 0 || base.last() == '/' {
        base + path
    } else {
        base + "/"@ + path
    }
}

/// Whether a path names a drive at a place in it: a letter and a colon.
pub open spec fn drive_at(path: Seq<char>, at: int) -> bool {
    at + 1 < path.len() && ('a' <= path[at] <= 'z' || 'A' <= path[at] <= 'Z') && path[at + 1] == ':'
}

/// A path with forward slashes for backslashes.
pub open spec fn slashed(path: Seq<char>) -> Seq<char> {
    Seq::new(
        path.len(),
        |i: int|
            if path[i] == '\\' {
                '/'
            } else {
                path[i]
            },
    )
}

/// A path that a host writes. On Windows either slash separates names, and a
/// drive is where a path starts, so it comes behind the root here.
pub open spec fn read_from(path: Seq<char>, host: Host) -> Seq<char> {
    if host != Host::Windows {
        path
    } else {
        let plain = slashed(builder::plain_path(path));
        if drive_at(plain, 0) {
            "/"@ + plain
        } else {
            plain
        }
    }
}

/// A path as a host reads it. Windows takes forward slashes too.
pub open spec fn written_for(path: Seq<char>, host: Host) -> Seq<char> {
    if host == Host::Windows && absolute(path) && drive_at(path, 1) {
        path.skip(1)
    } else {
        path
    }
}

/// Whether a path has nothing behind where it starts: the root of a drive, of
/// a share or of a device, which only Windows knows. Two slashes start a share,
/// with a server before it, and a device where a full stop follows them.
pub open spec fn root_only(path: Seq<char>, host: Host) -> bool {
    host == Host::Windows && absolute(path) && (if path.len() > 1 && path[1] == '/' {
        let device = path.len() > 3 && path[2] == '.' && path[3] == '/';
        steps(path).len() <= if device {
            1nat
        } else {
            2
        }
    } else {
        drive_at(path, 1) && steps(path).len() == 1 && steps(path)[0].len() == 2
    })
}

/// Whether a piece of a path names something, rather than standing still.
pub open spec fn names(piece: Seq<char>) -> bool {
    piece.len() > 0 && piece != "."@
}

/// The pieces that name something, among the first `count`.
pub open spec fn named_pieces(pieces: Seq<Seq<char>>, count: nat) -> Seq<Seq<char>>
    decreases count,
{
    if count == 0 || count > pieces.len() {
        Seq::empty()
    } else if names(pieces[count - 1]) {
        named_pieces(pieces, (count - 1) as nat).push(pieces[count - 1])
    } else {
        named_pieces(pieces, (count - 1) as nat)
    }
}

/// The names that a path leads through.
pub open spec fn steps(path: Seq<char>) -> Seq<Seq<char>> {
    let pieces = text::pieces(path, '/');
    named_pieces(pieces, pieces.len())
}

/// Whether a path says that it starts where one is.
pub open spec fn starts_here(path: Seq<char>) -> bool {
    text::pieces(path, '/')[0] == "."@
}

/// A path without the pieces that lead nowhere: double and trailing slashes,
/// and a full stop anywhere but at the start.
pub open spec fn tidy(path: Seq<char>) -> Seq<char> {
    let rest = text::joined(steps(path), "/"@);
    if absolute(path) {
        "/"@ + rest
    } else if !starts_here(path) {
        rest
    } else if steps(path).len() == 0 {
        "."@
    } else {
        "./"@ + rest
    }
}

/// How many steps a path takes, the root and a leading full stop counted.
pub open spec fn step_count(path: Seq<char>) -> nat {
    steps(path).len() + if absolute(path) || starts_here(path) {
        1nat
    } else {
        0
    }
}

/// The name a path ends with, if it ends with one.
pub open spec fn last_name(path: Seq<char>) -> Option<Seq<char>> {
    if steps(path).len() > 0 && steps(path).last() != ".."@ {
        Some(steps(path).last())
    } else {
        None
    }
}

/// Whether a path starts at the root.
pub fn is_absolute(path: &str) -> (is: bool)
    ensures
        is == absolute(path@),
{
    let chars = chars_of(path);
    chars.len() > 0 && chars[0] == '/'
}

/// A path that a host writes.
pub fn from_host(path: &str, host: Host) -> (read: String)
    ensures
        read@ == read_from(path@, host),
{
    if host != Host::Windows {
        return path.to_owned();
    }
    let plain = strip_windows_verbatim_prefix(path);
    let chars = chars_of(plain.as_str());
    let mut read = String::new();
    if names_drive(&chars, 0) {
        read.append("/");
    }
    let ghost start = read@;
    assert(drive_at(chars@, 0) == drive_at(slashed(chars@), 0));
    for i in 0..chars.len()
        invariant
            read@ == start + slashed(chars@).take(i as int),
    {
        if chars[i] == '\\' {
            read.push('/');
        } else {
            read.push(chars[i]);
        }
        assert(slashed(chars@).take(i + 1) == slashed(chars@).take(i as int).push(
            slashed(chars@)[i as int],
        ));
    }
    assert(slashed(chars@).take(chars@.len() as int) == slashed(chars@));
    assert(start == Seq::<char>::empty() ==> read@ == slashed(chars@));
    read
}

fn names_drive(path: &Vec<char>, at: usize) -> (is: bool)
    requires
        at <= 1,
    ensures
        is == drive_at(path@, at as int),
{
    at + 1 < path.len() && ('a' <= path[at] && path[at] <= 'z' || 'A' <= path[at] && path[at]
        <= 'Z') && path[at + 1] == ':'
}

/// A path as a host reads it.
pub fn to_host(path: &str, host: Host) -> (written: String)
    ensures
        written@ == written_for(path@, host),
{
    if host != Host::Windows || !is_absolute(path) {
        return path.to_owned();
    }
    let chars = chars_of(path);
    if !names_drive(&chars, 1) {
        return path.to_owned();
    }
    let mut written = String::new();
    for i in 1..chars.len()
        invariant
            chars@.len() >= 1,
            written@ == chars@.subrange(1, i as int),
    {
        written.push(chars[i]);
        assert(chars@.subrange(1, i + 1) == chars@.subrange(1, i as int).push(chars@[i as int]));
    }
    assert(chars@.subrange(1, chars@.len() as int) == chars@.skip(1));
    written
}

/// What a host wrote is read by it again as the same path, but for the
/// backslashes and the prefix that Windows can do without.
pub proof fn a_path_survives_being_read(path: Seq<char>, host: Host)
    requires
        !(absolute(slashed(builder::plain_path(path))) && drive_at(
            slashed(builder::plain_path(path)),
            1,
        )),
    ensures
        written_for(read_from(path, host), host) == (if host == Host::Windows {
            slashed(builder::plain_path(path))
        } else {
            path
        }),
{
    let plain = slashed(builder::plain_path(path));
    reveal_strlit("/");
    assert(("/"@ + plain).skip(1) == plain);
    if drive_at(plain, 0) {
        assert(("/"@ + plain)[1] == plain[0] && ("/"@ + plain)[2] == plain[1]);
    }
}

/// A path below another.
pub fn join_path(base: &str, path: &str) -> (joined: String)
    ensures
        joined@ == below(base@, path@),
{
    if is_absolute(path) {
        return path.to_owned();
    }
    let chars = chars_of(base);
    let mut joined = base.to_owned();
    if chars.len() > 0 && chars[chars.len() - 1] != '/' {
        joined.append("/");
    }
    joined.append(path);
    joined
}

/// Whether a piece of a path names something.
pub fn is_name(piece: &str) -> (is: bool)
    ensures
        is == names(piece@),
{
    chars_of(piece).len() > 0 && !same(piece, ".")
}

/// The pieces of a path up to the last one that names something, but no fewer
/// than there have to be.
pub open spec fn up_to_last_name(pieces: Seq<Seq<char>>, least: nat) -> Seq<Seq<char>>
    decreases pieces.len(),
{
    if pieces.len() > least && !names(pieces.last()) {
        up_to_last_name(pieces.drop_last(), least)
    } else {
        pieces
    }
}

/// Drops the pieces behind the last one that names something.
pub fn drop_trailing(pieces: &mut Vec<String>, least: usize)
    ensures
        text::views(final(pieces)@) == up_to_last_name(text::views(old(pieces)@), least as nat),
{
    let ghost goal = up_to_last_name(text::views(pieces@), least as nat);
    while pieces.len() > least && !is_name(pieces[pieces.len() - 1].as_str())
        invariant
            up_to_last_name(text::views(pieces@), least as nat) == goal,
        decreases pieces@.len(),
    {
        let ghost before = text::views(pieces@);
        assert(before.last() == pieces@.last()@);
        let _ = pieces.pop();
        assert(text::views(pieces@) == before.drop_last());
    }
    assert(pieces@.len() > least ==> text::views(pieces@).last() == pieces@.last()@);
}

/// A path as it is written, up to its last name or the root.
pub open spec fn without_trailing(path: Seq<char>) -> Seq<char> {
    let pieces = up_to_last_name(text::pieces(path, '/'), 1);
    if absolute(path) && pieces.len() == 1 {
        "/"@
    } else {
        text::joined(pieces, "/"@)
    }
}

/// A path as it is written, without what trails behind its last name.
pub fn trim_trailing(path: &str) -> (trimmed: String)
    ensures
        trimmed@ == without_trailing(path@),
{
    let mut pieces = split(path, '/');
    drop_trailing(&mut pieces, 1);
    assert(text::views(pieces@).len() == pieces@.len());
    if is_absolute(path) && pieces.len() == 1 {
        "/".to_owned()
    } else {
        join(&pieces, "/")
    }
}

/// The names that a path leads through.
pub fn path_names(path: &str) -> (names: Vec<String>)
    ensures
        text::views(names@) == steps(path@),
{
    let pieces = split(path, '/');
    let ghost all = text::pieces(path@, '/');
    let mut found: Vec<String> = Vec::new();
    assert(text::views(found@) == named_pieces(all, 0));
    for i in 0..pieces.len()
        invariant
            text::views(pieces@) == all,
            text::views(found@) == named_pieces(all, i as nat),
    {
        assert(all[i as int] == pieces@[i as int]@);
        let piece = pieces[i].clone();
        if is_name(piece.as_str()) {
            let ghost before = found@;
            let ghost name = piece@;
            found.push(piece);
            assert(text::views(found@) == text::views(before).push(name));
        }
    }
    assert(all.len() == pieces@.len());
    found
}

/// Whether a path says that it starts where one is.
pub fn begins_here(path: &str) -> (is: bool)
    ensures
        is == starts_here(path@),
{
    let pieces = split(path, '/');
    proof {
        text::lemma_pieces(path@, '/');
        assert(text::views(pieces@)[0] == pieces@[0]@);
    }
    same(pieces[0].as_str(), ".")
}

/// A path without the pieces that lead nowhere.
pub fn tidied(path: &str) -> (tidied: String)
    ensures
        tidied@ == tidy(path@),
{
    let names = path_names(path);
    assert(names@.len() == steps(path@).len());
    let mut tidied = if is_absolute(path) {
        "/".to_owned()
    } else if !begins_here(path) {
        String::new()
    } else if names.len() == 0 {
        return ".".to_owned();
    } else {
        "./".to_owned()
    };
    let ghost start = tidied@;
    tidied.append(join(&names, "/").as_str());
    assert(start == Seq::<char>::empty() ==> tidied@ == text::joined(steps(path@), "/"@));
    tidied
}

/// Whether a path takes more than one step.
pub fn leads_on(path: &str) -> (leads: bool)
    ensures
        leads == (step_count(path@) > 1),
{
    let names = path_names(path);
    assert(names@.len() == steps(path@).len());
    if is_absolute(path) || begins_here(path) {
        names.len() > 0
    } else {
        names.len() > 1
    }
}

/// Whether a path has nothing behind where it starts.
pub fn is_root(path: &str, host: Host) -> (is: bool)
    ensures
        is == root_only(path@, host),
{
    if host != Host::Windows || !is_absolute(path) {
        return false;
    }
    let chars = chars_of(path);
    let names = path_names(path);
    assert(names@.len() == steps(path@).len());
    if chars.len() > 1 && chars[1] == '/' {
        let device: bool = chars.len() > 3 && chars[2] == '.' && chars[3] == '/';
        return names.len() <= if device {
            1
        } else {
            2
        };
    }
    assert(names@.len() > 0 ==> names@[0]@ == steps(path@)[0]);
    names_drive(&chars, 1) && names.len() == 1 && chars_of(names[0].as_str()).len() == 2
}

/// The name a path ends with.
pub fn file_name(path: &str) -> (name: Option<String>)
    ensures
        name is Some == last_name(path@) is Some,
        name matches Some(name) ==> Some(name@) == last_name(path@),
{
    let names = path_names(path);
    assert(names@.len() == steps(path@).len());
    if names.len() == 0 {
        return None;
    }
    let last = names[names.len() - 1].clone();
    assert(last@ == steps(path@).last());
    if same(last.as_str(), "..") {
        None
    } else {
        Some(last)
    }
}

/// The directory that what a path leads to is in: the path without its last
/// step, where there is more than the root.
pub open spec fn directory(path: Seq<char>) -> Option<Seq<char>> {
    let names = steps(path);
    if names.len() > 0 {
        let rest = text::joined(names.drop_last(), "/"@);
        if absolute(path) {
            Some("/"@ + rest)
        } else {
            Some(rest)
        }
    } else {
        None
    }
}

/// The directory that what an absolute path leads to is in.
pub fn parent(path: &str) -> (place: Option<String>)
    requires
        absolute(path@),
    ensures
        match directory(path@) {
            Some(found) => place matches Some(place) && place@ == found,
            None => place is None,
        },
{
    let mut names = path_names(path);
    assert(names@.len() == steps(path@).len());
    if names.len() == 0 {
        return None;
    }
    let ghost all = names@;
    let _ = names.pop();
    assert(text::views(names@) == text::views(all).drop_last());
    Some(text::cat("/", join(&names, "/").as_str()))
}

/// The pieces on both sides of a separator are the pieces of the whole.
proof fn lemma_pieces_of_both(first: Seq<char>, second: Seq<char>)
    ensures
        text::pieces(first + "/"@ + second, '/') == text::pieces(first, '/') + text::pieces(
            second,
            '/',
        ),
    decreases second.len(),
{
    reveal_strlit("/");
    let whole = first + "/"@ + second;
    let before = text::pieces(first, '/');
    text::lemma_pieces(first, '/');
    if second.len() == 0 {
        assert(whole.drop_last() == first);
        assert(text::pieces(whole, '/') == before.push(Seq::empty()));
        assert(before + text::pieces(second, '/') == before.push(Seq::empty()));
    } else {
        let rest = second.drop_last();
        lemma_pieces_of_both(first, rest);
        text::lemma_pieces(rest, '/');
        let after = text::pieces(rest, '/');
        assert(whole.drop_last() == first + "/"@ + rest);
        assert(whole.last() == second.last());
        if second.last() == '/' {
            assert((before + after).push(Seq::empty()) == before + after.push(Seq::empty()));
        } else {
            assert((before + after).drop_last() == before + after.drop_last());
            assert((before + after).last() == after.last());
            let longer = after.last().push(second.last());
            assert((before + after.drop_last()).push(longer) == before + after.drop_last().push(
                longer,
            ));
        }
    }
}

proof fn lemma_named_pieces_of_both(
    first: Seq<Seq<char>>,
    second: Seq<Seq<char>>,
    count: nat,
)
    requires
        count <= second.len(),
    ensures
        named_pieces(first + second, first.len() + count) == named_pieces(first, first.len())
            + named_pieces(second, count),
    decreases count,
{
    let both = first + second;
    if count == 0 {
        lemma_named_pieces_alike(first, both, first.len());
        assert(named_pieces(second, 0) == Seq::<Seq<char>>::empty());
    } else {
        lemma_named_pieces_of_both(first, second, (count - 1) as nat);
        assert(both[first.len() + count - 1] == second[count - 1]);
        let before = named_pieces(first, first.len());
        let after = named_pieces(second, (count - 1) as nat);
        assert((before + after).push(second[count - 1]) == before + after.push(
            second[count - 1],
        ));
    }
}

proof fn lemma_named_pieces_alike(first: Seq<Seq<char>>, second: Seq<Seq<char>>, count: nat)
    requires
        count <= first.len(),
        count <= second.len(),
        forall|i: int| 0 <= i < count ==> #[trigger] first[i] == second[i],
    ensures
        named_pieces(first, count) == named_pieces(second, count),
    decreases count,
{
    if count > 0 {
        lemma_named_pieces_alike(first, second, (count - 1) as nat);
        assert(first[count - 1] == second[count - 1]);
    }
}

/// Whether each of some names is one that a path can lead through.
pub open spec fn all_steps(list: Seq<Seq<char>>) -> bool {
    forall|i: int|
        0 <= i < list.len() ==> names(#[trigger] list[i]) && !list[i].contains('/')
}

proof fn lemma_named_pieces_are_steps(pieces: Seq<Seq<char>>, count: nat)
    requires
        forall|i: int| 0 <= i < pieces.len() ==> !(#[trigger] pieces[i]).contains('/'),
    ensures
        all_steps(named_pieces(pieces, count)),
    decreases count,
{
    if count > 0 && count <= pieces.len() {
        lemma_named_pieces_are_steps(pieces, (count - 1) as nat);
        assert(!pieces[count - 1].contains('/'));
    }
}

proof fn lemma_all_named(pieces: Seq<Seq<char>>, count: nat)
    requires
        count <= pieces.len(),
        all_steps(pieces),
    ensures
        named_pieces(pieces, count) == pieces.take(count as int),
    decreases count,
{
    if count > 0 {
        lemma_all_named(pieces, (count - 1) as nat);
        assert(names(pieces[count - 1]));
        assert(pieces.take((count - 1) as int).push(pieces[count - 1]) == pieces.take(
            count as int,
        ));
    }
}

/// The names that a path leads through hold no slash and name something.
pub proof fn lemma_steps(path: Seq<char>)
    ensures
        all_steps(steps(path)),
{
    text::lemma_pieces(path, '/');
    let pieces = text::pieces(path, '/');
    lemma_named_pieces_are_steps(pieces, pieces.len());
}

/// A path made of names leads through them.
pub proof fn joined_names_are_the_steps(list: Seq<Seq<char>>)
    requires
        all_steps(list),
    ensures
        steps(text::joined(list, "/"@)) == list,
{
    reveal_strlit("/");
    assert("/"@ == seq!['/']);
    let path = text::joined(list, "/"@);
    if list.len() == 0 {
        let pieces = text::pieces(path, '/');
        assert(pieces == seq![Seq::<char>::empty()]);
        assert(named_pieces(pieces, 0) == Seq::<Seq<char>>::empty());
        assert(named_pieces(pieces, 1) == Seq::<Seq<char>>::empty());
    } else {
        text::splitting_undoes_joining(list, '/');
        lemma_all_named(list, list.len());
        assert(list.take(list.len() as int) == list);
    }
}

proof fn lemma_steps_of_both(first: Seq<char>, second: Seq<char>)
    ensures
        steps(first + "/"@ + second) == steps(first) + steps(second),
{
    lemma_pieces_of_both(first, second);
    let before = text::pieces(first, '/');
    let after = text::pieces(second, '/');
    lemma_named_pieces_of_both(before, after, after.len());
}

/// A path below another leads through the names of both, unless it starts at
/// the root itself.
pub proof fn a_path_below_continues_the_other(base: Seq<char>, path: Seq<char>)
    ensures
        steps(below(base, path)) == if absolute(path) {
            steps(path)
        } else {
            steps(base) + steps(path)
        },
{
    reveal_strlit("/");
    let none = Seq::<Seq<char>>::empty();
    if !absolute(path) {
        if base.len() == 0 {
            joined_names_are_the_steps(none);
            assert(text::joined(none, "/"@) == base);
            assert(base + path == path);
            assert(none + steps(path) == steps(path));
        } else if base.last() == '/' {
            let start = base.drop_last();
            joined_names_are_the_steps(none);
            assert(text::joined(none, "/"@) == Seq::<char>::empty());
            lemma_steps_of_both(start, Seq::empty());
            lemma_steps_of_both(start, path);
            assert(start + "/"@ + Seq::<char>::empty() == base);
            assert(start + "/"@ + path == base + path);
            assert(steps(start) + none == steps(start));
        } else {
            lemma_steps_of_both(base, path);
        }
    }
}

/// Tidying a path changes nothing about where it leads.
pub proof fn a_tidy_path_leads_the_same_way(path: Seq<char>)
    ensures
        steps(tidy(path)) == steps(path),
        absolute(tidy(path)) == absolute(path),
{
    reveal_strlit("/");
    reveal_strlit(".");
    reveal_strlit("./");
    let list = steps(path);
    let rest = text::joined(list, "/"@);
    let none = Seq::<Seq<char>>::empty();
    lemma_steps(path);
    joined_names_are_the_steps(list);
    joined_names_are_the_steps(none);
    assert(text::joined(none, "/"@) == Seq::<char>::empty());
    assert(none + list == list);
    if absolute(path) {
        lemma_steps_of_both(Seq::empty(), rest);
        assert(Seq::<char>::empty() + "/"@ + rest == "/"@ + rest);
    } else {
        lemma_full_stop();
        if starts_here(path) && list.len() > 0 {
            lemma_steps_of_both("."@, rest);
            assert("."@ + "/"@ + rest == "./"@ + rest);
        } else if !starts_here(path) && list.len() > 0 {
            lemma_joined_start(list);
        }
    }
}

/// A path starts at the root just where its first piece is empty and not the
/// only one.
proof fn lemma_first_piece(path: Seq<char>)
    ensures
        absolute(path) <==> text::pieces(path, '/').len() > 1 && text::pieces(path, '/')[0].len()
            == 0,
        text::pieces(path, '/').len() == 1 ==> text::pieces(path, '/')[0] == path,
        text::pieces(path, '/').len() > 0,
    decreases path.len(),
{
    reveal_with_fuel(text::pieces, 2);
    if path.len() > 0 {
        let rest = path.drop_last();
        lemma_first_piece(rest);
        text::lemma_pieces(rest, '/');
        if path.last() != '/' && text::pieces(rest, '/').len() == 1 {
            assert(rest.push(path.last()) == path);
        }
    }
}

/// What trails behind the last name of a path leads nowhere.
proof fn lemma_up_to_last_name(pieces: Seq<Seq<char>>, least: nat)
    requires
        0 < least <= pieces.len(),
    ensures
        least <= up_to_last_name(pieces, least).len() <= pieces.len(),
        up_to_last_name(pieces, least) == pieces.take(up_to_last_name(pieces, least).len() as int),
        named_pieces(up_to_last_name(pieces, least), up_to_last_name(pieces, least).len())
            == named_pieces(pieces, pieces.len()),
    decreases pieces.len(),
{
    if pieces.len() > least && !names(pieces.last()) {
        let fewer = pieces.drop_last();
        lemma_up_to_last_name(fewer, least);
        lemma_named_pieces_alike(fewer, pieces, fewer.len());
        let left = up_to_last_name(fewer, least);
        assert(pieces.take(left.len() as int) == fewer.take(left.len() as int));
    } else {
        assert(pieces.take(pieces.len() as int) == pieces);
    }
}

/// A path leads the same way without what trails behind its last name.
pub proof fn a_trimmed_path_leads_the_same_way(path: Seq<char>)
    ensures
        steps(without_trailing(path)) == steps(path),
        absolute(without_trailing(path)) == absolute(path),
{
    reveal_strlit("/");
    assert("/"@ == seq!['/']);
    let pieces = text::pieces(path, '/');
    lemma_first_piece(path);
    text::lemma_pieces(path, '/');
    lemma_up_to_last_name(pieces, 1);
    let left = up_to_last_name(pieces, 1);
    let none = Seq::<Seq<char>>::empty();
    if absolute(path) && left.len() == 1 {
        joined_names_are_the_steps(none);
        assert(text::joined(none, "/"@) == Seq::<char>::empty());
        lemma_steps_of_both(Seq::empty(), Seq::empty());
        assert(Seq::<char>::empty() + "/"@ + Seq::<char>::empty() == "/"@);
        assert(none + none == none);
        assert(named_pieces(left, 0) == none);
        assert(!names(left[0]));
    } else {
        assert forall|i: int| 0 <= i < left.len() implies !(#[trigger] left[i]).contains('/') by {
            assert(left[i] == pieces[i]);
        }
        text::splitting_undoes_joining(left, '/');
        lemma_first_piece(without_trailing(path));
        assert(left[0] == pieces[0]);
    }
}

/// A file in a directory has its name, and leads through the directory.
pub proof fn lemma_file_in(directory_path: Seq<char>, name: Seq<char>)
    requires
        all_steps(seq![name]),
        name != ".."@,
    ensures
        steps(below(directory_path, name)) == steps(directory_path).push(name),
        absolute(below(directory_path, name)) == absolute(directory_path),
        last_name(below(directory_path, name)) == Some(name),
{
    let list = seq![name];
    assert(names(list[0]) && !list[0].contains('/'));
    assert(name[0] != '/') by {
        if name[0] == '/' {
            assert(name.contains('/'));
        }
    }
    reveal_strlit("/");
    reveal_with_fuel(text::joined, 2);
    assert(text::joined(list, "/"@) == name);
    joined_names_are_the_steps(list);
    a_path_below_continues_the_other(directory_path, name);
    assert(steps(directory_path) + list == steps(directory_path).push(name));
}

/// A name behind the root is the only step of a path.
pub proof fn lemma_root_name(name: Seq<char>)
    requires
        all_steps(seq![name]),
    ensures
        steps("/"@ + name) == seq![name],
{
    let list = seq![name];
    let none = Seq::<Seq<char>>::empty();
    reveal_with_fuel(text::joined, 2);
    assert(text::joined(list, "/"@) == name);
    joined_names_are_the_steps(list);
    joined_names_are_the_steps(none);
    assert(text::joined(none, "/"@) == Seq::<char>::empty());
    lemma_steps_of_both(Seq::empty(), name);
    assert(Seq::<char>::empty() + "/"@ + name == "/"@ + name);
    assert(none + list == list);
}

/// A path from the root through some names leads through them.
pub proof fn lemma_rooted(list: Seq<Seq<char>>)
    requires
        all_steps(list),
    ensures
        steps("/"@ + text::joined(list, "/"@)) == list,
        absolute("/"@ + text::joined(list, "/"@)),
{
    let none = Seq::<Seq<char>>::empty();
    let rest = text::joined(list, "/"@);
    reveal_strlit("/");
    joined_names_are_the_steps(list);
    joined_names_are_the_steps(none);
    assert(text::joined(none, "/"@) == Seq::<char>::empty());
    lemma_steps_of_both(Seq::empty(), rest);
    assert(Seq::<char>::empty() + "/"@ + rest == "/"@ + rest);
    assert(none + list == list);
}

pub proof fn lemma_full_stop()
    ensures
        steps("."@) == Seq::<Seq<char>>::empty(),
{
    reveal_strlit(".");
    let path = "."@;
    assert(path.drop_last() == Seq::<char>::empty());
    let pieces = text::pieces(path, '/');
    reveal_with_fuel(text::pieces, 2);
    assert(pieces.len() == 1);
    assert(pieces[0] == "."@);
    assert(named_pieces(pieces, 0) == Seq::<Seq<char>>::empty());
    assert(named_pieces(pieces, 1) == Seq::<Seq<char>>::empty());
}

/// A path made of names starts with the first of them.
pub proof fn lemma_joined_start(list: Seq<Seq<char>>)
    requires
        list.len() > 0,
        all_steps(list),
    ensures
        text::joined(list, "/"@).len() > 0,
        text::joined(list, "/"@)[0] == list[0][0],
        list[0][0] != '/',
    decreases list.len(),
{
    assert(names(list[0]));
    if list[0][0] == '/' {
        assert(list[0].contains('/'));
    }
    if list.len() > 1 {
        let shorter = list.drop_last();
        assert forall|i: int| 0 <= i < shorter.len() implies names(#[trigger] shorter[i])
            && !shorter[i].contains('/') by {
            assert(shorter[i] == list[i]);
        }
        lemma_joined_start(shorter);
    }
}

/// A path leads through every name in it, `..` among them, and a full stop or
/// nothing between two slashes leads nowhere.
pub proof fn every_name_is_a_step(
    path: &str,
    base: &str,
    piece: Seq<char>,
    found: Vec<String>,
    before: Vec<String>,
)
    requires
        path@ == base@ + "/"@ + piece,
        !piece.contains('/'),
        call_ensures(path_names, (path,), found),
        call_ensures(path_names, (base,), before),
    ensures
        text::views(found@) == if piece.len() == 0 || piece == "."@ {
            text::views(before@)
        } else {
            text::views(before@).push(piece)
        },
{
    let none = Seq::<Seq<char>>::empty();
    lemma_steps_of_both(base@, piece);
    reveal_strlit("/");
    if piece.len() == 0 {
        joined_names_are_the_steps(none);
        assert(text::joined(none, "/"@) == piece);
        assert(steps(base@) + none == steps(base@));
    } else if piece == "."@ {
        lemma_full_stop();
        assert(steps(base@) + none == steps(base@));
    } else {
        let list = seq![piece];
        assert(all_steps(list));
        joined_names_are_the_steps(list);
        reveal_with_fuel(text::joined, 2);
        assert(text::joined(list, "/"@) == piece);
        assert(steps(base@) + list == steps(base@).push(piece));
    }
}

/// A path without a slash in it leads through itself.
pub proof fn a_name_on_its_own_is_a_step(path: &str, found: Vec<String>)
    requires
        !path@.contains('/'),
        call_ensures(path_names, (path,), found),
    ensures
        text::views(found@) == if path@.len() == 0 || path@ == "."@ {
            Seq::empty()
        } else {
            seq![path@]
        },
{
    let none = Seq::<Seq<char>>::empty();
    if path@.len() == 0 {
        joined_names_are_the_steps(none);
        assert(text::joined(none, "/"@) == path@);
    } else if path@ == "."@ {
        lemma_full_stop();
    } else {
        let list = seq![path@];
        assert(all_steps(list));
        joined_names_are_the_steps(list);
        reveal_with_fuel(text::joined, 2);
        assert(text::joined(list, "/"@) == path@);
    }
}

/// A file lies in the directory that it is said to be in, under its own name.
pub proof fn a_file_lies_in_its_directory(
    path: &str,
    place: Option<String>,
    name: Option<String>,
    again: Seq<char>,
)
    requires
        absolute(path@),
        call_ensures(parent, (path,), place),
        call_ensures(file_name, (path,), name),
        name matches Some(name) ==> again == below(place->0@, name@),
    ensures
        place is Some <==> steps(path@).len() > 0,
        place matches Some(place) ==> absolute(place@) && steps(place@) == steps(path@).drop_last(),
        name is Some ==> place is Some && steps(again) == steps(path@) && absolute(again),
{
    let list = steps(path@);
    if list.len() > 0 {
        let shorter = list.drop_last();
        lemma_steps(path@);
        assert forall|i: int| 0 <= i < shorter.len() implies names(#[trigger] shorter[i])
            && !shorter[i].contains('/') by {
            assert(shorter[i] == list[i]);
        }
        lemma_rooted(shorter);
        if name is Some {
            assert(names(list[list.len() - 1]) && !list[list.len() - 1].contains('/'));
            lemma_file_in("/"@ + text::joined(shorter, "/"@), list.last());
            assert(shorter.push(list.last()) == list);
        }
    }
}

/// A path that has been tidied is left alone when it is tidied again.
pub proof fn a_tidy_path_is_left_alone(path: Seq<char>)
    ensures
        tidy(tidy(path)) == tidy(path),
{
    let tidy_path = tidy(path);
    let list = steps(path);
    let rest = text::joined(list, "/"@);
    reveal_strlit("/");
    reveal_strlit(".");
    reveal_strlit("./");
    lemma_steps(path);
    a_tidy_path_leads_the_same_way(path);
    if !absolute(path) {
        if list.len() > 0 {
            lemma_joined_start(list);
        }
        if !starts_here(path) {
            joined_names_are_the_steps(list);
            if list.len() > 0 {
                text::splitting_undoes_joining(list, '/');
                assert("/"@ == seq!['/']);
                assert(names(list[0]));
            } else {
                assert(rest == Seq::<char>::empty());
                assert(text::pieces(rest, '/')[0] == Seq::<char>::empty());
            }
        } else if list.len() > 0 {
            lemma_pieces_of_both("."@, rest);
            lemma_one_piece("."@);
            assert("./"@ + rest == "."@ + "/"@ + rest);
        } else {
            lemma_one_piece("."@);
        }
    }
}

proof fn lemma_one_piece(text: Seq<char>)
    requires
        !text.contains('/'),
    ensures
        text::pieces(text, '/') == seq![text],
{
    let list = seq![text];
    reveal_with_fuel(text::joined, 2);
    assert(text::joined(list, seq!['/']) == text);
    text::splitting_undoes_joining(list, '/');
}

/// A name with a slash before it leads on from somewhere, and one on its own
/// does not.
pub proof fn only_a_name_on_its_own_leads_nowhere(
    path: &str,
    first: Seq<char>,
    name: Seq<char>,
    leads: bool,
)
    requires
        all_steps(seq![name]),
        path@ == first + "/"@ + name || path@ == name,
        call_ensures(leads_on, (path,), leads),
    ensures
        leads <==> path@ != name,
{
    let list = seq![name];
    assert(names(list[0]) && !list[0].contains('/'));
    reveal_strlit("/");
    reveal_with_fuel(text::joined, 2);
    assert(text::joined(list, "/"@) == name);
    joined_names_are_the_steps(list);
    if path@ == name {
        lemma_one_piece(name);
        if absolute(name) {
            assert(name.contains(name[0]));
        }
    } else {
        lemma_steps_of_both(first, name);
        lemma_pieces_of_both(first, name);
        lemma_one_piece(name);
        lemma_nowhere(first);
        text::lemma_pieces(first, '/');
        lemma_first_piece(path@);
        lemma_first_piece(first);
        assert(text::pieces(path@, '/')[0] == text::pieces(first, '/')[0]);
    }
}

/// What leads through no name starts at the root or where one is, or says
/// nothing.
proof fn lemma_nowhere(path: Seq<char>)
    ensures
        steps(path).len() == 0 ==> !names(text::pieces(path, '/')[0]),
{
    let pieces = text::pieces(path, '/');
    text::lemma_pieces(path, '/');
    lemma_first_named(pieces, pieces.len());
}

proof fn lemma_first_named(pieces: Seq<Seq<char>>, count: nat)
    requires
        0 < count <= pieces.len(),
    ensures
        names(pieces[0]) ==> named_pieces(pieces, count).len() > 0,
    decreases count,
{
    reveal_with_fuel(named_pieces, 2);
    if count > 1 {
        lemma_first_named(pieces, (count - 1) as nat);
    }
}

} // verus!
