//! The compilers a board needs when the build runs on this computer.
//!
//! Docker is the reproducible path and stays the default, but the 6502
//! toolchain is one package away on every desktop system. This module knows
//! what has to be present and, when something is not, what to type to get it.
use vstd::prelude::*;
use vstd::string::*;

use crate::config::{Board, Host};
use crate::text;
use crate::text::{cat, is_among, lines, same, split_once, split_words, to_ascii_lower, unquote};

verus! {

/// A program the build calls by name.
#[derive(Clone, Copy, Debug)]
pub struct Tool {
    pub command: &'static str,
    /// What it does, for the line `doctor` prints about it.
    pub purpose: &'static str,
}

/// What a list of tools holds: the command and the purpose of each.
pub open spec fn tool_views(tools: Seq<Tool>) -> Seq<(Seq<char>, Seq<char>)> {
    Seq::new(tools.len(), |i: int| (tools[i].command@, tools[i].purpose@))
}

/// The programs that the build of a board calls.
pub open spec fn required_tools(board: Board) -> Seq<(Seq<char>, Seq<char>)> {
    match board {
        Board::RoscoM68k => seq![
            ("make"@, "build driver"@),
            ("m68k-elf-rosco-gcc"@, "C compiler"@),
            ("m68k-elf-rosco-ld"@, "linker"@),
            ("vasmm68k_mot"@, "assembler"@),
        ],
        Board::Rosco6502 => seq![
            ("make"@, "build driver"@),
            ("ca65"@, "assembler"@),
            ("ld65"@, "linker"@),
            ("cl65"@, "C compiler and linker"@),
        ],
    }
}

/// The programs that the build of a board calls.
pub fn required(board: Board) -> (tools: Vec<Tool>)
    ensures
        tool_views(tools@) == required_tools(board),
{
    let mut tools: Vec<Tool> = Vec::new();
    tools.push(Tool { command: "make", purpose: "build driver" });
    match board {
        Board::RoscoM68k => {
            tools.push(Tool { command: "m68k-elf-rosco-gcc", purpose: "C compiler" });
            tools.push(Tool { command: "m68k-elf-rosco-ld", purpose: "linker" });
            tools.push(Tool { command: "vasmm68k_mot", purpose: "assembler" });
        },
        Board::Rosco6502 => {
            tools.push(Tool { command: "ca65", purpose: "assembler" });
            tools.push(Tool { command: "ld65", purpose: "linker" });
            tools.push(Tool { command: "cl65", purpose: "C compiler and linker" });
        },
    }
    assert(tool_views(tools@) == required_tools(board));
    tools
}

/// Those of the first tools that are not among the ones that can be started.
pub open spec fn tools_missing(
    tools: Seq<(Seq<char>, Seq<char>)>,
    available: Seq<Seq<char>>,
    count: nat,
) -> Seq<(Seq<char>, Seq<char>)>
    decreases count,
{
    if count == 0 || count > tools.len() {
        Seq::empty()
    } else {
        let before = tools_missing(tools, available, (count - 1) as nat);
        if available.contains(tools[count - 1].0) {
            before
        } else {
            before.push(tools[count - 1])
        }
    }
}

/// The programs a board's build calls that cannot be started here;
/// `available` names the ones that can.
pub fn missing(board: Board, available: &Vec<String>) -> (tools: Vec<Tool>)
    ensures
        tool_views(tools@) == tools_missing(
            required_tools(board),
            text::views(available@),
            required_tools(board).len(),
        ),
{
    let needed = required(board);
    let ghost all = required_tools(board);
    let mut tools: Vec<Tool> = Vec::new();
    assert(tool_views(tools@) == tools_missing(all, text::views(available@), 0));
    for i in 0..needed.len()
        invariant
            all == tool_views(needed@),
            tool_views(tools@) == tools_missing(all, text::views(available@), i as nat),
    {
        assert(all[i as int] == (needed@[i as int].command@, needed@[i as int].purpose@));
        if !is_among(needed[i].command, available) {
            let ghost before = tools@;
            tools.push(needed[i]);
            assert(tool_views(tools@) == tool_views(before).push(all[i as int]));
        }
    }
    assert(needed@.len() == all.len());
    tools
}

/// What this system installs packages with.
#[derive(Clone, Copy, Debug, PartialEq, Eq, Structural)]
pub enum PackageManager {
    Apt,
    Dnf,
    Pacman,
    Zypper,
    Homebrew,
}

/// The command that installs packages, up to their names.
pub open spec fn install_words(manager: PackageManager) -> Seq<char> {
    match manager {
        PackageManager::Apt => "sudo apt install "@,
        PackageManager::Dnf => "sudo dnf install "@,
        PackageManager::Pacman => "sudo pacman -S "@,
        PackageManager::Zypper => "sudo zypper install "@,
        PackageManager::Homebrew => "brew install "@,
    }
}

impl PackageManager {
    /// The command that installs a package.
    pub fn install(self, package: &str) -> (command: String)
        ensures
            command@ == install_words(self) + package@,
    {
        match self {
            PackageManager::Apt => cat("sudo apt install ", package),
            PackageManager::Dnf => cat("sudo dnf install ", package),
            PackageManager::Pacman => cat("sudo pacman -S ", package),
            PackageManager::Zypper => cat("sudo zypper install ", package),
            PackageManager::Homebrew => cat("brew install ", package),
        }
    }
}

/// The package manager of a distribution family.
pub open spec fn manager_of(name: Seq<char>) -> Option<PackageManager> {
    if name == "debian"@ || name == "ubuntu"@ {
        Some(PackageManager::Apt)
    } else if name == "fedora"@ || name == "rhel"@ || name == "centos"@ {
        Some(PackageManager::Dnf)
    } else if name == "arch"@ {
        Some(PackageManager::Pacman)
    } else if name == "opensuse"@ || name == "suse"@ {
        Some(PackageManager::Zypper)
    } else {
        None
    }
}

fn manager_named(name: &str) -> (manager: Option<PackageManager>)
    ensures
        manager == manager_of(name@),
{
    if same(name, "debian") || same(name, "ubuntu") {
        Some(PackageManager::Apt)
    } else if same(name, "fedora") || same(name, "rhel") || same(name, "centos") {
        Some(PackageManager::Dnf)
    } else if same(name, "arch") {
        Some(PackageManager::Pacman)
    } else if same(name, "opensuse") || same(name, "suse") {
        Some(PackageManager::Zypper)
    } else {
        None
    }
}

/// The first of the words that names a family that is known.
pub open spec fn first_manager(words: Seq<Seq<char>>, count: nat) -> Option<PackageManager>
    decreases count,
{
    if count == 0 || count > words.len() {
        None
    } else {
        match first_manager(words, (count - 1) as nat) {
            Some(manager) => Some(manager),
            None => manager_of(text::ascii_lower(words[count - 1])),
        }
    }
}

/// The words that a line of the release file names families with: those of
/// `ID` and of `ID_LIKE`.
pub open spec fn family_words(line: Seq<char>) -> Seq<Seq<char>> {
    match text::cut(line, '=') {
        Some((key, value)) => if key == "ID"@ || key == "ID_LIKE"@ {
            text::words_of(text::unquoted(value))
        } else {
            Seq::empty()
        },
        None => Seq::empty(),
    }
}

/// The first family that is known in the first lines of the release file.
pub open spec fn release_manager(lines: Seq<Seq<char>>, count: nat) -> Option<PackageManager>
    decreases count,
{
    if count == 0 || count > lines.len() {
        None
    } else {
        match release_manager(lines, (count - 1) as nat) {
            Some(manager) => Some(manager),
            None => {
                let words = family_words(lines[count - 1]);
                first_manager(words, words.len())
            },
        }
    }
}

/// Reads the distribution family out of `/etc/os-release`. `ID_LIKE` is what
/// makes this work on the derivatives, which outnumber their parents.
pub fn from_os_release(release: &str) -> (manager: Option<PackageManager>)
    ensures
        manager == release_manager(text::line_list(release@), text::line_list(release@).len()),
{
    let all = lines(release);
    let ghost read = text::line_list(release@);
    let mut manager: Option<PackageManager> = None;
    for i in 0..all.len()
        invariant
            text::views(all@) == read,
            manager == release_manager(read, i as nat),
    {
        assert(read[i as int] == all@[i as int]@);
        if manager.is_none() {
            manager = family_in(all[i].as_str());
        }
    }
    assert(all@.len() == read.len());
    manager
}

fn family_in(line: &str) -> (manager: Option<PackageManager>)
    ensures
        manager == first_manager(family_words(line@), family_words(line@).len()),
{
    let (key, value) = match split_once(line, '=') {
        Some(parts) => parts,
        None => {
            return None;
        },
    };
    let id: bool = same(key.as_str(), "ID");
    let like: bool = same(key.as_str(), "ID_LIKE");
    if !id && !like {
        return None;
    }
    let words = split_words(unquote(value.as_str()).as_str());
    let ghost read = family_words(line@);
    let mut manager: Option<PackageManager> = None;
    for i in 0..words.len()
        invariant
            text::views(words@) == read,
            manager == first_manager(read, i as nat),
    {
        assert(read[i as int] == words@[i as int]@);
        if manager.is_none() {
            manager = manager_named(to_ascii_lower(words[i].as_str()).as_str());
        }
    }
    assert(words@.len() == read.len());
    manager
}

/// What a system installs packages with; `release` is its release file.
pub open spec fn system_manager(host: Host, release: Option<&str>) -> Option<PackageManager> {
    match (host, release) {
        (Host::MacOs, _) => Some(PackageManager::Homebrew),
        (Host::Linux, Some(release)) => release_manager(
            text::line_list(release@),
            text::line_list(release@).len(),
        ),
        _ => None,
    }
}

/// The command that installs a board's toolchain.
pub open spec fn hint_words(board: Board, host: Host, release: Option<&str>) -> Option<Seq<char>> {
    match board {
        Board::RoscoM68k => if host == Host::Windows {
            None
        } else {
            Some(
                "brew tap rosco-m68k/toolchain && brew install rosco-m68k-toolchain@13 vasm-all srecord"@,
            )
        },
        Board::Rosco6502 => match system_manager(host, release) {
            Some(manager) => Some(install_words(manager) + "cc65"@),
            None => None,
        },
    }
}

/// The command that installs a board's toolchain on this system, when there
/// is one worth recommending. The rosco_m68k cross-compiler is not in any
/// distribution's archive; Homebrew's tap is the only supported way to
/// install it.
pub fn install_hint(board: Board, host: Host, release: Option<&str>) -> (hint: Option<String>)
    ensures
        match hint_words(board, host, release) {
            Some(words) => hint matches Some(hint) && hint@ == words,
            None => hint is None,
        },
{
    match board {
        Board::RoscoM68k => match host {
            Host::Windows => None,
            _ => Some(
                "brew tap rosco-m68k/toolchain && brew install rosco-m68k-toolchain@13 vasm-all srecord".to_owned(),
            ),
        },
        Board::Rosco6502 => {
            let manager = match (host, release) {
                (Host::MacOs, _) => Some(PackageManager::Homebrew),
                (Host::Linux, Some(release)) => from_os_release(release),
                _ => None,
            };
            match manager {
                Some(manager) => Some(manager.install("cc65")),
                None => None,
            }
        },
    }
}

/// Whether a list of tools has one with a command.
pub open spec fn has_command(tools: Seq<Tool>, command: Seq<char>) -> bool {
    exists|i: int| 0 <= i < tools.len() && (#[trigger] tools[i]).command@ == command
}

/// A build is driven by `make` and calls the compiler, the assembler and the
/// linker of its board, and nothing of the other board's.
pub proof fn a_build_calls_the_tools_of_its_board(board: Board, tools: Vec<Tool>)
    requires
        call_ensures(required, (board,), tools),
    ensures
        tools@.len() == 4,
        has_command(tools@, "make"@),
        board == Board::RoscoM68k ==> has_command(tools@, "m68k-elf-rosco-gcc"@) && has_command(
            tools@,
            "m68k-elf-rosco-ld"@,
        ) && has_command(tools@, "vasmm68k_mot"@),
        board == Board::Rosco6502 ==> has_command(tools@, "ca65"@) && has_command(
            tools@,
            "ld65"@,
        ) && has_command(tools@, "cl65"@),
{
    let views = tool_views(tools@);
    assert(tools@.len() == views.len());
    assert(views[0] == (tools@[0].command@, tools@[0].purpose@));
    assert(views[1] == (tools@[1].command@, tools@[1].purpose@));
    assert(views[2] == (tools@[2].command@, tools@[2].purpose@));
    assert(views[3] == (tools@[3].command@, tools@[3].purpose@));
}

proof fn lemma_missing(
    tools: Seq<(Seq<char>, Seq<char>)>,
    available: Seq<Seq<char>>,
    count: nat,
    tool: (Seq<char>, Seq<char>),
)
    requires
        count <= tools.len(),
    ensures
        tools_missing(tools, available, count).contains(tool) <==> tools.take(
            count as int,
        ).contains(tool) && !available.contains(tool.0),
    decreases count,
{
    let list = tools_missing(tools, available, count);
    let start = tools.take(count as int);
    if count > 0 {
        let shorter = tools.take(count - 1);
        let before = tools_missing(tools, available, (count - 1) as nat);
        let last = tools[count - 1];
        lemma_missing(tools, available, (count - 1) as nat, tool);
        assert(start == shorter.push(last));
        lemma_pushed(shorter, last, tool);
        lemma_pushed(before, last, tool);
    } else {
        assert(start.len() == 0);
    }
}

proof fn lemma_pushed<A>(list: Seq<A>, last: A, item: A)
    ensures
        list.push(last).contains(item) <==> list.contains(item) || last == item,
{
    let longer = list.push(last);
    if list.contains(item) {
        let k = choose|k: int| 0 <= k < list.len() && list[k] == item;
        assert(longer[k] == item);
    }
    assert(longer[list.len() as int] == last);
    if longer.contains(item) && last != item {
        let k = choose|k: int| 0 <= k < longer.len() && longer[k] == item;
        assert(list[k] == item);
    }
}

proof fn lemma_has_command(tools: Seq<Tool>, at: int)
    requires
        0 <= at < tools.len(),
    ensures
        tool_views(tools).contains((tools[at].command@, tools[at].purpose@)),
{
    assert(tool_views(tools)[at] == (tools[at].command@, tools[at].purpose@));
}

/// A tool is missing exactly where the build calls it and it cannot be started,
/// so that nothing is missing exactly where all of them can be.
pub proof fn what_is_missing_is_what_cannot_be_started(
    board: Board,
    available: &Vec<String>,
    needed: Vec<Tool>,
    absent: Vec<Tool>,
)
    requires
        call_ensures(required, (board,), needed),
        call_ensures(missing, (board, available), absent),
    ensures
        forall|i: int|
            0 <= i < needed@.len() ==> (has_command(absent@, (#[trigger] needed@[i]).command@)
                <==> !text::views(available@).contains(needed@[i].command@)),
        forall|i: int|
            0 <= i < absent@.len() ==> has_command(needed@, (#[trigger] absent@[i]).command@),
        absent@.len() == 0 <==> forall|i: int|
            0 <= i < needed@.len() ==> text::views(available@).contains(
                (#[trigger] needed@[i]).command@,
            ),
{
    let here = text::views(available@);
    let all = tool_views(needed@);
    let gone = tool_views(absent@);
    assert(all.take(all.len() as int) == all);
    assert forall|i: int| 0 <= i < absent@.len() implies has_command(
        needed@,
        (#[trigger] absent@[i]).command@,
    ) && !here.contains(absent@[i].command@) by {
        let tool = (absent@[i].command@, absent@[i].purpose@);
        lemma_has_command(absent@, i);
        lemma_missing(all, here, all.len(), tool);
        let k = choose|k: int| 0 <= k < all.len() && all[k] == tool;
        assert(needed@[k].command@ == absent@[i].command@);
    }
    assert forall|i: int| 0 <= i < needed@.len() implies (has_command(
        absent@,
        (#[trigger] needed@[i]).command@,
    ) <==> !here.contains(needed@[i].command@)) by {
        let tool = (needed@[i].command@, needed@[i].purpose@);
        lemma_has_command(needed@, i);
        lemma_missing(all, here, all.len(), tool);
        if !here.contains(tool.0) {
            let k = choose|k: int| 0 <= k < gone.len() && gone[k] == tool;
            assert(absent@[k].command@ == needed@[i].command@);
        }
        if has_command(absent@, needed@[i].command@) {
            let k = choose|k: int|
                0 <= k < absent@.len() && (#[trigger] absent@[k]).command@ == needed@[i].command@;
            assert(!here.contains(absent@[k].command@));
        }
    }
    if absent@.len() > 0 {
        assert(has_command(needed@, absent@[0].command@));
        let k = choose|k: int|
            0 <= k < needed@.len() && (#[trigger] needed@[k]).command@ == absent@[0].command@;
        assert(!here.contains(needed@[k].command@));
    }
}

/// Every family that is known installs with its own manager, and no other name
/// is known.
pub proof fn every_family_has_its_manager(name: Seq<char>)
    ensures
        manager_of(name) == Some(PackageManager::Apt) <==> seq!["debian"@, "ubuntu"@].contains(
            name,
        ),
        manager_of(name) == Some(PackageManager::Dnf) <==> seq![
            "fedora"@,
            "rhel"@,
            "centos"@,
        ].contains(name),
        manager_of(name) == Some(PackageManager::Pacman) <==> name == "arch"@,
        manager_of(name) == Some(PackageManager::Zypper) <==> seq![
            "opensuse"@,
            "suse"@,
        ].contains(name),
        manager_of(name) != Some(PackageManager::Homebrew),
{
    reveal_strlit("debian");
    reveal_strlit("ubuntu");
    reveal_strlit("fedora");
    reveal_strlit("rhel");
    reveal_strlit("centos");
    reveal_strlit("arch");
    reveal_strlit("opensuse");
    reveal_strlit("suse");
    let apt = seq!["debian"@, "ubuntu"@];
    let dnf = seq!["fedora"@, "rhel"@, "centos"@];
    let zypper = seq!["opensuse"@, "suse"@];
    assert(apt[0] == "debian"@ && apt[1] == "ubuntu"@);
    assert(dnf[0] == "fedora"@ && dnf[1] == "rhel"@ && dnf[2] == "centos"@);
    assert(zypper[0] == "opensuse"@ && zypper[1] == "suse"@);
    assert("debian"@[0] == 'd' && "ubuntu"@[0] == 'u' && "fedora"@[0] == 'f' && "rhel"@[0] == 'r'
        && "centos"@[0] == 'c' && "arch"@[0] == 'a' && "opensuse"@[0] == 'o' && "suse"@[0] == 's');
}

/// Whether a word of the release file names a family that is known.
pub open spec fn names_family(lines: Seq<Seq<char>>, line: int, word: int) -> bool {
    &&& 0 <= line < lines.len()
    &&& 0 <= word < family_words(lines[line]).len()
    &&& manager_of(text::ascii_lower(family_words(lines[line])[word])) is Some
}

proof fn lemma_first_manager(words: Seq<Seq<char>>, count: nat) -> (at: int)
    requires
        count <= words.len(),
    ensures
        first_manager(words, count) is None ==> forall|k: int|
            0 <= k < count ==> manager_of(text::ascii_lower(#[trigger] words[k])) is None,
        first_manager(words, count) is Some ==> 0 <= at < count && first_manager(words, count)
            == manager_of(text::ascii_lower(words[at])) && forall|k: int|
            0 <= k < at ==> manager_of(text::ascii_lower(#[trigger] words[k])) is None,
    decreases count,
{
    if count == 0 {
        0
    } else {
        let before = lemma_first_manager(words, (count - 1) as nat);
        if first_manager(words, (count - 1) as nat) is Some {
            before
        } else {
            count - 1
        }
    }
}

proof fn lemma_release_manager(lines: Seq<Seq<char>>, count: nat) -> (at: (int, int))
    requires
        count <= lines.len(),
    ensures
        release_manager(lines, count) is None ==> forall|i: int, j: int|
            i < count ==> !#[trigger] names_family(lines, i, j),
        release_manager(lines, count) is Some ==> {
            &&& at.0 < count
            &&& names_family(lines, at.0, at.1)
            &&& release_manager(lines, count) == manager_of(
                text::ascii_lower(family_words(lines[at.0])[at.1]),
            )
            &&& forall|i: int, j: int|
                #[trigger] names_family(lines, i, j) ==> at.0 < i || at.0 == i && at.1 <= j
        },
    decreases count,
{
    if count == 0 {
        (0, 0)
    } else {
        let before = lemma_release_manager(lines, (count - 1) as nat);
        let words = family_words(lines[count - 1]);
        let word = lemma_first_manager(words, words.len());
        if release_manager(lines, (count - 1) as nat) is Some {
            before
        } else {
            assert forall|i: int, j: int|
                i < count && #[trigger] names_family(lines, i, j) implies i == count - 1
                && first_manager(words, words.len()) is Some && word <= j by {
                assert(i == count - 1);
                assert(manager_of(text::ascii_lower(words[j])) is Some);
            }
            (count - 1, word)
        }
    }
}

/// The first word of the release file that names a family that is known
/// decides, and there is no answer exactly where none does.
pub proof fn the_first_family_that_is_known_decides(
    release: &str,
    manager: Option<PackageManager>,
    line: int,
    word: int,
)
    requires
        call_ensures(from_os_release, (release,), manager),
        names_family(text::line_list(release@), line, word),
        forall|i: int, j: int| #[trigger]
            names_family(text::line_list(release@), i, j) ==> line < i || line == i && word <= j,
    ensures
        manager == manager_of(
            text::ascii_lower(family_words(text::line_list(release@)[line])[word]),
        ),
        manager is Some,
{
    let lines = text::line_list(release@);
    let at = lemma_release_manager(lines, lines.len());
    assert(names_family(lines, line, word));
    assert(names_family(lines, at.0, at.1));
}

/// An unknown distribution gets no advice.
pub proof fn an_unknown_family_gets_no_answer(release: &str, manager: Option<PackageManager>)
    requires
        call_ensures(from_os_release, (release,), manager),
        forall|i: int, j: int| !#[trigger] names_family(text::line_list(release@), i, j),
    ensures
        manager is None,
{
    let lines = text::line_list(release@);
    let at = lemma_release_manager(lines, lines.len());
}

/// A 6502 board's compilers come from the manager that the system has, and
/// there is a hint exactly where it has one.
pub proof fn the_hint_is_for_this_system(
    host: Host,
    release: Option<&str>,
    read: Option<PackageManager>,
    hint: Option<String>,
    command: String,
)
    requires
        call_ensures(install_hint, (Board::Rosco6502, host, release), hint),
        release matches Some(release) ==> call_ensures(from_os_release, (release,), read),
        call_ensures(
            PackageManager::install,
            (
                if host == Host::MacOs {
                    PackageManager::Homebrew
                } else {
                    read->0
                },
                "cc65",
            ),
            command,
        ),
    ensures
        hint is Some <==> host == Host::MacOs || host == Host::Linux && release is Some && read
            is Some,
        hint matches Some(hint) ==> hint@ == command@,
{
}

/// A distribution is known by what it calls itself and by what it says it is
/// like, in capitals or not, and by nothing else that its release file says.
pub proof fn a_distribution_is_known_by_its_id(
    release: &str,
    key: Seq<char>,
    name: Seq<char>,
    manager: Option<PackageManager>,
)
    requires
        release@ == key.push('=') + name,
        !key.contains('='),
        !release@.contains('\n'),
        !name.contains('"'),
        forall|i: int| 0 <= i < name.len() ==> !text::is_white(#[trigger] name[i]),
        call_ensures(from_os_release, (release,), manager),
    ensures
        manager == if (key == "ID"@ || key == "ID_LIKE"@) && name.len() > 0 {
            manager_of(text::ascii_lower(name))
        } else {
            None
        },
{
    let lines = text::line_list(release@);
    text::lemma_only_line(release@);
    assert(release@[key.len() as int] == '=');
    assert(lines == seq![release@]);
    text::lemma_cut(key, '=', name);
    text::lemma_nothing_quoted(name);
    text::lemma_one_word(name);
    let words = family_words(release@);
    reveal_with_fuel(release_manager, 2);
    reveal_with_fuel(first_manager, 2);
    if key == "ID"@ || key == "ID_LIKE"@ {
        if name.len() > 0 {
            assert(words == seq![name]);
        } else {
            assert(words == Seq::<Seq<char>>::empty());
        }
    }
}

/// The m68k toolchain has one way to be installed, on every host but Windows.
pub proof fn the_m68k_hint_is_for_every_host_but_windows(
    host: Host,
    release: Option<&str>,
    hint: Option<String>,
    other_host: Host,
    other_release: Option<&str>,
    other: Option<String>,
)
    requires
        call_ensures(install_hint, (Board::RoscoM68k, host, release), hint),
        call_ensures(install_hint, (Board::RoscoM68k, other_host, other_release), other),
    ensures
        hint is None <==> host == Host::Windows,
        hint is Some && other is Some ==> hint->0@ == other->0@,
{
}

} // verus!
