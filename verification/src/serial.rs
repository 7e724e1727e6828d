//! Serial ports, and what passes over a console.
use vstd::prelude::*;
use vstd::string::*;

use crate::text;
use crate::text::{cat, chars_of, join, push_hex_word, push_text};

verus! {

/// A serial port as it is listed.
#[derive(Debug)]
pub struct PortSummary {
    pub name: String,
    pub kind: String,
    pub is_usb: bool,
}

/// What a USB adapter says of itself.
#[derive(Debug)]
pub struct UsbDetails {
    pub vid: u16,
    pub pid: u16,
    pub manufacturer: Option<String>,
    pub product: Option<String>,
    pub serial_number: Option<String>,
}

/// What a serial port is attached by.
#[derive(Debug)]
pub enum PortKind {
    Usb(UsbDetails),
    Bluetooth,
    Pci,
    Unknown,
}

/// A detail that says something.
pub open spec fn detail(words: Option<String>, before: Seq<char>) -> Seq<Seq<char>> {
    match words {
        Some(words) => if words@.len() > 0 {
            seq![before + words@]
        } else {
            Seq::empty()
        },
        None => Seq::empty(),
    }
}

/// How a port is described.
pub open spec fn port_words(kind: PortKind) -> Seq<char> {
    match kind {
        PortKind::Usb(usb) => text::joined(
            seq!["USB "@ + text::hex_word(usb.vid, true) + ":"@ + text::hex_word(usb.pid, true)]
                + detail(usb.manufacturer, Seq::empty()) + detail(usb.product, Seq::empty())
                + detail(usb.serial_number, "serial "@),
            " · "@,
        ),
        PortKind::Bluetooth => "Bluetooth"@,
        PortKind::Pci => "PCI"@,
        PortKind::Unknown => "Serial"@,
    }
}

fn push_detail(list: &mut Vec<String>, words: &Option<String>, before: &str)
    ensures
        text::views(final(list)@) == text::views(old(list)@) + detail(*words, before@),
{
    let ghost start = text::views(list@);
    if let Some(words) = words {
        if chars_of(words.as_str()).len() > 0 {
            push_text(list, cat(before, words.as_str()).as_str());
        }
    }
    assert(text::views(list@) == start + detail(*words, before@));
}

/// A port as it is listed.
pub fn summary(name: String, kind: &PortKind) -> (port: PortSummary)
    ensures
        port.name == name,
        port.kind@ == port_words(*kind),
        port.is_usb == (kind is Usb),
{
    match kind {
        PortKind::Usb(usb) => {
            let mut details: Vec<String> = Vec::new();
            let mut ids = "USB ".to_owned();
            push_hex_word(&mut ids, usb.vid, true);
            ids.append(":");
            push_hex_word(&mut ids, usb.pid, true);
            push_text(&mut details, ids.as_str());
            assert(text::views(details@) == seq![
                "USB "@ + text::hex_word(usb.vid, true) + ":"@ + text::hex_word(usb.pid, true),
            ]);
            proof {
                reveal_strlit("");
            }
            assert(""@ == Seq::<char>::empty());
            push_detail(&mut details, &usb.manufacturer, "");
            push_detail(&mut details, &usb.product, "");
            push_detail(&mut details, &usb.serial_number, "serial ");
            PortSummary { name, kind: join(&details, " · "), is_usb: true }
        },
        PortKind::Bluetooth => PortSummary { name, kind: "Bluetooth".to_owned(), is_usb: false },
        PortKind::Pci => PortSummary { name, kind: "PCI".to_owned(), is_usb: false },
        PortKind::Unknown => PortSummary { name, kind: "Serial".to_owned(), is_usb: false },
    }
}

/// What a console session is talking to, which decides how a quiet read and a
/// closed stream should be treated.
#[derive(Clone, Copy, Debug, PartialEq, Eq, Structural)]
pub enum ConsoleKind {
    /// A serial port: reads time out constantly and that is normal.
    Uart,
    /// The emulator over a socket: a closed stream means it exited.
    Emulator,
}

impl ConsoleKind {
    pub fn banner(self) -> (line: &'static str)
        ensures
            line@ == (match self {
                ConsoleKind::Uart => "Interactive UART session; press Ctrl-C to exit."@,
                ConsoleKind::Emulator => "Emulator console; press Ctrl-C to exit."@,
            }),
    {
        match self {
            ConsoleKind::Uart => "Interactive UART session; press Ctrl-C to exit.",
            ConsoleKind::Emulator => "Emulator console; press Ctrl-C to exit.",
        }
    }

    pub fn closing(self) -> (line: &'static str)
        ensures
            line@ == (match self {
                ConsoleKind::Uart => "\r\nUART session closed."@,
                ConsoleKind::Emulator => "\r\nEmulator stopped."@,
            }),
    {
        match self {
            ConsoleKind::Uart => "\r\nUART session closed.",
            ConsoleKind::Emulator => "\r\nEmulator stopped.",
        }
    }
}

pub const LINE_FEED: u8 = 0x0a;

pub const CARRIAGE_RETURN: u8 = 0x0d;

/// Ctrl-C and Ctrl-].
pub const INTERRUPT: u8 = 0x03;

pub const GROUP_SEPARATOR: u8 = 0x1d;

/// Whether some bytes end in a carriage return, or follow one.
pub open spec fn after_return(bytes: Seq<u8>, before: bool) -> bool {
    if bytes.len() == 0 {
        before
    } else {
        bytes.last() == CARRIAGE_RETURN
    }
}

/// Bytes as a terminal in raw mode has to be given them: a line feed also
/// takes the cursor back to the left, unless it has just been taken there.
pub open spec fn raw_bytes(bytes: Seq<u8>, before: bool) -> Seq<u8>
    decreases bytes.len(),
{
    if bytes.len() == 0 {
        Seq::empty()
    } else {
        let shown = raw_bytes(bytes.drop_last(), before);
        if bytes.last() == LINE_FEED && !after_return(bytes.drop_last(), before) {
            shown.push(CARRIAGE_RETURN).push(LINE_FEED)
        } else {
            shown.push(bytes.last())
        }
    }
}

/// What a read of the machine's end brought.
pub enum ConsoleRead {
    Bytes(Vec<u8>),
    /// The end of the stream, or nothing at all.
    Nothing,
    /// A read that timed out.
    Quiet,
    Failed(String),
}

/// What to do next.
pub enum ConsoleStep {
    /// Show these bytes and read on.
    Show(Vec<u8>),
    Continue,
    /// Stop, and say that the session is over.
    Close,
    Fail(String),
}

/// A console session.
pub struct Console {
    pub kind: ConsoleKind,
    /// Whether the terminal is in raw mode.
    pub raw: bool,
    /// Whether the last byte shown was a carriage return.
    pub returned: bool,
}

impl Console {
    pub fn new(kind: ConsoleKind, raw: bool) -> (console: Console)
        ensures
            console == (Console { kind, raw, returned: false }),
    {
        Console { kind, raw, returned: false }
    }

    /// Takes what was read from the machine's end. A serial port that says
    /// nothing simply had nothing to say; a socket is closed.
    pub fn read(&mut self, read: ConsoleRead) -> (step: ConsoleStep)
        ensures
            final(self).kind == old(self).kind,
            final(self).raw == old(self).raw,
            read !is Bytes ==> final(self).returned == old(self).returned,
            match read {
                ConsoleRead::Bytes(bytes) => step matches ConsoleStep::Show(shown) && {
                    if old(self).raw {
                        &&& shown@ == raw_bytes(bytes@, old(self).returned)
                        &&& final(self).returned == after_return(bytes@, old(self).returned)
                    } else {
                        &&& shown@ == bytes@
                        &&& final(self).returned == old(self).returned
                    }
                },
                ConsoleRead::Nothing => match old(self).kind {
                    ConsoleKind::Uart => step is Continue,
                    ConsoleKind::Emulator => step is Close,
                },
                ConsoleRead::Quiet => step is Continue,
                ConsoleRead::Failed(cause) => step matches ConsoleStep::Fail(words) && words@
                    == "console read failed: "@ + cause@,
            },
    {
        match read {
            ConsoleRead::Bytes(bytes) => {
                if !self.raw {
                    return ConsoleStep::Show(bytes);
                }
                let ghost before = self.returned;
                let mut shown: Vec<u8> = Vec::new();
                assert(shown@ == Seq::<u8>::empty());
                for i in 0..bytes.len()
                    invariant
                        shown@ == raw_bytes(bytes@.take(i as int), before),
                        self.returned == after_return(bytes@.take(i as int), before),
                        self.kind == old(self).kind,
                        self.raw == old(self).raw,
                {
                    assert(bytes@.take(i + 1).drop_last() == bytes@.take(i as int));
                    let byte: u8 = bytes[i];
                    if byte == LINE_FEED && !self.returned {
                        shown.push(CARRIAGE_RETURN);
                    }
                    shown.push(byte);
                    self.returned = byte == CARRIAGE_RETURN;
                }
                assert(bytes@.take(bytes@.len() as int) == bytes@);
                ConsoleStep::Show(shown)
            },
            ConsoleRead::Nothing => match self.kind {
                ConsoleKind::Uart => ConsoleStep::Continue,
                ConsoleKind::Emulator => ConsoleStep::Close,
            },
            ConsoleRead::Quiet => ConsoleStep::Continue,
            ConsoleRead::Failed(cause) => ConsoleStep::Fail(
                cat("console read failed: ", cause.as_str()),
            ),
        }
    }
}

/// Whether something typed asks to leave the session, in which case none of
/// it is passed on.
pub fn leaves(typed: &[u8]) -> (does: bool)
    ensures
        does == (typed@.contains(INTERRUPT) || typed@.contains(GROUP_SEPARATOR)),
{
    for i in 0..typed.len()
        invariant
            forall|j: int|
                0 <= j < i ==> typed@[j] != INTERRUPT && typed@[j] != GROUP_SEPARATOR,
    {
        if typed[i] == INTERRUPT || typed[i] == GROUP_SEPARATOR {
            return true;
        }
    }
    false
}

/// What is shown does not depend on how the machine's output was cut into
/// reads.
pub proof fn reads_can_be_cut_anywhere(first: Seq<u8>, second: Seq<u8>, before: bool)
    ensures
        raw_bytes(first + second, before) == raw_bytes(first, before) + raw_bytes(
            second,
            after_return(first, before),
        ),
        after_return(first + second, before) == after_return(second, after_return(first, before)),
    decreases second.len(),
{
    if second.len() > 0 {
        reads_can_be_cut_anywhere(first, second.drop_last(), before);
        assert((first + second).drop_last() == first + second.drop_last());
    } else {
        assert(first + second == first);
    }
}

/// Every line feed that is shown has a carriage return before it.
pub proof fn every_line_starts_at_the_left(bytes: Seq<u8>, before: bool, at: int)
    requires
        0 <= at < raw_bytes(bytes, before).len(),
        raw_bytes(bytes, before)[at] == LINE_FEED,
    ensures
        at > 0 ==> raw_bytes(bytes, before)[at - 1] == CARRIAGE_RETURN,
        at == 0 ==> before,
    decreases bytes.len(),
{
    let rest = bytes.drop_last();
    let shown = raw_bytes(rest, before);
    if at < shown.len() {
        every_line_starts_at_the_left(rest, before, at);
    } else {
        lemma_last_shown(rest, before);
    }
}

proof fn lemma_last_shown(bytes: Seq<u8>, before: bool)
    ensures
        raw_bytes(bytes, before).len() == 0 <==> bytes.len() == 0,
        bytes.len() > 0 ==> raw_bytes(bytes, before).last() == bytes.last(),
{
}

/// Some bytes without the carriage returns among them.
pub open spec fn without_returns(bytes: Seq<u8>) -> Seq<u8>
    decreases bytes.len(),
{
    if bytes.len() == 0 {
        Seq::empty()
    } else if bytes.last() == CARRIAGE_RETURN {
        without_returns(bytes.drop_last())
    } else {
        without_returns(bytes.drop_last()).push(bytes.last())
    }
}

/// Whether every line feed has a carriage return directly before it; `before`
/// says whether one came before the first byte.
pub open spec fn ends_every_line(bytes: Seq<u8>, before: bool) -> bool {
    forall|i: int|
        0 <= i < bytes.len() && (#[trigger] bytes[i]) == LINE_FEED ==> if i == 0 {
            before
        } else {
            bytes[i - 1] == CARRIAGE_RETURN
        }
}

proof fn lemma_nothing_lost(bytes: Seq<u8>, before: bool)
    ensures
        without_returns(raw_bytes(bytes, before)) == without_returns(bytes),
    decreases bytes.len(),
{
    if bytes.len() > 0 {
        let rest = bytes.drop_last();
        let shown = raw_bytes(rest, before);
        lemma_nothing_lost(rest, before);
        let returned = shown.push(CARRIAGE_RETURN);
        assert(returned.drop_last() == shown);
        assert(without_returns(returned) == without_returns(shown));
        assert(returned.push(LINE_FEED).drop_last() == returned);
        assert(shown.push(bytes.last()).drop_last() == shown);
    }
}

proof fn lemma_nothing_added(bytes: Seq<u8>, before: bool)
    requires
        ends_every_line(bytes, before),
    ensures
        raw_bytes(bytes, before) == bytes,
    decreases bytes.len(),
{
    if bytes.len() > 0 {
        let rest = bytes.drop_last();
        assert(ends_every_line(rest, before)) by {
            assert forall|i: int| 0 <= i < rest.len() && (#[trigger] rest[i]) == LINE_FEED implies if i
                == 0 {
                before
            } else {
                rest[i - 1] == CARRIAGE_RETURN
            } by {
                assert(bytes[i] == LINE_FEED);
            }
        }
        lemma_nothing_added(rest, before);
        assert(bytes.last() == LINE_FEED ==> after_return(rest, before)) by {
            if bytes.last() == LINE_FEED {
                assert(bytes[bytes.len() - 1] == LINE_FEED);
                if rest.len() > 0 {
                    assert(rest.last() == bytes[bytes.len() - 2]);
                }
            }
        }
        assert(rest.push(bytes.last()) == bytes);
    } else {
        assert(raw_bytes(bytes, before) == bytes);
    }
}

proof fn lemma_lines_ended(bytes: Seq<u8>, before: bool)
    ensures
        ends_every_line(raw_bytes(bytes, before), before),
{
    let shown = raw_bytes(bytes, before);
    assert forall|i: int| 0 <= i < shown.len() && (#[trigger] shown[i]) == LINE_FEED implies if i
        == 0 {
        before
    } else {
        shown[i - 1] == CARRIAGE_RETURN
    } by {
        every_line_starts_at_the_left(bytes, before, i);
    }
}

/// What a machine says is shown, all of it and nothing else: only carriage
/// returns are added, so that every line starts at the left, and none where
/// they already do.
pub proof fn what_a_machine_says_is_shown()
    ensures
        forall|console: &mut Console, bytes: Vec<u8>, step: ConsoleStep|
            #[trigger] call_ensures(Console::read, (console, ConsoleRead::Bytes(bytes)), step) ==> {
                &&& step is Show
                &&& !console.raw ==> step->Show_0@ == bytes@
                &&& console.raw ==> without_returns(step->Show_0@) == without_returns(bytes@)
                    && ends_every_line(step->Show_0@, console.returned)
                &&& ends_every_line(bytes@, console.returned) ==> step->Show_0@ == bytes@
            },
{
    assert forall|console: &mut Console, bytes: Vec<u8>, step: ConsoleStep|
        #[trigger] call_ensures(Console::read, (console, ConsoleRead::Bytes(bytes)), step) implies {
        &&& step is Show
        &&& !console.raw ==> step->Show_0@ == bytes@
        &&& console.raw ==> without_returns(step->Show_0@) == without_returns(bytes@)
            && ends_every_line(step->Show_0@, console.returned)
        &&& ends_every_line(bytes@, console.returned) ==> step->Show_0@ == bytes@
    } by {
        lemma_nothing_lost(bytes@, console.returned);
        lemma_lines_ended(bytes@, console.returned);
        if ends_every_line(bytes@, console.returned) {
            lemma_nothing_added(bytes@, console.returned);
        }
    }
}

/// A session remembers whether the last byte it showed on a raw terminal was a
/// carriage return, and nothing else of what passed.
pub proof fn a_session_remembers_the_last_byte()
    ensures
        forall|console: &mut Console, bytes: Vec<u8>, step: ConsoleStep|
            #[trigger] call_ensures(Console::read, (console, ConsoleRead::Bytes(bytes)), step)
                && console.raw && bytes@.len() > 0 ==> final(console).returned == (bytes@.last()
                == CARRIAGE_RETURN),
        forall|console: &mut Console, read: ConsoleRead, step: ConsoleStep|
            #[trigger] call_ensures(Console::read, (console, read), step) ==> final(console).kind
                == console.kind && final(console).raw == console.raw,
{
}

/// A session goes on through quiet reads, ends where the emulator hangs up but
/// not where a serial port has nothing to say, and fails where reading does.
pub proof fn a_session_ends_when_the_machine_is_gone()
    ensures
        forall|console: &mut Console, read: ConsoleRead, step: ConsoleStep|
            #[trigger] call_ensures(Console::read, (console, read), step) ==> {
                &&& step is Close <==> read is Nothing && console.kind == ConsoleKind::Emulator
                &&& step is Fail <==> read is Failed
                &&& step is Show <==> read is Bytes
                &&& step is Continue <==> read is Quiet || read is Nothing && console.kind
                    == ConsoleKind::Uart
            },
{
}

/// A port is the USB one exactly where it is attached that way, and what it is
/// called does not change.
pub proof fn a_port_keeps_its_name(name: String, kind: PortKind, port: PortSummary)
    requires
        call_ensures(summary, (name, &kind), port),
    ensures
        port.name@ == name@,
        port.is_usb <==> kind is Usb,
        kind matches PortKind::Usb(usb) ==> ("USB "@ + text::hex_word(usb.vid, true) + ":"@
            + text::hex_word(usb.pid, true)).is_prefix_of(port.kind@),
{
    if let PortKind::Usb(usb) = kind {
        let ids = "USB "@ + text::hex_word(usb.vid, true) + ":"@ + text::hex_word(usb.pid, true);
        let list = seq![ids] + detail(usb.manufacturer, Seq::empty()) + detail(
            usb.product,
            Seq::empty(),
        ) + detail(usb.serial_number, "serial "@);
        assert(list[0] == ids);
        lemma_joined_begins(list, " · "@);
    }
}

proof fn lemma_joined_begins(list: Seq<Seq<char>>, separator: Seq<char>)
    requires
        list.len() > 0,
    ensures
        list[0].is_prefix_of(text::joined(list, separator)),
    decreases list.len(),
{
    let whole = text::joined(list, separator);
    if list.len() > 1 {
        let shorter = list.drop_last();
        lemma_joined_begins(shorter, separator);
        let start = text::joined(shorter, separator);
        assert(whole == start + separator + list.last());
        assert(whole.take(list[0].len() as int) == start.take(list[0].len() as int));
    } else {
        reveal_with_fuel(text::joined, 2);
        assert(whole.take(list[0].len() as int) == list[0]);
    }
}

/// A detail of a USB adapter that says nothing is as good as none.
pub proof fn an_empty_detail_is_left_out(
    name: String,
    usb: UsbDetails,
    bare: UsbDetails,
    port: PortSummary,
    other: PortSummary,
)
    requires
        bare.vid == usb.vid,
        bare.pid == usb.pid,
        usb.manufacturer matches Some(words) ==> if words@.len() == 0 {
            bare.manufacturer is None
        } else {
            bare.manufacturer == usb.manufacturer
        },
        usb.manufacturer is None ==> bare.manufacturer is None,
        usb.product matches Some(words) ==> if words@.len() == 0 {
            bare.product is None
        } else {
            bare.product == usb.product
        },
        usb.product is None ==> bare.product is None,
        usb.serial_number matches Some(words) ==> if words@.len() == 0 {
            bare.serial_number is None
        } else {
            bare.serial_number == usb.serial_number
        },
        usb.serial_number is None ==> bare.serial_number is None,
        call_ensures(summary, (name, &PortKind::Usb(usb)), port),
        call_ensures(summary, (name, &PortKind::Usb(bare)), other),
    ensures
        port.kind@ == other.kind@,
{
}

} // verus!
