//! Loading a program into a rosco_6502 board through its firmware monitor.
//!
//! The 6502 firmware has no Kermit receiver. What it has is EWozMon's `L`
//! command, which reads Intel hex records straight into memory and answers
//! each accepted line with a full stop. That answer is the whole flow control
//! there is, so one record is sent at a time and the board is waited for.
use vstd::prelude::*;
use vstd::string::*;

use crate::kermit;
use crate::sender::TransferProgress;
use crate::text;
use crate::text::{
    cat, contains, decimal, keep_from_last, lossy_text, push_hex_byte, push_hex_word, trim,
};

verus! {

/// Bytes per record. Any more and a line grows past what the monitor's input
/// buffer will hold.
pub const RECORD_LENGTH: usize = 16;

/// The byte that accepts a record, a full stop.
pub const ACCEPTED: u8 = 0x2e;

/// The byte that rejects one, an `X`.
pub const REJECTED: u8 = 0x58;

pub const DATA_RECORD: u8 = 0x00;

pub const END_RECORD: u8 = 0x01;

/// The longest that the end of the board's report is waited for.
pub const REPORT_WAIT_MS: u64 = 2000;

#[derive(Clone, Copy, Debug)]
pub struct HexOptions {
    /// Where the program is loaded, and where it is started afterwards.
    pub load_address: u16,
    /// How long to wait for the monitor to answer.
    pub reply_timeout_ms: u64,
    /// How many times a record rejected for its checksum is sent again.
    pub max_retries: u32,
}

/// Bytes as hexadecimal digits, two for each.
pub open spec fn hex_bytes(bytes: Seq<u8>) -> Seq<char>
    decreases bytes.len(),
{
    if bytes.len() == 0 {
        Seq::empty()
    } else {
        hex_bytes(bytes.drop_last()) + text::hex_byte(bytes.last())
    }
}

/// What a record says, without its checksum: how much data there is, where it
/// goes, what kind of record it is, and the data.
pub open spec fn contents(address: u16, kind: u8, data: Seq<u8>) -> Seq<u8> {
    seq![data.len() as u8, (address / 256) as u8, (address % 256) as u8, kind] + data
}

/// The byte that brings the sum of a record to nothing, modulo 256.
pub open spec fn checksum(bytes: Seq<u8>) -> u8 {
    ((256 - kermit::byte_sum(bytes) % 256) % 256) as u8
}

/// A record as it is written.
pub open spec fn record_line(address: u16, kind: u8, data: Seq<u8>) -> Seq<char> {
    let bytes = contents(address, kind, data);
    seq![':'] + hex_bytes(bytes) + text::hex_byte(checksum(bytes))
}

/// How many records so many bytes take.
pub open spec fn record_count(length: nat) -> nat {
    (length + RECORD_LENGTH - 1) as nat / RECORD_LENGTH as nat
}

/// The bytes that one record carries.
pub open spec fn chunk(bytes: Seq<u8>, index: int) -> Seq<u8> {
    let from = index * RECORD_LENGTH;
    let to = from + RECORD_LENGTH;
    bytes.subrange(
        from,
        if to < bytes.len() {
            to
        } else {
            bytes.len() as int
        },
    )
}

/// Whether a program at an address stays below the top of memory.
pub open spec fn fits(length: nat, load_address: u16) -> bool {
    load_address + length <= 0x1_0000
}

/// The records that load `bytes` at `load_address`.
pub open spec fn record_lines(bytes: Seq<u8>, load_address: u16) -> Seq<Seq<char>> {
    Seq::new(
        record_count(bytes.len()),
        |i: int|
            record_line(
                (load_address + i * RECORD_LENGTH) as u16,
                DATA_RECORD,
                chunk(bytes, i),
            ),
    )
}

fn push_hex_bytes(line: &mut String, bytes: &Vec<u8>)
    ensures
        final(line)@ == old(line)@ + hex_bytes(bytes@),
{
    let ghost before = line@;
    for i in 0..bytes.len()
        invariant
            line@ == before + hex_bytes(bytes@.take(i as int)),
    {
        assert(bytes@.take(i + 1).drop_last() == bytes@.take(i as int));
        push_hex_byte(line, bytes[i]);
    }
    assert(bytes@.take(bytes@.len() as int) == bytes@);
}

/// One Intel hex record.
pub fn record(address: u16, kind: u8, data: &[u8]) -> (line: String)
    requires
        data@.len() <= 255,
    ensures
        line@ == record_line(address, kind, data@),
{
    let mut bytes: Vec<u8> = vec![
        data.len() as u8,
        (address / 256) as u8,
        (address % 256) as u8,
        kind,
    ];
    bytes.extend_from_slice(data);
    assert(bytes@ == contents(address, kind, data@));
    let mut sum: u8 = 0;
    for i in 0..bytes.len()
        invariant
            sum == kermit::byte_sum(bytes@.take(i as int)) % 256,
    {
        assert(bytes@.take(i + 1).drop_last() == bytes@.take(i as int));
        sum = sum.wrapping_add(bytes[i]);
    }
    assert(bytes@.take(bytes@.len() as int) == bytes@);
    let check: u8 = if sum == 0 {
        0
    } else {
        (256 - sum as u16) as u8
    };
    let mut line = String::new();
    line.push(':');
    assert(line@ == seq![':']);
    push_hex_bytes(&mut line, &bytes);
    push_hex_byte(&mut line, check);
    line
}

/// The record that ends a transfer.
pub fn end_of_file() -> (line: String)
    ensures
        line@ == record_line(0, END_RECORD, Seq::empty()),
{
    let none: Vec<u8> = Vec::new();
    record(0, END_RECORD, none.as_slice())
}

/// Why the board was not listened to any longer.
pub enum Wait {
    Lost(String),
    /// Nothing came for this many seconds.
    Silent(u64),
}

/// Why a program was not loaded.
pub enum LoadError {
    /// The file holds nothing.
    Empty(String),
    /// The program would run past the top of memory.
    TooLarge { length: usize, load_address: u16 },
    /// The monitor did not offer to read records.
    NoPrompt(Wait),
    /// A record was rejected so many times.
    Rejected(u64),
    /// The board went quiet between two records.
    Stopped,
    /// The wire failed between two records.
    Lost(String),
    /// The monitor did not say how the load went.
    NoReport(Wait),
    /// The monitor says that the load failed.
    Failed(String),
}

/// The Intel hex records for `bytes` loaded at `load_address`, without the
/// end-of-file record.
pub fn records(bytes: &[u8], load_address: u16) -> (lines: Result<Vec<String>, LoadError>)
    ensures
        lines is Ok <==> fits(bytes@.len(), load_address),
        lines matches Ok(lines) ==> text::views(lines@) == record_lines(bytes@, load_address),
        lines matches Err(error) ==> error == (LoadError::TooLarge {
            length: bytes@.len() as usize,
            load_address,
        }),
{
    let top: usize = 0x1_0000 - load_address as usize;
    if bytes.len() > top {
        return Err(LoadError::TooLarge { length: bytes.len(), load_address });
    }
    let mut lines: Vec<String> = Vec::new();
    let mut from: usize = 0;
    while from < bytes.len()
        invariant
            load_address + bytes@.len() <= 0x1_0000,
            from == lines@.len() * RECORD_LENGTH,
            lines@.len() <= record_count(bytes@.len()),
            forall|i: int|
                0 <= i < lines@.len() ==> (#[trigger] lines@[i])@ == record_lines(
                    bytes@,
                    load_address,
                )[i],
        decreases bytes@.len() + RECORD_LENGTH - from,
    {
        let left: usize = bytes.len() - from;
        let to: usize = if left > RECORD_LENGTH {
            from + RECORD_LENGTH
        } else {
            bytes.len()
        };
        let data = vstd::slice::slice_subrange(bytes, from, to);
        assert(data@ == chunk(bytes@, lines@.len() as int));
        let line = record(load_address + from as u16, DATA_RECORD, data);
        lines.push(line);
        from = from + RECORD_LENGTH;
    }
    assert(text::views(lines@) == record_lines(bytes@, load_address));
    Ok(lines)
}

/// The whole record, checksum included, sums to zero.
pub proof fn a_record_sums_to_zero(address: u16, kind: u8, data: Seq<u8>)
    ensures
        kermit::byte_sum(
            contents(address, kind, data).push(checksum(contents(address, kind, data))),
        ) % 256 == 0,
{
    let bytes = contents(address, kind, data);
    assert(bytes.push(checksum(bytes)).drop_last() == bytes);
}

/// The number that a capital hexadecimal digit stands for.
pub open spec fn hex_value(ch: char) -> int {
    if ch as u32 <= '9' as u32 {
        ch as u32 - '0' as u32
    } else {
        ch as u32 - 'A' as u32 + 10
    }
}

/// The bytes that pairs of hexadecimal digits stand for.
pub open spec fn read_hex(digits: Seq<char>) -> Seq<u8>
    decreases digits.len(),
{
    if digits.len() < 2 {
        Seq::empty()
    } else {
        let high = hex_value(digits[digits.len() - 2]);
        let low = hex_value(digits[digits.len() - 1]);
        read_hex(digits.take(digits.len() - 2)).push((high * 16 + low) as u8)
    }
}

proof fn lemma_read_hex(bytes: Seq<u8>)
    ensures
        read_hex(hex_bytes(bytes)) == bytes,
    decreases bytes.len(),
{
    if bytes.len() > 0 {
        lemma_read_hex(bytes.drop_last());
        let written = hex_bytes(bytes);
        assert(written.take(written.len() - 2) == hex_bytes(bytes.drop_last()));
        assert(bytes == bytes.drop_last().push(bytes.last()));
    }
}

/// Reading a record gives back where it goes, what it is and what it holds.
pub proof fn reading_undoes_writing(address: u16, kind: u8, data: Seq<u8>)
    ensures
        record_line(address, kind, data)[0] == ':',
        read_hex(record_line(address, kind, data).skip(1)) == contents(address, kind, data).push(
            checksum(contents(address, kind, data)),
        ),
{
    let bytes = contents(address, kind, data);
    let all = bytes.push(checksum(bytes));
    lemma_read_hex(all);
    assert(all.drop_last() == bytes);
    assert(record_line(address, kind, data).skip(1) == hex_bytes(all));
}

/// The data of the first `count` records, one after another.
pub open spec fn carried(bytes: Seq<u8>, count: nat) -> Seq<u8>
    decreases count,
{
    if count == 0 {
        Seq::empty()
    } else {
        carried(bytes, (count - 1) as nat) + chunk(bytes, count - 1)
    }
}

proof fn lemma_carried(bytes: Seq<u8>, count: nat)
    requires
        count <= record_count(bytes.len()),
    ensures
        carried(bytes, count) == bytes.take(
            if count * RECORD_LENGTH < bytes.len() {
                count * RECORD_LENGTH
            } else {
                bytes.len() as int
            },
        ),
    decreases count,
{
    if count > 0 {
        lemma_carried(bytes, (count - 1) as nat);
    }
}

/// The records of a program that fits carry all of it, in order, each no
/// longer than the monitor's buffer allows and each at the address where its
/// bytes belong.
pub proof fn records_carry_the_program(bytes: Seq<u8>, load_address: u16)
    requires
        fits(bytes.len(), load_address),
    ensures
        carried(bytes, record_count(bytes.len())) == bytes,
        forall|i: int|
            0 <= i < record_count(bytes.len()) ==> 1 <= (#[trigger] chunk(bytes, i)).len()
                <= RECORD_LENGTH && load_address + i * RECORD_LENGTH <= u16::MAX,
{
    lemma_carried(bytes, record_count(bytes.len()));
    assert(bytes.take(bytes.len() as int) == bytes);
}

/// Whether a line is a record that a monitor takes: a colon, and bytes in
/// hexadecimal of which the first counts the data and all add up to nothing,
/// modulo 256.
pub open spec fn is_record(line: Seq<char>) -> bool {
    let bytes = read_hex(line.skip(1));
    &&& line.len() == 1 + 2 * bytes.len()
    &&& line[0] == ':'
    &&& bytes.len() >= 5
    &&& bytes.len() == 5 + bytes[0]
    &&& kermit::total(bytes) % 256 == 0
}

/// What memory holds once a monitor has read a record: the data of one that
/// carries any, from the address it gives on.
pub open spec fn stored(memory: Map<int, u8>, line: Seq<char>) -> Map<int, u8> {
    let bytes = read_hex(line.skip(1));
    let address = bytes[1] * 256 + bytes[2];
    let data = bytes.subrange(4, bytes.len() - 1);
    if bytes[3] == 0 {
        memory.union_prefer_right(
            Map::new(
                |place: int| address <= place < address + data.len(),
                |place: int| data[place - address],
            ),
        )
    } else {
        memory
    }
}

/// What memory holds once a monitor has read some records.
pub open spec fn loaded(lines: Seq<Seq<char>>) -> Map<int, u8>
    decreases lines.len(),
{
    if lines.len() == 0 {
        Map::empty()
    } else {
        stored(loaded(lines.drop_last()), lines.last())
    }
}

/// A program in memory from an address on, and nothing else.
pub open spec fn in_memory(bytes: Seq<u8>, load_address: int) -> Map<int, u8> {
    Map::new(
        |place: int| load_address <= place < load_address + bytes.len(),
        |place: int| bytes[place - load_address],
    )
}

proof fn lemma_hex_length(bytes: Seq<u8>)
    ensures
        hex_bytes(bytes).len() == 2 * bytes.len(),
    decreases bytes.len(),
{
    if bytes.len() > 0 {
        lemma_hex_length(bytes.drop_last());
    }
}

/// What a monitor makes of a record.
proof fn lemma_stored(memory: Map<int, u8>, address: u16, data: Seq<u8>)
    requires
        data.len() <= 255,
    ensures
        is_record(record_line(address, DATA_RECORD, data)),
        stored(memory, record_line(address, DATA_RECORD, data)) == memory.union_prefer_right(
            in_memory(data, address as int),
        ),
{
    let line = record_line(address, DATA_RECORD, data);
    let said = contents(address, DATA_RECORD, data);
    let all = said.push(checksum(said));
    reading_undoes_writing(address, DATA_RECORD, data);
    a_record_sums_to_zero(address, DATA_RECORD, data);
    kermit::lemma_total(all);
    lemma_hex_length(said);
    assert(line.len() == 1 + 2 * all.len());
    assert(all[0] == data.len());
    assert(all[1] * 256 + all[2] == address);
    assert(all[3] == 0);
    assert(all.subrange(4, all.len() - 1) =~= data);
    assert(stored(memory, line) =~= memory.union_prefer_right(in_memory(data, address as int)));
}

proof fn lemma_loaded(bytes: Seq<u8>, load_address: u16, count: nat)
    requires
        fits(bytes.len(), load_address),
        count <= record_count(bytes.len()),
    ensures
        loaded(record_lines(bytes, load_address).take(count as int)) == in_memory(
            bytes.take(
                if count * RECORD_LENGTH < bytes.len() {
                    count * RECORD_LENGTH
                } else {
                    bytes.len() as int
                },
            ),
            load_address as int,
        ),
        forall|i: int|
            0 <= i < count ==> is_record(#[trigger] record_lines(bytes, load_address)[i]),
    decreases count,
{
    let lines = record_lines(bytes, load_address);
    let some = lines.take(count as int);
    if count == 0 {
        assert(loaded(some) =~= in_memory(bytes.take(0), load_address as int));
    } else {
        let fewer = (count - 1) as nat;
        lemma_loaded(bytes, load_address, fewer);
        assert(some.drop_last() == lines.take(fewer as int));
        let data = chunk(bytes, fewer as int);
        let address = (load_address + fewer * RECORD_LENGTH) as u16;
        assert(fewer * RECORD_LENGTH < bytes.len());
        assert(address == load_address + fewer * RECORD_LENGTH);
        lemma_stored(loaded(lines.take(fewer as int)), address, data);
        assert(some.last() == record_line(address, DATA_RECORD, data));
        let all = bytes.take(
            if count * RECORD_LENGTH < bytes.len() {
                count * RECORD_LENGTH
            } else {
                bytes.len() as int
            },
        );
        assert(loaded(some) =~= in_memory(all, load_address as int));
    }
}

/// The records of a program put it into memory: a monitor that reads them and
/// stores the data of each at the address that the record gives ends up with
/// the program from the load address on, and writes nothing anywhere else.
pub proof fn the_records_put_the_program_into_memory(
    bytes: &[u8],
    load_address: u16,
    lines: Vec<String>,
)
    requires
        call_ensures(records, (bytes, load_address), Ok::<Vec<String>, LoadError>(lines)),
    ensures
        loaded(text::views(lines@)) == in_memory(bytes@, load_address as int),
        forall|i: int| 0 <= i < lines@.len() ==> is_record((#[trigger] lines@[i])@),
        load_address + bytes@.len() <= 0x1_0000,
{
    let all = record_lines(bytes@, load_address);
    lemma_loaded(bytes@, load_address, record_count(bytes@.len()));
    assert(all.take(all.len() as int) == all);
    assert(bytes@.take(bytes@.len() as int) == bytes@);
    assert forall|i: int| 0 <= i < lines@.len() implies is_record((#[trigger] lines@[i])@) by {
        assert(text::views(lines@)[i] == all[i]);
    }
}

/// A program is refused just where it would run past the top of memory.
pub proof fn what_does_not_fit_is_refused(
    bytes: &[u8],
    load_address: u16,
    lines: Result<Vec<String>, LoadError>,
)
    requires
        call_ensures(records, (bytes, load_address), lines),
    ensures
        lines is Err <==> load_address + bytes@.len() > 0x1_0000,
{
}

/// A record stands for its address, its kind and its data alone: it is one
/// that a monitor takes, and stores nothing where it carries no data.
pub proof fn the_last_record_stores_nothing(line: String, memory: Map<int, u8>)
    requires
        call_ensures(end_of_file, (), line),
    ensures
        is_record(line@),
        read_hex(line@.skip(1)) == seq![0u8, 0, 0, 1, 0xff],
        stored(memory, line@) == memory,
{
    lemma_last_record();
}

proof fn lemma_last_record()
    ensures
        is_record(record_line(0, END_RECORD, Seq::empty())),
        read_hex(record_line(0, END_RECORD, Seq::empty()).skip(1)) == seq![0u8, 0, 0, 1, 0xff],
{
    let none = Seq::<u8>::empty();
    let said = contents(0, END_RECORD, none);
    let all = said.push(checksum(said));
    reading_undoes_writing(0, END_RECORD, none);
    a_record_sums_to_zero(0, END_RECORD, none);
    kermit::lemma_total(all);
    lemma_hex_length(said);
    reveal_with_fuel(kermit::byte_sum, 6);
    assert(said =~= seq![0u8, 0, 0, 1]);
    assert(said.drop_last() =~= seq![0u8, 0, 0]);
    assert(said.drop_last().drop_last() =~= seq![0u8, 0]);
    assert(said.drop_last().drop_last().drop_last() =~= seq![0u8]);
    assert(kermit::byte_sum(said) == 1);
    assert(all =~= seq![0u8, 0, 0, 1, 0xff]);
}

/// What the board is being waited for.
#[derive(Clone, Copy, Debug, PartialEq, Eq, Structural)]
pub enum LoadStage {
    /// The offer to read records.
    Prompt,
    /// The answer to one of them.
    Record,
    /// The report that follows the last.
    Report,
    /// The rest of that report.
    RestOfReport,
}

/// What a read of the console brought.
pub enum Heard {
    Bytes(Vec<u8>),
    Nothing,
    /// The wire failed, in the host's words.
    Lost(String),
}

/// What to do next.
pub enum LoadStep {
    /// Type these keys once the board is quiet, then listen on a new clock.
    Type(String),
    /// Write this text, then listen on a new clock.
    Write(String),
    /// Listen on.
    Listen,
    /// Listen on, on a clock that stops after so many milliseconds.
    ListenFor(u64),
    /// Type these keys and leave the board to it.
    Start(String),
    Fail(LoadError),
}

/// What to show, if anything, and then what to do.
pub struct LoadNext {
    pub progress: Option<TransferProgress>,
    pub step: LoadStep,
}

/// A load in progress.
pub struct Loader {
    pub name: String,
    /// How long the program is.
    pub total: usize,
    pub records: Vec<String>,
    pub options: HexOptions,
    pub stage: LoadStage,
    /// The record that is waiting for its answer.
    pub waiting: usize,
    /// How often it has been sent.
    pub attempts: u64,
    /// What the board has said since it was last given something to answer.
    pub seen: String,
}

/// How long the end of the report is waited for.
pub open spec fn report_wait(options: HexOptions) -> u64 {
    if options.reply_timeout_ms < REPORT_WAIT_MS {
        options.reply_timeout_ms
    } else {
        REPORT_WAIT_MS
    }
}

/// What has been seen, with what was just heard.
pub open spec fn seen_with(seen: Seq<char>, heard: Heard) -> Seq<char> {
    match heard {
        Heard::Bytes(bytes) => if bytes@.len() > 0 {
            seen + text::read_lossily(bytes@)
        } else {
            seen
        },
        _ => seen,
    }
}

/// Whether what was heard is this answer to a record.
pub open spec fn answers(heard: Heard, answer: u8) -> bool {
    heard matches Heard::Bytes(bytes) && bytes@ == seq![answer]
}

/// How many bytes have arrived once so many records have.
pub open spec fn bytes_sent(records: nat, total: usize) -> int {
    if records * RECORD_LENGTH < total {
        records * RECORD_LENGTH
    } else {
        total as int
    }
}

/// Whether `progress` says that the first records have arrived.
pub open spec fn shows(progress: Option<TransferProgress>, loader: &Loader, records: nat) -> bool {
    progress matches Some(shown) && shown.name@ == loader.name@ && shown.sent == bytes_sent(
        records,
        loader.total,
    ) && shown.total == loader.total
}

/// A line as the loader reads it: it finds the colon itself and stops at the
/// line feed.
pub open spec fn line_with_end(line: Seq<char>) -> Seq<char> {
    line + "\r\n"@
}

/// Whether `step` writes this record.
pub open spec fn writes_record(step: LoadStep, line: Seq<char>) -> bool {
    step matches LoadStep::Write(written) && written@ == line_with_end(line)
}

/// Whether `step` is what a report leads to: the program is started if the
/// report says that it arrived.
pub open spec fn concludes(step: LoadStep, seen: Seq<char>, options: HexOptions) -> bool {
    let report = text::from_last(seen, "Load "@);
    if text::occurs(report, "successful"@) {
        step matches LoadStep::Start(keys) && keys@ == text::hex_word(options.load_address, false)
            + "R\r"@
    } else {
        step matches LoadStep::Fail(LoadError::Failed(words)) && words@ == text::trimmed(report)
    }
}

/// Whether `step` is what a wait comes to when what it was for has not been
/// seen: listening on, or giving up.
pub open spec fn waits(step: LoadStep, heard: Heard, late: bool, options: HexOptions) -> bool {
    match step {
        LoadStep::Listen => heard !is Lost && !late,
        LoadStep::Fail(LoadError::NoPrompt(wait)) | LoadStep::Fail(LoadError::NoReport(wait)) => {
            wait == (match heard {
                Heard::Lost(words) => Wait::Lost(words),
                _ => Wait::Silent(options.reply_timeout_ms / 1000),
            }) && (heard is Lost || late)
        },
        _ => false,
    }
}

impl Loader {
    pub open spec fn wf(&self) -> bool {
        &&& self.records@.len() > 0
        &&& self.total > 0
        &&& (self.records@.len() - 1) * RECORD_LENGTH < self.total <= self.records@.len()
            * RECORD_LENGTH
        &&& self.stage == LoadStage::Prompt ==> !text::occurs(
            self.seen@,
            "Start Intel hex file load:"@,
        )
        &&& self.stage == LoadStage::Report ==> !text::occurs(self.seen@, "Load "@)
        &&& self.stage == LoadStage::Record ==> self.waiting < self.records@.len() && 1
            <= self.attempts <= self.options.max_retries + 1
    }

    /// The same program, loaded the same way.
    pub open spec fn same_load(&self, other: &Loader) -> bool {
        &&& self.name == other.name
        &&& self.total == other.total
        &&& self.records == other.records
        &&& self.options == other.options
    }

    /// Waiting for the answer to a record that has been sent so often.
    pub open spec fn at_record(&self, waiting: int, attempts: int) -> bool {
        &&& self.stage == LoadStage::Record
        &&& self.waiting == waiting
        &&& self.attempts == attempts
    }

    /// Whether `next` and the loader `after` it are what comes of hearing
    /// something.
    pub open spec fn hears(&self, heard: Heard, late: bool, next: LoadNext, after: Loader) -> bool {
        match self.stage {
            LoadStage::Prompt => {
                let seen = seen_with(self.seen@, heard);
                if text::occurs(seen, "Start Intel hex file load:"@) {
                    &&& shows(next.progress, self, 0)
                    &&& writes_record(next.step, self.records@[0]@)
                    &&& after.at_record(0, 1)
                } else {
                    &&& next.progress is None
                    &&& waits(next.step, heard, late, self.options)
                    &&& next.step is Fail ==> next.step->Fail_0 is NoPrompt
                    &&& after.stage == self.stage
                    &&& after.seen@ == seen
                }
            },
            LoadStage::Record => {
                let waiting = self.waiting;
                if answers(heard, ACCEPTED) {
                    &&& shows(next.progress, self, (waiting + 1) as nat)
                    &&& if waiting + 1 < self.records@.len() {
                        &&& writes_record(next.step, self.records@[waiting + 1]@)
                        &&& after.at_record(waiting + 1, 1)
                    } else {
                        &&& writes_record(
                            next.step,
                            record_line(0, END_RECORD, Seq::empty()),
                        )
                        &&& after.stage == LoadStage::Report
                        &&& after.seen@ == Seq::<char>::empty()
                    }
                } else {
                    &&& next.progress is None
                    &&& if answers(heard, REJECTED) {
                        if self.attempts <= self.options.max_retries {
                            &&& writes_record(
                                next.step,
                                self.records@[waiting as int]@,
                            )
                            &&& after.at_record(
                                waiting as int,
                                self.attempts + 1,
                            )
                        } else {
                            next.step == LoadStep::Fail(
                                LoadError::Rejected(
                                    (self.options.max_retries + 1) as u64,
                                ),
                            )
                        }
                    } else {
                        &&& next.step == (match heard {
                            Heard::Lost(words) => LoadStep::Fail(LoadError::Lost(words)),
                            _ => if late {
                                LoadStep::Fail(LoadError::Stopped)
                            } else {
                                LoadStep::Listen
                            },
                        })
                        &&& after.at_record(
                            waiting as int,
                            self.attempts as int,
                        )
                    }
                }
            },
            LoadStage::Report => {
                let seen = seen_with(self.seen@, heard);
                &&& next.progress is None
                &&& after.seen@ == seen
                &&& if text::occurs(seen, "Load "@) {
                    &&& after.stage == LoadStage::RestOfReport
                    &&& if report_wait(self.options) == 0 {
                        concludes(next.step, seen, self.options)
                    } else {
                        next.step == LoadStep::ListenFor(report_wait(self.options))
                    }
                } else {
                    &&& waits(next.step, heard, late, self.options)
                    &&& next.step is Fail ==> next.step->Fail_0 is NoReport
                    &&& after.stage == self.stage
                }
            },
            LoadStage::RestOfReport => {
                let seen = seen_with(self.seen@, heard);
                &&& next.progress is None
                &&& after.stage == self.stage
                &&& after.seen@ == seen
                &&& if heard is Lost || late || text::occurs(seen, "successful"@)
                    || text::occurs(seen, "error"@) {
                    concludes(next.step, seen, self.options)
                } else {
                    next.step == LoadStep::Listen
                }
            },
        }
    }
}

/// Begins to load `bytes` into the board: the monitor is asked to read
/// records. It has to be sitting at its prompt.
pub fn send_program(name: String, bytes: &[u8], options: HexOptions) -> (started: Result<
    (Loader, LoadStep),
    LoadError,
>)
    ensures
        started is Ok <==> bytes@.len() > 0 && fits(bytes@.len(), options.load_address),
        started matches Ok(started) ==> {
            &&& started.0.wf()
            &&& started.0.name == name
            &&& started.0.total == bytes@.len()
            &&& text::views(started.0.records@) == record_lines(bytes@, options.load_address)
            &&& started.0.options == options
            &&& started.0.stage == LoadStage::Prompt
            &&& started.0.seen@ == Seq::<char>::empty()
            &&& started.1 matches LoadStep::Type(keys) && keys@ == "L\r"@
        },
        started matches Err(error) ==> error == if bytes@.len() == 0 {
            LoadError::Empty(name)
        } else {
            LoadError::TooLarge {
                length: bytes@.len() as usize,
                load_address: options.load_address,
            }
        },
{
    if bytes.len() == 0 {
        return Err(LoadError::Empty(name));
    }
    let records = match records(bytes, options.load_address) {
        Ok(records) => records,
        Err(error) => {
            return Err(error);
        },
    };
    assert(records@.len() == text::views(records@).len());
    let seen = String::new();
    proof {
        reveal_strlit("Start Intel hex file load:");
    }
    let loader = Loader {
        name,
        total: bytes.len(),
        records,
        options,
        stage: LoadStage::Prompt,
        waiting: 0,
        attempts: 0,
        seen,
    };
    Ok((loader, LoadStep::Type("L\r".to_owned())))
}

impl Loader {
    /// How many bytes to read at once: the answer to a record is one byte.
    pub fn read_size(&self) -> (size: usize)
        ensures
            size == (if self.stage == LoadStage::Record {
                1usize
            } else {
                256usize
            }),
    {
        match self.stage {
            LoadStage::Record => 1,
            _ => 256,
        }
    }

    /// Takes what a read of the console brought; `late` says whether the
    /// clock has stopped.
    pub fn heard(&mut self, heard: Heard, late: bool) -> (next: LoadNext)
        requires
            old(self).wf(),
        ensures
            final(self).wf(),
            final(self).same_load(old(self)),
            old(self).hears(heard, late, next, *final(self)),
    {
        if let LoadStage::Record = self.stage {
            if answered(&heard, ACCEPTED) {
                let progress = self.progress(self.waiting + 1);
                if self.waiting + 1 < self.records.len() {
                    self.waiting = self.waiting + 1;
                    self.attempts = 1;
                    return LoadNext { progress, step: self.write_waiting() };
                }
                self.stage = LoadStage::Report;
                self.seen = String::new();
                proof {
                    reveal_strlit("Load ");
                }
                let line = cat(end_of_file().as_str(), "\r\n");
                return LoadNext { progress, step: LoadStep::Write(line) };
            }
            if answered(&heard, REJECTED) {
                if self.attempts <= self.options.max_retries as u64 {
                    self.attempts = self.attempts + 1;
                    return LoadNext { progress: None, step: self.write_waiting() };
                }
                let error = LoadError::Rejected(self.options.max_retries as u64 + 1);
                return LoadNext { progress: None, step: LoadStep::Fail(error) };
            }
            let step = match heard {
                Heard::Lost(words) => LoadStep::Fail(LoadError::Lost(words)),
                _ => if late {
                    LoadStep::Fail(LoadError::Stopped)
                } else {
                    LoadStep::Listen
                },
            };
            return LoadNext { progress: None, step };
        }
        if let Heard::Bytes(bytes) = &heard {
            if bytes.len() > 0 {
                self.seen.append(lossy_text(bytes.as_slice()).as_str());
            }
        }
        match self.stage {
            LoadStage::Prompt => {
                if contains(self.seen.as_str(), "Start Intel hex file load:") {
                    self.stage = LoadStage::Record;
                    self.waiting = 0;
                    self.attempts = 1;
                    let progress = self.progress(0);
                    return LoadNext { progress, step: self.write_waiting() };
                }
                let step = match self.waited(heard, late) {
                    Some(wait) => LoadStep::Fail(LoadError::NoPrompt(wait)),
                    None => LoadStep::Listen,
                };
                LoadNext { progress: None, step }
            },
            LoadStage::Report => {
                if contains(self.seen.as_str(), "Load ") {
                    self.stage = LoadStage::RestOfReport;
                    let wait: u64 = if self.options.reply_timeout_ms < REPORT_WAIT_MS {
                        self.options.reply_timeout_ms
                    } else {
                        REPORT_WAIT_MS
                    };
                    let step = if wait == 0 {
                        self.conclude()
                    } else {
                        LoadStep::ListenFor(wait)
                    };
                    return LoadNext { progress: None, step };
                }
                let step = match self.waited(heard, late) {
                    Some(wait) => LoadStep::Fail(LoadError::NoReport(wait)),
                    None => LoadStep::Listen,
                };
                LoadNext { progress: None, step }
            },
            _ => {
                let lost: bool = match heard {
                    Heard::Lost(_) => true,
                    _ => false,
                };
                let step = if lost || late || contains(self.seen.as_str(), "successful")
                    || contains(self.seen.as_str(), "error") {
                    self.conclude()
                } else {
                    LoadStep::Listen
                };
                LoadNext { progress: None, step }
            },
        }
    }

    fn progress(&self, records: usize) -> (progress: Option<TransferProgress>)
        requires
            self.wf(),
            records <= self.records@.len(),
        ensures
            shows(progress, self, records as nat),
    {
        let sent: usize = if records == self.records.len() {
            self.total
        } else {
            records * RECORD_LENGTH
        };
        Some(TransferProgress { name: self.name.clone(), sent, total: self.total })
    }

    fn write_waiting(&self) -> (step: LoadStep)
        requires
            self.waiting < self.records@.len(),
        ensures
            writes_record(step, self.records@[self.waiting as int]@),
    {
        LoadStep::Write(cat(self.records[self.waiting].as_str(), "\r\n"))
    }

    /// Why to stop listening, if it is time to.
    fn waited(&self, heard: Heard, late: bool) -> (wait: Option<Wait>)
        ensures
            wait == (match heard {
                Heard::Lost(words) => Some(Wait::Lost(words)),
                _ => if late {
                    Some(Wait::Silent(self.options.reply_timeout_ms / 1000))
                } else {
                    None
                },
            }),
    {
        match heard {
            Heard::Lost(words) => Some(Wait::Lost(words)),
            _ => if late {
                Some(Wait::Silent(self.options.reply_timeout_ms / 1000))
            } else {
                None
            },
        }
    }

    fn conclude(&self) -> (step: LoadStep)
        ensures
            concludes(step, self.seen@, self.options),
    {
        let report = keep_from_last(self.seen.as_str(), "Load ");
        if contains(report.as_str(), "successful") {
            let mut keys = String::new();
            assert(keys@ == Seq::<char>::empty());
            push_hex_word(&mut keys, self.options.load_address, false);
            keys.append("R\r");
            assert(keys@ == text::hex_word(self.options.load_address, false) + "R\r"@);
            LoadStep::Start(keys)
        } else {
            LoadStep::Fail(LoadError::Failed(trim(report.as_str())))
        }
    }
}

// ---------------------------------------------------------------------------
// Whole sessions
// ---------------------------------------------------------------------------

/// One turn of a session: what was heard, what came of it, and the loader
/// after it.
pub struct Turn {
    pub heard: Heard,
    pub late: bool,
    pub next: LoadNext,
    pub after: Loader,
}

/// A loader that has just begun to load `bytes`.
pub open spec fn begun(loader: Loader, bytes: Seq<u8>) -> bool {
    &&& loader.wf()
    &&& text::views(loader.records@) == record_lines(bytes, loader.options.load_address)
    &&& loader.stage == LoadStage::Prompt
}

/// The loader after some turns.
pub open spec fn loader_after(start: Loader, turns: Seq<Turn>) -> Loader {
    if turns.len() == 0 {
        start
    } else {
        turns.last().after
    }
}

/// Whether a step is the last one.
pub open spec fn ends(step: LoadStep) -> bool {
    step is Start || step is Fail
}

/// Whether turns follow one another, with nothing after the end.
pub open spec fn is_session(start: Loader, turns: Seq<Turn>) -> bool
    decreases turns.len(),
{
    if turns.len() == 0 {
        true
    } else {
        let before = turns.drop_last();
        let turn = turns.last();
        &&& is_session(start, before)
        &&& before.len() > 0 ==> !ends(before.last().next.step)
        &&& loader_after(start, before).hears(turn.heard, turn.late, turn.next, turn.after)
        &&& turn.after.wf()
        &&& turn.after.same_load(&loader_after(start, before))
    }
}

/// The last line that was written to the board.
pub open spec fn last_written(turns: Seq<Turn>) -> Seq<char>
    decreases turns.len(),
{
    if turns.len() == 0 {
        Seq::empty()
    } else {
        match turns.last().next.step {
            LoadStep::Write(line) => line@,
            _ => last_written(turns.drop_last()),
        }
    }
}

/// The lines that the board accepted, in order: each is the one that had just
/// been written when the answer came.
pub open spec fn accepted_lines(start: Loader, turns: Seq<Turn>) -> Seq<Seq<char>>
    decreases turns.len(),
{
    if turns.len() == 0 {
        Seq::empty()
    } else {
        let before = turns.drop_last();
        let lines = accepted_lines(start, before);
        if loader_after(start, before).stage == LoadStage::Record && answers(
            turns.last().heard,
            ACCEPTED,
        ) {
            lines.push(last_written(before))
        } else {
            lines
        }
    }
}

/// The lines of the first `count` records, as they are written.
pub open spec fn lines_of(records: Seq<String>, count: int) -> Seq<Seq<char>> {
    Seq::new(count as nat, |i: int| line_with_end(records[i]@))
}

/// What a session has come to, by the stage it is in.
spec fn come_to(start: Loader, turns: Seq<Turn>) -> bool {
    let loader = loader_after(start, turns);
    let lines = accepted_lines(start, turns);
    let count = start.records@.len() as int;
    match loader.stage {
        LoadStage::Prompt => lines == lines_of(start.records@, 0),
        LoadStage::Record => {
            &&& lines == lines_of(start.records@, loader.waiting as int)
            &&& last_written(turns) == line_with_end(start.records@[loader.waiting as int]@)
        },
        _ => {
            &&& lines == lines_of(start.records@, count)
            &&& last_written(turns) == line_with_end(record_line(0, END_RECORD, Seq::empty()))
        },
    }
}

proof fn lemma_session(start: Loader, turns: Seq<Turn>)
    requires
        start.wf(),
        start.stage == LoadStage::Prompt,
        is_session(start, turns),
    ensures
        loader_after(start, turns).wf(),
        loader_after(start, turns).same_load(&start),
        turns.len() == 0 || !(turns.last().next.step is Fail) ==> come_to(start, turns),
    decreases turns.len(),
{
    if turns.len() > 0 {
        let before = turns.drop_last();
        lemma_session(start, before);
        let loader = loader_after(start, before);
        let lines = accepted_lines(start, before);
        if loader.stage == LoadStage::Record {
            assert(lines.push(last_written(before)) == lines_of(
                start.records@,
                loader.waiting + 1,
            ));
        }
    } else {
        assert(accepted_lines(start, turns) == lines_of(start.records@, 0));
    }
}

/// A program is started only once the board has accepted every record of it,
/// each in its turn, and has reported that the load was successful. It is
/// started where it was loaded.
pub proof fn nothing_starts_that_was_not_loaded(start: Loader, bytes: Seq<u8>, turns: Seq<Turn>)
    requires
        begun(start, bytes),
        is_session(start, turns),
        turns.len() > 0,
        turns.last().next.step is Start,
    ensures
        ({
            let address = start.options.load_address;
            let lines = record_lines(bytes, address);
            &&& accepted_lines(start, turns) == Seq::new(
                lines.len(),
                |i: int| line_with_end(lines[i]),
            )
            &&& text::occurs(
                text::from_last(turns.last().after.seen@, "Load "@),
                "successful"@,
            )
            &&& turns.last().next.step->Start_0@ == text::hex_word(address, false) + "R\r"@
        }),
{
    let before = turns.drop_last();
    lemma_session(start, before);
    lemma_session(start, turns);
    let loader = loader_after(start, before);
    assert(loader.stage == LoadStage::Report || loader.stage == LoadStage::RestOfReport);
    let lines = record_lines(bytes, start.options.load_address);
    assert(lines_of(start.records@, start.records@.len() as int) == Seq::new(
        lines.len(),
        |i: int| line_with_end(lines[i]),
    )) by {
        assert forall|i: int| 0 <= i < lines.len() implies start.records@[i]@ == lines[i] by {
            assert(text::views(start.records@)[i] == start.records@[i]@);
        }
    }
}

proof fn lemma_hex_digit(digit: int)
    requires
        0 <= digit < 16,
    ensures
        hex_value(text::hex_digit(digit, false)) == digit,
{
}

proof fn lemma_word(word: u16)
    ensures
        ({
            let digits = text::hex_word(word, false);
            hex_value(digits[0]) * 4096 + hex_value(digits[1]) * 256 + hex_value(digits[2]) * 16
                + hex_value(digits[3]) == word
        }),
{
    let digits = text::hex_word(word, false);
    let number = word as int;
    assert(word / 4096 < 16 && (word / 4096) * 4096 + (word / 256 % 16) * 256 + (word / 16 % 16)
        * 16 + word % 16 == word) by (bit_vector);
    lemma_hex_digit(number / 4096);
    lemma_hex_digit(number / 256 % 16);
    lemma_hex_digit(number / 16 % 16);
    lemma_hex_digit(number % 16);
    assert(digits[0] == text::hex_digit(number / 4096, false));
    assert(digits[1] == text::hex_digit(number / 256 % 16, false));
    assert(digits[2] == text::hex_digit(number / 16 % 16, false));
    assert(digits[3] == text::hex_digit(number % 16, false));
}

/// Lines without the characters that end them.
pub open spec fn unended(lines: Seq<Seq<char>>) -> Seq<Seq<char>> {
    Seq::new(lines.len(), |i: int| lines[i].take(lines[i].len() - 2))
}

/// When a program is started it is in memory: what the board accepted puts it
/// there from the load address on and nothing anywhere else, the last line it
/// was given ends the load, and it is told to run from that very address.
pub proof fn a_started_program_is_in_memory(
    name: String,
    bytes: &[u8],
    options: HexOptions,
    began: (Loader, LoadStep),
    turns: Seq<Turn>,
)
    requires
        call_ensures(
            send_program,
            (name, bytes, options),
            Ok::<(Loader, LoadStep), LoadError>(began),
        ),
        is_session(began.0, turns),
        turns.len() > 0,
        turns.last().next.step is Start,
    ensures
        loaded(unended(accepted_lines(began.0, turns))) == in_memory(
            bytes@,
            options.load_address as int,
        ),
        ({
            let last = last_written(turns);
            read_hex(last.subrange(1, last.len() - 2)) == seq![0u8, 0, 0, 1, 0xff]
        }),
        ({
            let keys = turns.last().next.step->Start_0@;
            &&& keys.len() == 6
            &&& hex_value(keys[0]) * 4096 + hex_value(keys[1]) * 256 + hex_value(keys[2]) * 16
                + hex_value(keys[3]) == options.load_address
            &&& keys[4] == 'R' && keys[5] == '\r'
        }),
{
    let start = began.0;
    let lines = record_lines(bytes@, options.load_address);
    nothing_starts_that_was_not_loaded(start, bytes@, turns);
    lemma_loaded(bytes@, options.load_address, record_count(bytes@.len()));
    assert(lines.take(lines.len() as int) == lines);
    assert(bytes@.take(bytes@.len() as int) == bytes@);
    reveal_strlit("\r\n");
    reveal_strlit("R\r");
    let accepted = accepted_lines(start, turns);
    assert forall|i: int| 0 <= i < lines.len() implies #[trigger] unended(accepted)[i]
        == lines[i] by {
        assert(accepted[i] == lines[i] + "\r\n"@);
        assert(accepted[i].take(accepted[i].len() - 2) =~= lines[i]);
    }
    assert(unended(accepted) =~= lines);
    let before = turns.drop_last();
    lemma_session(start, before);
    lemma_session(start, turns);
    let end = record_line(0, END_RECORD, Seq::empty());
    lemma_last_record();
    assert(last_written(turns) == end + "\r\n"@);
    assert((end + "\r\n"@).subrange(1, end.len() + 2 - 2) =~= end.skip(1));
    lemma_word(options.load_address);
}

/// Whether what a loader hears is what it is waiting for: the offer to read
/// records, the answer that one was accepted, the report of success.
pub open spec fn obliges(loader: Loader, heard: Heard) -> bool {
    let seen = seen_with(loader.seen@, heard);
    match loader.stage {
        LoadStage::Prompt => text::occurs(seen, "Start Intel hex file load:"@),
        LoadStage::Record => answers(heard, ACCEPTED),
        _ => text::occurs(seen, "Load "@) && text::occurs(
            text::from_last(seen, "Load "@),
            "successful"@,
        ),
    }
}

/// Whether the board obliges in every turn.
pub open spec fn obliging(start: Loader, turns: Seq<Turn>) -> bool
    decreases turns.len(),
{
    turns.len() == 0 || (obliging(start, turns.drop_last()) && obliges(
        loader_after(start, turns.drop_last()),
        turns.last().heard,
    ))
}

/// How many turns lead to where a loader is when each of them was obliging.
spec fn turns_to(loader: Loader) -> int {
    match loader.stage {
        LoadStage::Prompt => 0,
        LoadStage::Record => 1 + loader.waiting,
        LoadStage::Report => 1 + loader.records@.len() as int,
        LoadStage::RestOfReport => 2 + loader.records@.len() as int,
    }
}

proof fn lemma_occurs_in_rest(whole: Seq<char>, mark: Seq<char>, part: Seq<char>)
    requires
        text::occurs(text::from_last(whole, mark), part),
    ensures
        text::occurs(whole, part),
    decreases whole.len(),
{
    if whole.len() > 0 && text::occurs(whole.drop_first(), mark) {
        let rest = whole.drop_first();
        lemma_occurs_in_rest(rest, mark, part);
        let at = choose|at: int| text::occurs_at(rest, part, at);
        assert(rest.subrange(at, at + part.len()) == whole.subrange(at + 1, at + 1 + part.len()));
        assert(text::occurs_at(whole, part, at + 1));
    }
}

proof fn lemma_obliging(start: Loader, turns: Seq<Turn>)
    requires
        start.wf(),
        start.stage == LoadStage::Prompt,
        is_session(start, turns),
        obliging(start, turns),
    ensures
        turns.len() == 0 || !(turns.last().next.step is Fail),
        turns.len() > 0 && turns.last().next.step is Start ==> turns.len() <= start.records@.len()
            + 3,
        turns.len() == 0 || !(turns.last().next.step is Start) ==> turns.len() == turns_to(
            loader_after(start, turns),
        ),
    decreases turns.len(),
{
    if turns.len() > 0 {
        let before = turns.drop_last();
        lemma_session(start, before);
        lemma_obliging(start, before);
        let loader = loader_after(start, before);
        if loader.stage == LoadStage::Report || loader.stage == LoadStage::RestOfReport {
            let seen = seen_with(loader.seen@, turns.last().heard);
            lemma_occurs_in_rest(seen, "Load "@, "successful"@);
        }
    }
}

/// A board that offers to read, accepts every record and reports success is
/// never failed, and its program is started after one turn for each record
/// and three more at most.
pub proof fn an_obliging_board_runs_the_program(start: Loader, turns: Seq<Turn>)
    requires
        start.wf(),
        start.stage == LoadStage::Prompt,
        is_session(start, turns),
        obliging(start, turns),
        turns.len() > 0,
    ensures
        !(turns.last().next.step is Fail),
        turns.len() <= start.records@.len() + 3,
        turns.len() == start.records@.len() + 3 ==> turns.last().next.step is Start,
{
    lemma_session(start, turns);
    lemma_obliging(start, turns);
}

/// A record that the board could not read is written again as it was, and given
/// up on once it has been written so often: that is what the board's user is
/// told.
pub proof fn a_record_is_written_so_often_and_no_more()
    ensures
        forall|loader: &mut Loader, bytes: Vec<u8>, late: bool, next: LoadNext|
            #[trigger] call_ensures(Loader::heard, (loader, Heard::Bytes(bytes), late), next)
                && loader.stage == LoadStage::Record && bytes@ == seq![REJECTED] ==> {
                &&& next.progress is None
                &&& loader.attempts <= loader.options.max_retries ==> {
                    &&& next.step matches LoadStep::Write(text) && text@
                        == loader.records@[loader.waiting as int]@ + "\r\n"@
                    &&& final(loader).waiting == loader.waiting
                    &&& final(loader).attempts == loader.attempts + 1
                }
                &&& next.step matches LoadStep::Fail(LoadError::Rejected(times)) ==> times
                    == loader.options.max_retries + 1 && loader.attempts >= times
                &&& next.step is Write || next.step is Fail
            },
{
    assert(seq![ACCEPTED][0] != seq![REJECTED][0]);
}

/// An accepted record brings the next one, or ends the load behind the last,
/// and everything up to it is shown as sent: all of the program exactly once
/// its last record was accepted.
pub proof fn an_accepted_record_brings_the_next()
    ensures
        forall|loader: &mut Loader, bytes: Vec<u8>, late: bool, next: LoadNext|
            #[trigger] call_ensures(Loader::heard, (loader, Heard::Bytes(bytes), late), next)
                && loader.wf() && loader.stage == LoadStage::Record && bytes@ == seq![ACCEPTED]
                ==> {
                let last = loader.records@.len() - 1;
                &&& next.step is Write
                &&& next.progress matches Some(shown) && {
                    &&& shown.total == loader.total
                    &&& shown.sent <= shown.total
                    &&& shown.sent == shown.total <==> loader.waiting == last
                    &&& loader.waiting < last ==> shown.sent == 16 * (loader.waiting + 1)
                }
                &&& loader.waiting < last ==> final(loader).waiting == loader.waiting + 1
                    && final(loader).attempts == 1 && final(loader).stage == LoadStage::Record
                    && next.step->Write_0@ == loader.records@[loader.waiting + 1]@ + "\r\n"@
                &&& loader.waiting == last ==> final(loader).stage == LoadStage::Report
            },
{
    assert forall|loader: &mut Loader, bytes: Vec<u8>, late: bool, next: LoadNext|
        #[trigger] call_ensures(Loader::heard, (loader, Heard::Bytes(bytes), late), next)
            && loader.wf() && loader.stage == LoadStage::Record && bytes@
            == seq![ACCEPTED] implies ({
        let last = loader.records@.len() - 1;
        &&& next.step is Write
        &&& next.progress matches Some(shown) && {
            &&& shown.total == loader.total
            &&& shown.sent <= shown.total
            &&& shown.sent == shown.total <==> loader.waiting == last
            &&& loader.waiting < last ==> shown.sent == 16 * (loader.waiting + 1)
        }
        &&& loader.waiting < last ==> final(loader).waiting == loader.waiting + 1
            && final(loader).attempts == 1 && final(loader).stage == LoadStage::Record
            && next.step->Write_0@ == loader.records@[loader.waiting + 1]@ + "\r\n"@
        &&& loader.waiting == last ==> final(loader).stage == LoadStage::Report
    }) by {
        let count: int = loader.records@.len() as int;
        let waiting: int = loader.waiting as int;
        assert((waiting + 1) * 16 <= (count - 1) * 16 || waiting + 1 >= count) by (nonlinear_arith);
    }
}

/// While an answer is waited for, anything else the board says changes nothing:
/// it is listened to until the clock stops, and only then given up on.
pub proof fn other_talk_changes_nothing()
    ensures
        forall|loader: &mut Loader, bytes: Vec<u8>, late: bool, next: LoadNext|
            #[trigger] call_ensures(Loader::heard, (loader, Heard::Bytes(bytes), late), next)
                && loader.stage == LoadStage::Record && bytes@ != seq![ACCEPTED] && bytes@
                != seq![REJECTED] ==> {
                &&& next.progress is None
                &&& next.step is Listen <==> !late
                &&& late ==> next.step == LoadStep::Fail(LoadError::Stopped)
                &&& final(loader).stage == loader.stage
                &&& final(loader).waiting == loader.waiting
                &&& final(loader).attempts == loader.attempts
            },
{
}

/// A load never changes what is loaded, nor how.
pub proof fn a_load_keeps_its_program()
    ensures
        forall|loader: &mut Loader, heard: Heard, late: bool, next: LoadNext|
            #[trigger] call_ensures(Loader::heard, (loader, heard, late), next) ==> {
                &&& final(loader).records@ == loader.records@
                &&& final(loader).total == loader.total
                &&& final(loader).name@ == loader.name@
                &&& final(loader).options == loader.options
            },
{
}

fn answered(heard: &Heard, answer: u8) -> (is: bool)
    ensures
        is == answers(*heard, answer),
{
    match heard {
        Heard::Bytes(bytes) => {
            let is: bool = bytes.len() == 1 && bytes[0] == answer;
            assert(is ==> bytes@ == seq![answer]);
            is
        },
        _ => false,
    }
}

impl Wait {
    pub open spec fn words(&self) -> Seq<char> {
        match self {
            Wait::Lost(cause) => "could not read from the board: "@ + cause@,
            Wait::Silent(seconds) => "nothing came back within "@ + text::digits(*seconds as nat)
                + " seconds"@,
        }
    }

    fn message(&self) -> (message: String)
        ensures
            message@ == self.words(),
    {
        match self {
            Wait::Lost(cause) => cat("could not read from the board: ", cause.as_str()),
            Wait::Silent(seconds) => {
                let mut message = cat("nothing came back within ", decimal(*seconds).as_str());
                message.append(" seconds");
                message
            },
        }
    }
}

impl LoadError {
    /// What is said of a load that did not happen.
    pub open spec fn words(&self) -> Seq<char> {
        match self {
            LoadError::Empty(name) => name@ + " is empty, so there is nothing to load"@,
            LoadError::TooLarge { length, load_address } => {
                "the program does not fit in memory: "@ + text::digits(*length as nat)
                    + " bytes at $"@ + text::hex_word(*load_address, false)
                    + " would run past $FFFF"@
            },
            LoadError::NoPrompt(wait) => {
                "the board did not offer to read a hex file. It has to be at the monitor prompt: press reset, or Ctrl-C out of a running program: "@
                    + wait.words()
            },
            LoadError::Rejected(times) => {
                "the board reported a checksum error on the same record "@ + text::digits(
                    *times as nat,
                ) + " times; try a lower serial.baud"@
            },
            LoadError::Stopped => "the board stopped answering part-way through the transfer"@,
            LoadError::Lost(cause) => "could not read from the board: "@ + cause@,
            LoadError::NoReport(wait) => "the board did not say how the load went: "@
                + wait.words(),
            LoadError::Failed(report) => "the board rejected the transfer: "@ + report@,
        }
    }

    pub fn message(&self) -> (message: String)
        ensures
            message@ == self.words(),
    {
        match self {
            LoadError::Empty(name) => cat(
                name.as_str(),
                " is empty, so there is nothing to load",
            ),
            LoadError::TooLarge { length, load_address } => {
                let mut message = cat(
                    "the program does not fit in memory: ",
                    decimal(*length as u64).as_str(),
                );
                message.append(" bytes at $");
                push_hex_word(&mut message, *load_address, false);
                message.append(" would run past $FFFF");
                message
            },
            LoadError::NoPrompt(wait) => cat(
                "the board did not offer to read a hex file. It has to be at the monitor prompt: press reset, or Ctrl-C out of a running program: ",
                wait.message().as_str(),
            ),
            LoadError::Rejected(times) => {
                let mut message = cat(
                    "the board reported a checksum error on the same record ",
                    decimal(*times).as_str(),
                );
                message.append(" times; try a lower serial.baud");
                message
            },
            LoadError::Stopped => {
                "the board stopped answering part-way through the transfer".to_owned()
            },
            LoadError::Lost(cause) => cat("could not read from the board: ", cause.as_str()),
            LoadError::NoReport(wait) => cat(
                "the board did not say how the load went: ",
                wait.message().as_str(),
            ),
            LoadError::Failed(report) => cat(
                "the board rejected the transfer: ",
                report.as_str(),
            ),
        }
    }
}

} // verus!
