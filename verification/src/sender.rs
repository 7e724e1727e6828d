//! A Kermit transfer from Send-Init to Break, as a state machine.
//!
//! The machine says which packet to write and is told what came back. Whoever
//! runs it owns the wire, the clock and the cancel button; what is sent, how
//! often, and what counts as an answer is decided here.
use vstd::prelude::*;
use vstd::string::*;

use crate::kermit;
use crate::kermit::{
    build_packet, check_len, encode_byte, unchar, PacketFault, Params, RxPacket, CHECK_ONE,
    CHECK_THREE,
};
use crate::text;
use crate::text::{cat, decimal, lossy_text};

verus! {

#[derive(Clone, Copy, Debug)]
pub struct KermitOptions {
    /// How many times a packet is sent before giving up; none counts as one.
    pub max_retries: u32,
    /// How long to wait for an answer to it.
    pub packet_timeout_ms: u64,
}

#[derive(Clone, Debug, Eq, PartialEq)]
pub struct TransferProgress {
    pub name: String,
    pub sent: usize,
    pub total: usize,
}

/// `Y`, which acknowledges a packet and, in a Send-Init, takes any quote.
pub const ACKNOWLEDGE: u8 = 0x59;

/// `E`, which reports an error.
pub const ERROR: u8 = 0x45;

/// `S`, `F`, `D`, `Z` and `B`, in the order a transfer sends them.
pub const SEND_INIT: u8 = 0x53;

pub const FILE_HEADER: u8 = 0x46;

pub const DATA: u8 = 0x44;

pub const END_OF_FILE: u8 = 0x5a;

pub const BREAK: u8 = 0x42;

/// `#`, the quote for control characters.
pub const CONTROL_QUOTE: u8 = 0x23;

pub const CARRIAGE_RETURN: u8 = 0x0d;

pub const SPACE: u8 = 0x20;

pub const NO: u8 = 0x4e;

// ---------------------------------------------------------------------------
// Negotiation
// ---------------------------------------------------------------------------

/// What an answer to Send-Init settles, with a default for everything it
/// leaves out.
pub open spec fn negotiated(data: Seq<u8>) -> Params {
    Params {
        maxl: if data.len() > 0 && kermit::unchar_of(data[0]) > 0 {
            if kermit::unchar_of(data[0]) < 94 {
                kermit::unchar_of(data[0]) as usize
            } else {
                94
            }
        } else {
            80
        },
        npad: if data.len() > 2 {
            kermit::unchar_of(data[2]) as usize
        } else {
            0
        },
        padc: if data.len() > 3 {
            data[3] ^ 0x40
        } else {
            0
        },
        eol: if data.len() > 4 && kermit::unchar_of(data[4]) != 0 {
            kermit::unchar_of(data[4])
        } else {
            CARRIAGE_RETURN
        },
        qctl: CONTROL_QUOTE,
        qbin: if data.len() > 6 && 33 <= data[6] <= 126 && data[6] != ACKNOWLEDGE && data[6]
            != NO {
            Some(data[6])
        } else {
            None
        },
        chkt: if data.len() > 7 && CHECK_ONE <= data[7] <= CHECK_THREE {
            data[7]
        } else {
            CHECK_ONE
        },
    }
}

/// Reads an answer to Send-Init.
pub fn parse_params(data: &[u8]) -> (params: Params)
    ensures
        params == negotiated(data@),
{
    let mut maxl: usize = 80;
    if data.len() > 0 {
        let length: u8 = unchar(data[0]);
        if length > 0 {
            maxl = if length < 94 { length as usize } else { 94 };
        }
    }
    let npad: usize = if data.len() > 2 { unchar(data[2]) as usize } else { 0 };
    let padc: u8 = if data.len() > 3 { kermit::ctl(data[3]) } else { 0 };
    let mut eol: u8 = CARRIAGE_RETURN;
    if data.len() > 4 {
        let given: u8 = unchar(data[4]);
        if given != 0 {
            eol = given;
        }
    }
    let qbin: Option<u8> = if data.len() > 6 && 33 <= data[6] && data[6] <= 126 && data[6]
        != ACKNOWLEDGE && data[6] != NO {
        Some(data[6])
    } else {
        None
    };
    let chkt: u8 = if data.len() > 7 && CHECK_ONE <= data[7] && data[7] <= CHECK_THREE {
        data[7]
    } else {
        CHECK_ONE
    };
    Params { maxl, eol, qctl: CONTROL_QUOTE, qbin, chkt, npad, padc }
}

/// What is in force before anything has been negotiated.
pub open spec fn before_negotiation() -> Params {
    Params {
        maxl: 94,
        eol: CARRIAGE_RETURN,
        qctl: CONTROL_QUOTE,
        qbin: None,
        chkt: CHECK_ONE,
        npad: 0,
        padc: 0,
    }
}

/// What Send-Init asks for: packets of 80 characters answered within five
/// seconds, no padding, lines that end in a carriage return, `#` to quote
/// control characters, any quote for bit 7, the simplest check, no repeats.
pub open spec fn send_init_data() -> Seq<u8> {
    seq![112, 37, 32, 64, 45, CONTROL_QUOTE, ACKNOWLEDGE, CHECK_ONE, SPACE]
}

/// How many characters of data go into a packet.
pub open spec fn room(params: Params) -> nat {
    let left = params.maxl - (kermit::check_length(params.chkt) + 2);
    if left < 4 {
        4
    } else {
        left as nat
    }
}

fn room_for_data(params: &Params) -> (budget: usize)
    ensures
        budget == room(*params),
{
    let overhead: usize = check_len(params.chkt) + 2;
    if params.maxl < overhead + 4 {
        4
    } else {
        params.maxl - overhead
    }
}

// ---------------------------------------------------------------------------
// Cutting a file into packets
// ---------------------------------------------------------------------------

/// Where the packet that starts at `from` ends: bytes are added while there
/// is room left for the longest one.
pub open spec fn chunk_end(bytes: Seq<u8>, from: int, at: int, params: Params) -> int
    decreases bytes.len() - at,
{
    if 0 <= from <= at < bytes.len() && kermit::encoded(bytes.subrange(from, at), params).len() + 4 <= room(
        params,
    ) {
        chunk_end(bytes, from, at + 1, params)
    } else {
        at
    }
}

/// Where the data packet numbered `number`, counting from none, starts.
pub open spec fn chunk_start(bytes: Seq<u8>, params: Params, number: nat) -> int
    decreases number,
{
    if number == 0 {
        0
    } else {
        let from = chunk_start(bytes, params, (number - 1) as nat);
        chunk_end(bytes, from, from, params)
    }
}

/// What the data packet numbered `number` carries.
pub open spec fn chunk_data(bytes: Seq<u8>, params: Params, number: nat) -> Seq<u8> {
    kermit::encoded(
        bytes.subrange(
            chunk_start(bytes, params, number),
            chunk_start(bytes, params, number + 1),
        ),
        params,
    )
}

/// What a receiver has after the first `count` data packets.
pub open spec fn received(bytes: Seq<u8>, params: Params, count: nat) -> Option<Seq<u8>>
    decreases count,
{
    if count == 0 {
        Some(seq![])
    } else {
        match (
            received(bytes, params, (count - 1) as nat),
            kermit::decoded(chunk_data(bytes, params, (count - 1) as nat), params),
        ) {
            (Some(before), Some(more)) => Some(before + more),
            _ => None,
        }
    }
}

proof fn lemma_encoded_byte_length(byte: u8, params: Params)
    ensures
        1 <= kermit::encoded_byte(byte, params).len() <= 3,
{
}

proof fn lemma_chunk_end(bytes: Seq<u8>, from: int, at: int, params: Params)
    requires
        0 <= from <= at <= bytes.len(),
        kermit::encoded(bytes.subrange(from, at), params).len() + 1 <= room(params),
    ensures
        at <= chunk_end(bytes, from, at, params) <= bytes.len(),
        from == at && at < bytes.len() ==> from < chunk_end(bytes, from, at, params),
        kermit::encoded(bytes.subrange(from, chunk_end(bytes, from, at, params)), params).len() + 1
            <= room(params),
    decreases bytes.len() - at,
{
    if at < bytes.len() && kermit::encoded(bytes.subrange(from, at), params).len() + 4 <= room(params) {
        lemma_encoded_byte_length(bytes[at], params);
        assert(bytes.subrange(from, at + 1).drop_last() == bytes.subrange(from, at));
        lemma_chunk_end(bytes, from, at + 1, params);
    } else if from == at {
        assert(bytes.subrange(from, at).len() == 0);
    }
}

/// Chunks follow one another without a gap and each moves on.
proof fn lemma_chunk_start(bytes: Seq<u8>, params: Params, number: nat)
    ensures
        0 <= chunk_start(bytes, params, number) <= chunk_start(bytes, params, number + 1)
            <= bytes.len(),
        chunk_start(bytes, params, number) < bytes.len() ==> chunk_start(bytes, params, number)
            < chunk_start(bytes, params, number + 1),
        chunk_data(bytes, params, number).len() + 1 <= room(params),
    decreases number,
{
    if number > 0 {
        lemma_chunk_start(bytes, params, (number - 1) as nat);
    }
    let from = chunk_start(bytes, params, number);
    assert(bytes.subrange(from, from).len() == 0);
    assert(kermit::encoded(bytes.subrange(from, from), params).len() == 0);
    lemma_chunk_end(bytes, from, from, params);
    assert(chunk_start(bytes, params, number + 1) == chunk_end(bytes, from, from, params));
}

/// After any number of data packets a receiver has exactly the bytes up to
/// where the next one starts: nothing lost, nothing twice, nothing altered.
pub proof fn packets_carry_the_file(bytes: Seq<u8>, params: Params, count: nat)
    requires
        kermit::quotable(params),
    ensures
        received(bytes, params, count) == Some(bytes.take(chunk_start(bytes, params, count))),
    decreases count,
{
    if count == 0 {
        assert(bytes.take(0) == Seq::<u8>::empty());
    } else {
        let number = (count - 1) as nat;
        packets_carry_the_file(bytes, params, number);
        lemma_chunk_start(bytes, params, number);
        let from = chunk_start(bytes, params, number);
        let to = chunk_start(bytes, params, count);
        kermit::decoding_undoes_encoding(bytes.subrange(from, to), params);
        assert(bytes.take(from) + bytes.subrange(from, to) == bytes.take(to));
    }
}

/// No more data packets than the file has bytes, and then all of it has been
/// sent.
pub proof fn every_file_is_sent(bytes: Seq<u8>, params: Params)
    ensures
        chunk_start(bytes, params, bytes.len()) == bytes.len(),
{
    lemma_progress(bytes, params, bytes.len());
}

proof fn lemma_progress(bytes: Seq<u8>, params: Params, count: nat)
    ensures
        chunk_start(bytes, params, count) >= count || chunk_start(bytes, params, count)
            == bytes.len(),
        chunk_start(bytes, params, count) <= bytes.len(),
    decreases count,
{
    if count > 0 {
        lemma_progress(bytes, params, (count - 1) as nat);
        lemma_chunk_start(bytes, params, (count - 1) as nat);
    }
}

// ---------------------------------------------------------------------------
// The transfer
// ---------------------------------------------------------------------------

/// Which packet is waiting for its answer.
#[derive(Clone, Copy, Debug, PartialEq, Eq, Structural)]
pub enum Stage {
    Init,
    Header,
    Data,
    EndOfFile,
    Break,
}

/// What came back after a packet was written.
pub enum Reply {
    Packet(RxPacket),
    /// Something that is not a packet.
    Fault(PacketFault),
    /// Nothing, for as long as the options allow.
    Silence,
    /// The user gave up waiting.
    Cancelled,
    /// The wire itself failed, in the host's words.
    Lost(String),
}

/// Why the last attempt at a packet did not count.
pub enum Failure {
    Unexpected,
    Fault(PacketFault),
    Silence,
    Cancelled,
    Lost(String),
}

/// Why a transfer stopped.
pub enum KermitError {
    /// The board reported an error, in its own words.
    Remote(String),
    /// Nothing answered Send-Init as it should.
    InitFailed(Failure),
    /// A later packet was never acknowledged.
    Exhausted(Failure),
    /// The name does not fit in a packet of `budget` characters.
    NameTooLong { name: String, budget: usize },
    /// The user gave up before the next packet was written.
    Cancelled,
}

/// What to do next.
pub enum Step {
    /// Write this packet, then read an answer to it.
    Send(Vec<u8>),
    /// The board has the whole file, under this name.
    Done(String),
    Fail(KermitError),
}

/// What to show, if anything, and then what to do.
pub struct Next {
    pub progress: Option<TransferProgress>,
    pub step: Step,
}

/// A transfer in progress.
pub struct Transfer {
    pub name: String,
    pub bytes: Vec<u8>,
    pub max_retries: u32,
    pub stage: Stage,
    /// How many bytes of the file are in this data packet or an earlier one.
    pub index: usize,
    pub seq: u8,
    /// How often the packet that is waiting has been sent.
    pub attempts: u32,
    pub params: Params,
    /// The packet that is waiting for its answer, as it was written.
    pub packet: Vec<u8>,
    /// How many data packets have been acknowledged.
    pub delivered: Ghost<nat>,
}

/// How often a packet is sent at most.
pub open spec fn tries(max_retries: u32) -> u32 {
    if max_retries == 0 {
        1
    } else {
        max_retries
    }
}

impl Transfer {
    /// The name as it goes into the file header.
    pub open spec fn header(&self) -> Seq<u8> {
        kermit::encoded(vstd::utf8::encode_utf8(self.name@), self.params)
    }

    /// The packet that is waiting for its answer.
    pub open spec fn outstanding(&self) -> Seq<u8> {
        match self.stage {
            Stage::Init => kermit::packet_of(0, SEND_INIT, send_init_data(), before_negotiation()),
            Stage::Header => kermit::packet_of(self.seq, FILE_HEADER, self.header(), self.params),
            Stage::Data => kermit::packet_of(
                self.seq,
                DATA,
                chunk_data(self.bytes@, self.params, self.delivered@),
                self.params,
            ),
            Stage::EndOfFile => kermit::packet_of(self.seq, END_OF_FILE, seq![], self.params),
            Stage::Break => kermit::packet_of(self.seq, BREAK, seq![], self.params),
        }
    }

    /// The check that the answer is closed with.
    pub open spec fn answer_check(&self) -> u8 {
        if self.stage == Stage::Init {
            CHECK_ONE
        } else {
            self.params.chkt
        }
    }

    /// Where a transfer can be: the packets are numbered one after another,
    /// modulo 64, and a data packet holds what follows the acknowledged ones.
    pub open spec fn wf(&self) -> bool {
        let start = chunk_start(self.bytes@, self.params, self.delivered@);
        &&& 1 <= self.attempts <= tries(self.max_retries)
        &&& self.packet@ == self.outstanding()
        &&& self.stage != Stage::Init ==> self.params.maxl <= 94
        &&& match self.stage {
            Stage::Init => self.seq == 0 && self.delivered@ == 0 && self.index == 0,
            Stage::Header => self.seq == 1 && self.delivered@ == 0 && self.index == 0
                && self.header().len() <= room(self.params),
            Stage::Data => {
                &&& start < self.bytes@.len()
                &&& self.index == chunk_start(self.bytes@, self.params, self.delivered@ + 1)
                &&& self.seq == (2 + self.delivered@) % 64
            },
            Stage::EndOfFile => {
                &&& start == self.bytes@.len()
                &&& self.index == self.bytes@.len()
                &&& self.seq == (2 + self.delivered@) % 64
            },
            Stage::Break => {
                &&& start == self.bytes@.len()
                &&& self.index == self.bytes@.len()
                &&& self.seq == (3 + self.delivered@) % 64
            },
        }
    }

    /// The same file, sent the same way.
    pub open spec fn same_file(&self, other: &Transfer) -> bool {
        &&& self.name == other.name
        &&& self.bytes == other.bytes
        &&& self.max_retries == other.max_retries
    }

    /// The transfer once more data packets than `other` have been
    /// acknowledged: at the next one, or at the end of the file.
    pub open spec fn at_data(&self, other: &Transfer, delivered: nat, seq: u8) -> bool {
        &&& self.params == other.params
        &&& self.delivered@ == delivered
        &&& self.seq == seq
        &&& self.attempts == 1
        &&& self.stage == (if chunk_start(self.bytes@, self.params, delivered) < self.bytes@.len() {
            Stage::Data
        } else {
            Stage::EndOfFile
        })
    }

    /// Whether a reply acknowledges the packet that is waiting. Send-Init
    /// takes an acknowledgement whatever its number.
    pub open spec fn accepts(&self, reply: Reply) -> bool {
        reply matches Reply::Packet(packet) && packet.ptype == ACKNOWLEDGE && (self.stage
            == Stage::Init || packet.seq == self.seq)
    }
}

/// Whether a reply reports an error.
pub open spec fn refuses(reply: Reply) -> bool {
    reply matches Reply::Packet(packet) && packet.ptype == ERROR
}

/// Why a reply that neither acknowledges nor reports an error does not count.
pub open spec fn failure_of(reply: Reply) -> Failure {
    match reply {
        Reply::Packet(_) => Failure::Unexpected,
        Reply::Fault(fault) => Failure::Fault(fault),
        Reply::Silence => Failure::Silence,
        Reply::Cancelled => Failure::Cancelled,
        Reply::Lost(words) => Failure::Lost(words),
    }
}

/// Whether `progress` says that `sent` bytes of this transfer have arrived.
pub open spec fn reports(progress: Option<TransferProgress>, transfer: &Transfer, sent: usize) -> bool {
    progress matches Some(shown) && shown.name@ == transfer.name@ && shown.sent == sent
        && shown.total == transfer.bytes@.len()
}

/// Whether `step` is to write what the transfer has waiting, or to stop there
/// because the user gave up.
pub open spec fn writes(step: Step, transfer: &Transfer, cancelled: bool) -> bool {
    if cancelled {
        step == Step::Fail(KermitError::Cancelled)
    } else {
        step matches Step::Send(packet) && packet@ == transfer.outstanding()
    }
}

impl Transfer {
    /// Whether `next` and the transfer `after` it are what follows an
    /// acknowledgement that holds `data`.
    pub open spec fn moves_on(
        &self,
        data: Seq<u8>,
        cancelled: bool,
        next: Next,
        after: Transfer,
    ) -> bool {
        match self.stage {
            Stage::Init => {
                &&& reports(next.progress, self, 0)
                &&& after.params == negotiated(data)
                &&& if after.header().len() <= room(after.params) {
                    &&& after.wf()
                    &&& writes(next.step, &after, cancelled)
                    &&& after.stage == Stage::Header
                    &&& after.attempts == 1
                } else {
                    next.step matches Step::Fail(KermitError::NameTooLong { name, budget })
                        && name@ == self.name@ && budget == room(after.params)
                }
            },
            Stage::Header => {
                &&& next.progress is None
                &&& after.wf()
                &&& writes(next.step, &after, cancelled)
                &&& after.at_data(self, 0, 2)
            },
            Stage::Data => {
                &&& reports(next.progress, self, self.index)
                &&& after.wf()
                &&& writes(next.step, &after, cancelled)
                &&& after.at_data(
                    self,
                    self.delivered@ + 1,
                    ((self.seq + 1) % 64) as u8,
                )
            },
            Stage::EndOfFile => {
                &&& next.progress is None
                &&& after.wf()
                &&& writes(next.step, &after, cancelled)
                &&& after.stage == Stage::Break
                &&& after.attempts == 1
                &&& after.params == self.params
                &&& after.delivered == self.delivered
            },
            Stage::Break => {
                &&& next.progress is None
                &&& next.step matches Step::Done(name) && name@ == self.name@
            },
        }
    }

    /// Whether `next` and the transfer `after` it are what follows a reply.
    pub open spec fn goes_on(
        &self,
        reply: Reply,
        cancelled: bool,
        next: Next,
        after: Transfer,
    ) -> bool {
        &&& after.same_file(self)
        &&& next.step is Send ==> after.wf()
        &&& refuses(reply) ==> next.progress is None && (next.step matches Step::Fail(
            KermitError::Remote(words),
        ) && words@ == text::read_lossily(reply->Packet_0.data@))
        &&& !refuses(reply) && !self.accepts(reply) ==> {
            &&& next.progress is None
            &&& if self.attempts < tries(self.max_retries) {
                &&& after.wf()
                &&& writes(next.step, &after, cancelled)
                &&& after.attempts == self.attempts + 1
                &&& after.outstanding() == self.outstanding()
                &&& after.stage == self.stage
                &&& after.params == self.params
                &&& after.seq == self.seq
                &&& after.delivered == self.delivered
            } else if self.stage == Stage::Init {
                next.step == Step::Fail(KermitError::InitFailed(failure_of(reply)))
            } else {
                next.step == Step::Fail(KermitError::Exhausted(failure_of(reply)))
            }
        }
        &&& self.accepts(reply) ==> self.moves_on(
            reply->Packet_0.data@,
            cancelled,
            next,
            after,
        )
    }
}

/// Begins a transfer with Send-Init, which is to be written and answered.
pub fn send_file(
    name: String,
    bytes: Vec<u8>,
    options: KermitOptions,
    cancelled: bool,
) -> (started: (Transfer, Step))
    ensures
        started.0.wf(),
        started.0.stage == Stage::Init,
        started.0.attempts == 1,
        started.0.name == name,
        started.0.bytes == bytes,
        started.0.max_retries == options.max_retries,
        writes(started.1, &started.0, cancelled),
{
    let params = Params {
        maxl: 94,
        eol: CARRIAGE_RETURN,
        qctl: CONTROL_QUOTE,
        qbin: None,
        chkt: CHECK_ONE,
        npad: 0,
        padc: 0,
    };
    let data: Vec<u8> = vec![112, 37, 32, 64, 45, CONTROL_QUOTE, ACKNOWLEDGE, CHECK_ONE, SPACE];
    assert(data@ =~= send_init_data());
    proof {
        lemma_small_packet(0, SEND_INIT, data@, CHECK_ONE);
    }
    let packet = build_packet(0, SEND_INIT, data.as_slice(), &params);
    let transfer = Transfer {
        name,
        bytes,
        max_retries: options.max_retries,
        stage: Stage::Init,
        index: 0,
        seq: 0,
        attempts: 1,
        params,
        packet,
        delivered: Ghost(0),
    };
    let step = transfer.waiting(cancelled);
    (transfer, step)
}

fn encode_all(bytes: &[u8], params: &Params) -> (data: Vec<u8>)
    ensures
        data@ == kermit::encoded(bytes@, *params),
{
    let mut data: Vec<u8> = Vec::new();
    for i in 0..bytes.len()
        invariant
            data@ == kermit::encoded(bytes@.take(i as int), *params),
    {
        encode_byte(&mut data, bytes[i], params);
        assert(bytes@.take(i + 1).drop_last() == bytes@.take(i as int));
    }
    assert(bytes@.take(bytes@.len() as int) == bytes@);
    data
}

/// The data of the packet that starts at `from`, and where the next one
/// starts.
fn next_chunk(bytes: &Vec<u8>, from: usize, params: &Params) -> (chunk: (Vec<u8>, usize))
    requires
        from <= bytes@.len(),
        params.maxl <= 94,
    ensures
        chunk.1 == chunk_end(bytes@, from as int, from as int, *params),
        from <= chunk.1 <= bytes@.len(),
        chunk.0@ == kermit::encoded(bytes@.subrange(from as int, chunk.1 as int), *params),
{
    let budget: usize = room_for_data(params);
    let mut data: Vec<u8> = Vec::new();
    let mut index: usize = from;
    assert(bytes@.subrange(from as int, from as int).len() == 0);
    while index < bytes.len() && data.len() + 4 <= budget
        invariant
            from <= index <= bytes@.len(),
            budget == room(*params),
            budget <= 94,
            data@ == kermit::encoded(bytes@.subrange(from as int, index as int), *params),
            data@.len() + 1 <= budget,
            chunk_end(bytes@, from as int, from as int, *params) == chunk_end(
                bytes@,
                from as int,
                index as int,
                *params,
            ),
        decreases bytes@.len() - index,
    {
        proof {
            lemma_encoded_byte_length(bytes@[index as int], *params);
            assert(bytes@.subrange(from as int, index + 1).drop_last() == bytes@.subrange(
                from as int,
                index as int,
            ));
        }
        encode_byte(&mut data, bytes[index], params);
        index = index + 1;
    }
    (data, index)
}

proof fn lemma_small_packet(seq: u8, ptype: u8, data: Seq<u8>, chkt: u8)
    requires
        data.len() <= 100,
    ensures
        kermit::byte_sum(kermit::covered(seq, ptype, data, chkt)) <= u32::MAX,
        (data.len() + kermit::check_length(chkt) + 2) % 256 <= 223,
{
    kermit::lemma_sum_bound(kermit::covered(seq, ptype, data, chkt));
}

impl Transfer {
    /// The check that the answer to the waiting packet is closed with.
    pub fn reply_check(&self) -> (chkt: u8)
        ensures
            chkt == self.answer_check(),
    {
        match self.stage {
            Stage::Init => CHECK_ONE,
            _ => self.params.chkt,
        }
    }

    /// Makes the next data packet wait for its answer, or the end of the file
    /// when there is none left.
    fn enter_data(&mut self, seq: u8, delivered: Ghost<nat>)
        requires
            old(self).params.maxl <= 94,
            old(self).index == chunk_start(old(self).bytes@, old(self).params, delivered@),
            seq == (2 + delivered@) % 64,
        ensures
            final(self).wf(),
            final(self).same_file(old(self)),
            final(self).at_data(old(self), delivered@, seq),
    {
        proof {
            lemma_chunk_start(self.bytes@, self.params, delivered@);
        }
        self.delivered = delivered;
        self.seq = seq;
        self.attempts = 1;
        if self.index < self.bytes.len() {
            let (data, end) = next_chunk(&self.bytes, self.index, &self.params);
            proof {
                lemma_small_packet(seq, DATA, data@, self.params.chkt);
            }
            self.packet = build_packet(seq, DATA, data.as_slice(), &self.params);
            self.index = end;
            self.stage = Stage::Data;
        } else {
            self.enter_closing(Stage::EndOfFile, seq);
        }
    }

    /// Makes one of the two packets without data wait for its answer.
    fn enter_closing(&mut self, stage: Stage, seq: u8)
        requires
            stage == Stage::EndOfFile || stage == Stage::Break,
        ensures
            final(self).same_file(old(self)),
            final(self).params == old(self).params,
            final(self).index == old(self).index,
            final(self).delivered == old(self).delivered,
            final(self).stage == stage,
            final(self).seq == seq,
            final(self).attempts == 1,
            final(self).packet@ == final(self).outstanding(),
    {
        let none: Vec<u8> = Vec::new();
        assert(none@ == Seq::<u8>::empty());
        let ptype: u8 = match stage {
            Stage::EndOfFile => END_OF_FILE,
            _ => BREAK,
        };
        proof {
            lemma_small_packet(seq, ptype, none@, self.params.chkt);
        }
        self.packet = build_packet(seq, ptype, none.as_slice(), &self.params);
        self.stage = stage;
        self.seq = seq;
        self.attempts = 1;
    }

    /// Writes the packet that is waiting, unless the user has given up.
    fn waiting(&self, cancelled: bool) -> (step: Step)
        requires
            self.packet@ == self.outstanding(),
        ensures
            writes(step, self, cancelled),
    {
        if cancelled {
            return Step::Fail(KermitError::Cancelled);
        }
        let mut packet: Vec<u8> = Vec::new();
        packet.extend_from_slice(self.packet.as_slice());
        assert(packet@ == self.packet@);
        Step::Send(packet)
    }

    fn progress(&self, sent: usize) -> (progress: Option<TransferProgress>)
        ensures
            reports(progress, self, sent),
    {
        Some(TransferProgress { name: self.name.clone(), sent, total: self.bytes.len() })
    }

    /// Takes an answer to the packet that is waiting.
    ///
    /// An acknowledgement moves the transfer on: from Send-Init to the file
    /// header, through the data packets, to the end of the file and Break.
    /// An error report ends it. Anything else sends the same packet again, as
    /// often as the options allow. Nothing more is written once the user has
    /// given up.
    pub fn answer(&mut self, reply: Reply, cancelled: bool) -> (next: Next)
        requires
            old(self).wf(),
        ensures
            old(self).goes_on(reply, cancelled, next, *final(self)),
    {
        let failure = match reply {
            Reply::Packet(packet) => {
                let numbered: bool = match self.stage {
                    Stage::Init => true,
                    _ => packet.seq == self.seq,
                };
                if packet.ptype == ACKNOWLEDGE && numbered {
                    return self.acknowledged(packet, cancelled);
                }
                if packet.ptype == ERROR {
                    let words = lossy_text(packet.data.as_slice());
                    return Next { progress: None, step: Step::Fail(KermitError::Remote(words)) };
                }
                Failure::Unexpected
            },
            Reply::Fault(fault) => Failure::Fault(fault),
            Reply::Silence => Failure::Silence,
            Reply::Cancelled => Failure::Cancelled,
            Reply::Lost(words) => Failure::Lost(words),
        };
        let most: u32 = if self.max_retries == 0 { 1 } else { self.max_retries };
        if self.attempts < most {
            self.attempts = self.attempts + 1;
            return Next { progress: None, step: self.waiting(cancelled) };
        }
        let error = match self.stage {
            Stage::Init => KermitError::InitFailed(failure),
            _ => KermitError::Exhausted(failure),
        };
        Next { progress: None, step: Step::Fail(error) }
    }

    /// Moves on from a packet that was acknowledged.
    fn acknowledged(&mut self, packet: RxPacket, cancelled: bool) -> (next: Next)
        requires
            old(self).wf(),
        ensures
            final(self).same_file(old(self)),
            next.step is Send ==> final(self).wf(),
            old(self).moves_on(packet.data@, cancelled, next, *final(self)),
    {
        match self.stage {
            Stage::Init => {
                self.params = parse_params(packet.data.as_slice());
                let progress = self.progress(0);
                let header = encode_all(self.name.as_str().as_bytes(), &self.params);
                let budget: usize = room_for_data(&self.params);
                if header.len() > budget {
                    let error = KermitError::NameTooLong { name: self.name.clone(), budget };
                    return Next { progress, step: Step::Fail(error) };
                }
                proof {
                    lemma_small_packet(1, FILE_HEADER, header@, self.params.chkt);
                }
                self.packet = build_packet(1, FILE_HEADER, header.as_slice(), &self.params);
                self.stage = Stage::Header;
                self.seq = 1;
                self.attempts = 1;
                Next { progress, step: self.waiting(cancelled) }
            },
            Stage::Header => {
                self.enter_data(2, Ghost(0));
                Next { progress: None, step: self.waiting(cancelled) }
            },
            Stage::Data => {
                let progress = self.progress(self.index);
                let seq: u8 = (self.seq + 1) % 64;
                self.enter_data(seq, Ghost(self.delivered@ + 1));
                Next { progress, step: self.waiting(cancelled) }
            },
            Stage::EndOfFile => {
                let seq: u8 = (self.seq + 1) % 64;
                self.enter_closing(Stage::Break, seq);
                Next { progress: None, step: self.waiting(cancelled) }
            },
            Stage::Break => Next { progress: None, step: Step::Done(self.name.clone()) },
        }
    }
}

// ---------------------------------------------------------------------------
// Whole transfers
// ---------------------------------------------------------------------------

/// One exchange of a transfer: the reply to the packet that was waiting, what
/// came of it, and the transfer after it.
pub struct Exchange {
    pub reply: Reply,
    pub cancelled: bool,
    pub next: Next,
    pub after: Transfer,
}

/// The transfer after some exchanges.
pub open spec fn transfer_after(start: Transfer, exchanges: Seq<Exchange>) -> Transfer {
    if exchanges.len() == 0 {
        start
    } else {
        exchanges.last().after
    }
}

/// Whether exchanges follow one another, with nothing after the end.
pub open spec fn is_transfer(start: Transfer, exchanges: Seq<Exchange>) -> bool
    decreases exchanges.len(),
{
    if exchanges.len() == 0 {
        start.wf() && start.stage == Stage::Init && start.attempts == 1
    } else {
        let before = exchanges.drop_last();
        let exchange = exchanges.last();
        &&& is_transfer(start, before)
        &&& before.len() > 0 ==> before.last().next.step is Send
        &&& transfer_after(start, before).goes_on(
            exchange.reply,
            exchange.cancelled,
            exchange.next,
            exchange.after,
        )
    }
}

/// What a data packet holds, as it is read off the wire.
pub open spec fn data_in(packet: Seq<u8>, chkt: u8) -> Option<Seq<u8>> {
    match kermit::read_outcome(packet.drop_last(), chkt) {
        Some(Ok(read)) => if read.ptype == DATA {
            Some(read.data)
        } else {
            None
        },
        _ => None,
    }
}

/// What a receiver has that keeps the data of every packet it acknowledges.
pub open spec fn receiver_has(start: Transfer, exchanges: Seq<Exchange>) -> Option<Seq<u8>>
    decreases exchanges.len(),
{
    if exchanges.len() == 0 {
        Some(seq![])
    } else {
        let transfer = transfer_after(start, exchanges.drop_last());
        let kept = receiver_has(start, exchanges.drop_last());
        match data_in(transfer.packet@, transfer.answer_check()) {
            Some(data) => if transfer.accepts(exchanges.last().reply) {
                match (kept, kermit::decoded(data, transfer.params)) {
                    (Some(before), Some(more)) => Some(before + more),
                    _ => None,
                }
            } else {
                kept
            },
            None => kept,
        }
    }
}

/// Whether a receiver can find the start of a packet, and what it quotes.
pub open spec fn readable(params: Params) -> bool {
    kermit::quotable(params) && (params.npad == 0 || params.padc != kermit::SOH)
}

proof fn lemma_data_in(transfer: Transfer)
    requires
        transfer.wf(),
        transfer.stage != Stage::Init ==> readable(transfer.params),
    ensures
        data_in(transfer.packet@, transfer.answer_check()) == if transfer.stage == Stage::Data {
            Some(chunk_data(transfer.bytes@, transfer.params, transfer.delivered@))
        } else {
            None
        },
{
    let params = transfer.params;
    match transfer.stage {
        Stage::Init => {
            kermit::reading_undoes_building(
                0,
                SEND_INIT,
                send_init_data(),
                before_negotiation(),
            );
        },
        Stage::Header => {
            kermit::reading_undoes_building(
                transfer.seq,
                FILE_HEADER,
                transfer.header(),
                params,
            );
        },
        Stage::Data => {
            lemma_chunk_start(transfer.bytes@, params, transfer.delivered@);
            kermit::reading_undoes_building(
                transfer.seq,
                DATA,
                chunk_data(transfer.bytes@, params, transfer.delivered@),
                params,
            );
        },
        Stage::EndOfFile => {
            kermit::reading_undoes_building(transfer.seq, END_OF_FILE, seq![], params);
        },
        Stage::Break => {
            kermit::reading_undoes_building(transfer.seq, BREAK, seq![], params);
        },
    }
}

proof fn lemma_receiver(start: Transfer, exchanges: Seq<Exchange>, params: Params)
    requires
        is_transfer(start, exchanges),
        exchanges.len() > 0 ==> exchanges.last().next.step is Send,
        readable(params),
        ({
            let transfer = transfer_after(start, exchanges);
            transfer.stage != Stage::Init ==> transfer.params == params
        }),
    ensures
        ({
            let transfer = transfer_after(start, exchanges);
            &&& transfer.wf()
            &&& transfer.same_file(&start)
            &&& receiver_has(start, exchanges) == received(
                start.bytes@,
                params,
                transfer.delivered@,
            )
        }),
    decreases exchanges.len(),
{
    if exchanges.len() > 0 {
        let before = exchanges.drop_last();
        lemma_receiver(start, before, params);
        lemma_data_in(transfer_after(start, before));
    }
}

/// A transfer that is done has delivered the file: a receiver that keeps the
/// data of every packet it acknowledges has all of it, and nothing else.
pub proof fn done_means_the_receiver_has_the_file(start: Transfer, exchanges: Seq<Exchange>)
    requires
        is_transfer(start, exchanges),
        exchanges.len() > 0,
        exchanges.last().next.step is Done,
        readable(transfer_after(start, exchanges.drop_last()).params),
    ensures
        receiver_has(start, exchanges) == Some(start.bytes@),
        exchanges.last().next.step->Done_0@ == start.name@,
{
    let before = exchanges.drop_last();
    let transfer = transfer_after(start, before);
    lemma_receiver(start, before, transfer.params);
    lemma_data_in(transfer);
    packets_carry_the_file(start.bytes@, transfer.params, transfer.delivered@);
    assert(start.bytes@.take(start.bytes@.len() as int) == start.bytes@);
}

/// How far along a transfer is, in packets.
spec fn position(transfer: Transfer) -> int {
    match transfer.stage {
        Stage::Init => 0,
        Stage::Header => 1,
        Stage::Data => 2 + transfer.delivered@ as int,
        Stage::EndOfFile => 2 + transfer.bytes@.len() as int,
        Stage::Break => 3 + transfer.bytes@.len() as int,
    }
}

proof fn lemma_position(transfer: Transfer)
    requires
        transfer.wf(),
    ensures
        0 <= position(transfer) <= 3 + transfer.bytes@.len(),
        transfer.stage == Stage::Data ==> position(transfer) < 2 + transfer.bytes@.len(),
{
    lemma_progress(transfer.bytes@, transfer.params, transfer.delivered@);
}

proof fn lemma_exchange_count(start: Transfer, exchanges: Seq<Exchange>)
    requires
        is_transfer(start, exchanges),
        exchanges.len() > 0 ==> exchanges.last().next.step is Send,
    ensures
        ({
            let transfer = transfer_after(start, exchanges);
            &&& transfer.wf()
            &&& transfer.same_file(&start)
            &&& exchanges.len() < position(transfer) * tries(start.max_retries) + transfer.attempts
        }),
    decreases exchanges.len(),
{
    if exchanges.len() > 0 {
        let before = exchanges.drop_last();
        let transfer = transfer_after(start, before);
        let after = exchanges.last().after;
        lemma_exchange_count(start, before);
        lemma_position(transfer);
        lemma_position(after);
        let most = tries(start.max_retries) as int;
        let (from, to) = (position(transfer), position(after));
        if transfer.accepts(exchanges.last().reply) {
            assert((from + 1) * most <= to * most) by (nonlinear_arith)
                requires
                    from + 1 <= to,
                    0 <= most,
            ;
            assert((from + 1) * most == from * most + most) by (nonlinear_arith);
        }
    }
}

/// Every transfer comes to an end: no packet is sent more often than the
/// options allow, and there are at most four more of them than the file has
/// bytes.
pub proof fn every_transfer_ends(start: Transfer, exchanges: Seq<Exchange>)
    requires
        is_transfer(start, exchanges),
    ensures
        exchanges.len() <= (start.bytes@.len() + 4) * tries(start.max_retries),
{
    let most = tries(start.max_retries) as int;
    let length = start.bytes@.len() as int;
    if exchanges.len() > 0 {
        let before = exchanges.drop_last();
        let transfer = transfer_after(start, before);
        lemma_exchange_count(start, before);
        lemma_position(transfer);
        let from = position(transfer);
        assert(from * most + most <= (length + 4) * most) by (nonlinear_arith)
            requires
                from <= 3 + length,
                0 <= most,
        ;
    } else {
        assert(0 <= (length + 4) * most) by (nonlinear_arith)
            requires
                0 <= length,
                0 <= most,
        ;
    }
}

/// Whether the receiver acknowledges every packet and takes the name, and
/// nobody gives up.
pub open spec fn obliging(start: Transfer, exchanges: Seq<Exchange>) -> bool
    decreases exchanges.len(),
{
    exchanges.len() == 0 || ({
        let transfer = transfer_after(start, exchanges.drop_last());
        let exchange = exchanges.last();
        &&& obliging(start, exchanges.drop_last())
        &&& !exchange.cancelled
        &&& transfer.accepts(exchange.reply)
        &&& transfer.stage == Stage::Init ==> ({
            let params = negotiated(exchange.reply->Packet_0.data@);
            kermit::encoded(vstd::utf8::encode_utf8(start.name@), params).len() <= room(params)
        })
    })
}

proof fn lemma_obliging(start: Transfer, exchanges: Seq<Exchange>)
    requires
        is_transfer(start, exchanges),
        obliging(start, exchanges),
    ensures
        exchanges.len() > 0 ==> !(exchanges.last().next.step is Fail),
        exchanges.len() <= start.bytes@.len() + 4,
        exchanges.len() > 0 ==> exchanges.last().next.step is Send ==> ({
            let transfer = transfer_after(start, exchanges);
            &&& transfer.wf()
            &&& transfer.same_file(&start)
            &&& exchanges.len() <= position(transfer)
        }),
    decreases exchanges.len(),
{
    if exchanges.len() > 0 {
        let before = exchanges.drop_last();
        let transfer = transfer_after(start, before);
        lemma_obliging(start, before);
        lemma_position(transfer);
        if exchanges.last().next.step is Send {
            lemma_position(exchanges.last().after);
        }
    }
}

/// A receiver that acknowledges every packet has the file after four more
/// exchanges than the file has bytes, at most, and the transfer never fails
/// on it.
pub proof fn an_obliging_receiver_gets_the_file(start: Transfer, exchanges: Seq<Exchange>)
    requires
        is_transfer(start, exchanges),
        obliging(start, exchanges),
        exchanges.len() > 0,
    ensures
        !(exchanges.last().next.step is Fail),
        exchanges.len() <= start.bytes@.len() + 4,
        exchanges.len() == start.bytes@.len() + 4 ==> exchanges.last().next.step is Done,
{
    lemma_obliging(start, exchanges);
    if exchanges.last().next.step is Send {
        lemma_position(exchanges.last().after);
    }
}

// ---------------------------------------------------------------------------
// What both ends agree on
// ---------------------------------------------------------------------------

/// How a receiver writes down what it wants, as the protocol has it: the
/// longest packet, a time, how much padding of which character, how a line
/// ends, the quote for control characters, the quote for bit 7 or that there
/// is none, and the check.
pub open spec fn wishes(params: Params, time: u8) -> Seq<u8> {
    seq![
        (params.maxl + 32) as u8,
        time,
        (params.npad + 32) as u8,
        params.padc ^ 0x40,
        (params.eol + 32) as u8,
        params.qctl,
        match params.qbin {
            Some(quote) => quote,
            None => 0x4e,
        },
        params.chkt,
    ]
}

/// What a receiver asks for is what it gets, whatever else it says after that.
pub proof fn a_receiver_gets_what_it_asks_for(
    wanted: Params,
    time: u8,
    more: Seq<u8>,
    data: &[u8],
    params: Params,
)
    requires
        data@ == wishes(wanted, time) + more,
        call_ensures(parse_params, (data,), params),
        1 <= wanted.maxl <= 94,
        wanted.npad <= 94,
        1 <= wanted.eol <= 94,
        wanted.qctl == 0x23,
        wanted.qbin matches Some(quote) ==> 33 <= quote <= 126 && quote != 0x59 && quote != 0x4e,
        0x31 <= wanted.chkt <= 0x33,
    ensures
        params == wanted,
{
    let asked = wishes(wanted, time);
    assert forall|i: int| 0 <= i < 8 implies data@[i] == #[trigger] asked[i] by {}
    assert(data@[0] == asked[0] && data@[2] == asked[2] && data@[3] == asked[3]);
    assert(data@[4] == asked[4] && data@[6] == asked[6] && data@[7] == asked[7]);
    kermit::ctl_undoes_itself(wanted.padc);
}

/// What a receiver does not say has its default, and what it does say counts
/// as if it had said the rest too. No packet is longer than a short one may be.
pub proof fn what_a_receiver_leaves_out_has_its_default(
    data: &[u8],
    short: &[u8],
    params: Params,
    fewer: Params,
)
    requires
        short@.len() <= data@.len(),
        short@ == data@.take(short@.len() as int),
        call_ensures(parse_params, (data,), params),
        call_ensures(parse_params, (short,), fewer),
    ensures
        1 <= params.maxl <= 94,
        params.eol != 0,
        params.qctl == 0x23,
        0x31 <= params.chkt <= 0x33,
        params.qbin != Some(0x59u8) && params.qbin != Some(0x4eu8),
        fewer.maxl == if short@.len() > 0 { params.maxl } else { 80 },
        fewer.npad == if short@.len() > 2 { params.npad } else { 0 },
        fewer.padc == if short@.len() > 3 { params.padc } else { 0 },
        fewer.eol == if short@.len() > 4 { params.eol } else { 13 },
        fewer.qbin == if short@.len() > 6 { params.qbin } else { None },
        fewer.chkt == if short@.len() > 7 { params.chkt } else { 0x31 },
{
}

/// Every transfer begins with the same packet, number nought, that asks for
/// packets of 80 characters, no padding, lines that end in a carriage return,
/// `#` as the quote and the simplest check, and closes with that check.
pub proof fn every_transfer_begins_alike(
    name: String,
    bytes: Vec<u8>,
    options: KermitOptions,
    started: (Transfer, Step),
)
    requires
        call_ensures(send_file, (name, bytes, options, false), started),
    ensures
        started.1 matches Step::Send(packet) && packet@ == seq![
            1u8, 44, 32, 83, 112, 37, 32, 64, 45, 35, 89, 49, 32, 48, 13,
        ],
{
    let body = kermit::covered(0, SEND_INIT, send_init_data(), CHECK_ONE);
    assert(body =~= seq![44u8, 32, 83, 112, 37, 32, 64, 45, 35, 89, 49, 32]);
    reveal_with_fuel(kermit::byte_sum, 13);
    assert(body.drop_last() =~= seq![44u8, 32, 83, 112, 37, 32, 64, 45, 35, 89, 49]);
    let a = seq![44u8, 32, 83, 112, 37, 32, 64, 45, 35, 89, 49];
    assert(a.drop_last() =~= seq![44u8, 32, 83, 112, 37, 32, 64, 45, 35, 89]);
    let b = seq![44u8, 32, 83, 112, 37, 32, 64, 45, 35, 89];
    assert(b.drop_last() =~= seq![44u8, 32, 83, 112, 37, 32, 64, 45, 35]);
    let c = seq![44u8, 32, 83, 112, 37, 32, 64, 45, 35];
    assert(c.drop_last() =~= seq![44u8, 32, 83, 112, 37, 32, 64, 45]);
    let d = seq![44u8, 32, 83, 112, 37, 32, 64, 45];
    assert(d.drop_last() =~= seq![44u8, 32, 83, 112, 37, 32, 64]);
    let e = seq![44u8, 32, 83, 112, 37, 32, 64];
    assert(e.drop_last() =~= seq![44u8, 32, 83, 112, 37, 32]);
    let f = seq![44u8, 32, 83, 112, 37, 32];
    assert(f.drop_last() =~= seq![44u8, 32, 83, 112, 37]);
    let g = seq![44u8, 32, 83, 112, 37];
    assert(g.drop_last() =~= seq![44u8, 32, 83, 112]);
    let h = seq![44u8, 32, 83, 112];
    assert(h.drop_last() =~= seq![44u8, 32, 83]);
    let i = seq![44u8, 32, 83];
    assert(i.drop_last() =~= seq![44u8, 32]);
    assert(seq![44u8, 32].drop_last() =~= seq![44u8]);
    assert(seq![44u8].drop_last() =~= Seq::<u8>::empty());
    assert(kermit::byte_sum(d) == 449);
    assert(kermit::byte_sum(body) == 654);
}

/// What follows a packet that is acknowledged: the next number, and the file's
/// name, then its data as long as there is any left, then its end, then the
/// end of the transfer.
pub proof fn each_packet_follows_the_last(
    transfer: Transfer,
    reply: Reply,
    next: Next,
    after: Transfer,
)
    requires
        transfer.wf(),
        transfer.goes_on(reply, false, next, after),
        reply matches Reply::Packet(packet) && packet.ptype == 0x59 && (transfer.stage
            == Stage::Init || packet.seq == transfer.seq),
        next.step is Send,
    ensures
        ({
            let packet = next.step->Send_0@;
            let start = after.params.npad as int;
            &&& packet == after.packet@
            &&& packet[start] == 1
            &&& packet[start + 2] - 32 == (transfer.seq + 1) % 64
            &&& packet[start + 3] == (match transfer.stage {
                Stage::Init => 0x46u8,
                Stage::EndOfFile => 0x42,
                _ => if transfer.index < transfer.bytes@.len() {
                    0x44
                } else {
                    0x5a
                },
            })
        }),
{
    match transfer.stage {
        Stage::Init => {
            lemma_fields(after.seq, FILE_HEADER, after.header(), after.params);
        },
        Stage::EndOfFile => {
            lemma_fields(after.seq, BREAK, seq![], after.params);
        },
        _ => {
            let start = chunk_start(after.bytes@, after.params, after.delivered@);
            assert(transfer.index == start);
            if start < after.bytes@.len() {
                lemma_fields(
                    after.seq,
                    DATA,
                    chunk_data(after.bytes@, after.params, after.delivered@),
                    after.params,
                );
            } else {
                lemma_fields(after.seq, END_OF_FILE, seq![], after.params);
            }
        },
    }
}

proof fn lemma_fields(seq: u8, ptype: u8, data: Seq<u8>, params: Params)
    ensures
        ({
            let packet = kermit::packet_of(seq, ptype, data, params);
            let start = params.npad as int;
            &&& packet[start] == 1
            &&& packet[start + 2] - 32 == seq % 64
            &&& packet[start + 3] == ptype
        }),
{
    let packet = kermit::packet_of(seq, ptype, data, params);
    let body = kermit::covered(seq, ptype, data, params.chkt);
    let start = params.npad as int;
    assert(packet[start + 2] == body[1]);
    assert(packet[start + 3] == body[2]);
}

/// A packet that is not acknowledged is written again as it was, until it has
/// been written as often as the options allow, and once in any case. After
/// that the transfer is given up, and so it is at once where the board reports
/// an error.
pub proof fn a_packet_is_written_so_often_and_no_more(
    transfer: Transfer,
    reply: Reply,
    next: Next,
    after: Transfer,
)
    requires
        transfer.wf(),
        transfer.goes_on(reply, false, next, after),
        !(reply matches Reply::Packet(packet) && packet.ptype == 0x59 && (transfer.stage
            == Stage::Init || packet.seq == transfer.seq)),
    ensures
        next.progress is None,
        next.step is Send || next.step is Fail,
        next.step is Send <==> transfer.attempts < transfer.max_retries && !(
        reply matches Reply::Packet(packet) && packet.ptype == 0x45),
        next.step matches Step::Send(packet) ==> packet@ == transfer.packet@ && after.attempts
            == transfer.attempts + 1,
{
}

/// No packet is longer than the receiver takes, where it takes any that can
/// carry data at all: what follows the length character, up to the end of the
/// check, is no more than was agreed.
pub proof fn no_packet_is_longer_than_agreed(transfer: Transfer)
    requires
        transfer.wf(),
        transfer.stage != Stage::Init,
        transfer.params.maxl >= 9,
    ensures
        transfer.packet@.len() - transfer.params.npad - 3 <= transfer.params.maxl,
{
    lemma_chunk_start(transfer.bytes@, transfer.params, transfer.delivered@);
    let check = kermit::check_length(transfer.params.chkt);
    let data = match transfer.stage {
        Stage::Header => transfer.header(),
        Stage::Data => chunk_data(transfer.bytes@, transfer.params, transfer.delivered@),
        _ => Seq::<u8>::empty(),
    };
    assert(transfer.packet@.len() == transfer.params.npad + 4 + data.len() + check + 1);
}

proof fn lemma_filled(bytes: Seq<u8>, from: int, at: int, params: Params)
    requires
        0 <= from <= at <= bytes.len(),
    ensures
        ({
            let end = chunk_end(bytes, from, at, params);
            end < bytes.len() ==> kermit::encoded(bytes.subrange(from, end), params).len() + 4
                > room(params)
        }),
    decreases bytes.len() - at,
{
    if at < bytes.len() && kermit::encoded(bytes.subrange(from, at), params).len() + 4 <= room(
        params,
    ) {
        lemma_filled(bytes, from, at + 1, params);
    }
}

/// Every data packet but the last is filled: less is left of the length that
/// was agreed than a byte and its quotes might take, and one more.
pub proof fn a_data_packet_is_filled(transfer: Transfer)
    requires
        transfer.wf(),
        transfer.stage == Stage::Data,
        transfer.index < transfer.bytes@.len(),
    ensures
        transfer.packet@.len() - transfer.params.npad - 3 + 4 > transfer.params.maxl,
{
    let from = chunk_start(transfer.bytes@, transfer.params, transfer.delivered@);
    let check = kermit::check_length(transfer.params.chkt);
    let data = chunk_data(transfer.bytes@, transfer.params, transfer.delivered@);
    lemma_chunk_start(transfer.bytes@, transfer.params, transfer.delivered@);
    lemma_filled(transfer.bytes@, from, from, transfer.params);
    assert(data.len() + 4 > room(transfer.params));
    assert(transfer.packet@.len() == transfer.params.npad + 4 + data.len() + check + 1);
}

/// A name is refused exactly where a packet with it would be longer than the
/// receiver takes, and what is told is how much of one would fit.
pub proof fn a_name_is_refused_where_it_does_not_fit(
    transfer: Transfer,
    reply: Reply,
    next: Next,
    after: Transfer,
    data: &[u8],
    params: Params,
)
    requires
        transfer.wf(),
        transfer.stage == Stage::Init,
        transfer.goes_on(reply, false, next, after),
        reply matches Reply::Packet(packet) && packet.ptype == 0x59 && packet.data@ == data@,
        call_ensures(parse_params, (data,), params),
        params.maxl >= 9,
    ensures
        ({
            let name = kermit::encoded(vstd::utf8::encode_utf8(transfer.name@), params);
            let rest = 2 + kermit::check_length(params.chkt);
            &&& next.step is Send <==> name.len() + rest <= params.maxl
            &&& next.step is Send || (next.step matches Step::Fail(
                KermitError::NameTooLong { budget, .. },
            ) && budget + rest == params.maxl)
        }),
{
}

/// Every answer takes a transfer on as the protocol has it, and leaves the file
/// and its name as they were.
pub proof fn an_answer_takes_the_transfer_on()
    ensures
        forall|transfer: &mut Transfer, reply: Reply, cancelled: bool, next: Next|
            #[trigger] call_ensures(Transfer::answer, (transfer, reply, cancelled), next) ==> {
                &&& transfer.goes_on(reply, cancelled, next, *final(transfer))
                &&& final(transfer).bytes@ == transfer.bytes@
                &&& final(transfer).name@ == transfer.name@
            },
{
}

/// What is shown of a transfer is how much of the file has arrived: all of it
/// once the last of its data is acknowledged, and never more than there is.
pub proof fn what_is_shown_has_arrived(
    transfer: Transfer,
    reply: Reply,
    cancelled: bool,
    next: Next,
    after: Transfer,
)
    requires
        transfer.wf(),
        transfer.goes_on(reply, cancelled, next, after),
        next.progress is Some,
    ensures
        ({
            let shown = next.progress->Some_0;
            &&& shown.name@ == transfer.name@
            &&& shown.total == transfer.bytes@.len()
            &&& shown.sent <= shown.total
            &&& transfer.stage == Stage::Init ==> shown.sent == 0
            &&& transfer.stage == Stage::Data && kermit::quotable(transfer.params) ==> received(
                transfer.bytes@,
                transfer.params,
                transfer.delivered@ + 1,
            ) == Some(transfer.bytes@.take(shown.sent as int))
            &&& transfer.stage == Stage::Data && after.stage == Stage::EndOfFile ==> shown.sent
                == shown.total
        }),
{
    lemma_chunk_start(transfer.bytes@, transfer.params, transfer.delivered@);
    if transfer.stage == Stage::Data && kermit::quotable(transfer.params) {
        packets_carry_the_file(transfer.bytes@, transfer.params, transfer.delivered@ + 1);
    }
}

/// The name a file is sent under: its own, or one made up for a path that
/// has none.
pub fn transfer_name(file_name: Option<String>) -> (name: String)
    ensures
        match file_name {
            Some(given) => name == given,
            None => name@ == "PROGRAM.BIN"@,
        },
{
    match file_name {
        Some(given) => given,
        None => "PROGRAM.BIN".to_owned(),
    }
}

impl Failure {
    /// What went wrong, in words; `init` tells Send-Init from later packets.
    pub open spec fn words(&self, init: bool) -> Seq<char> {
        match self {
            Failure::Unexpected => if init {
                "unexpected reply to Send-Init"@
            } else {
                "unexpected Kermit reply"@
            },
            Failure::Fault(
                PacketFault::Malformed,
            ) => "malformed Kermit packet: length is too small"@,
            Failure::Fault(PacketFault::CheckMismatch) => "Kermit block check mismatch"@,
            Failure::Silence => "timed out waiting for response"@,
            Failure::Cancelled => "transfer cancelled"@,
            Failure::Lost(cause) => "could not read Kermit response: "@ + cause@,
        }
    }

    fn message(&self, init: bool) -> (message: String)
        ensures
            message@ == self.words(init),
    {
        match self {
            Failure::Unexpected => if init {
                "unexpected reply to Send-Init".to_owned()
            } else {
                "unexpected Kermit reply".to_owned()
            },
            Failure::Fault(
                PacketFault::Malformed,
            ) => "malformed Kermit packet: length is too small".to_owned(),
            Failure::Fault(PacketFault::CheckMismatch) => "Kermit block check mismatch".to_owned(),
            Failure::Silence => "timed out waiting for response".to_owned(),
            Failure::Cancelled => "transfer cancelled".to_owned(),
            Failure::Lost(cause) => cat("could not read Kermit response: ", cause.as_str()),
        }
    }
}

impl KermitError {
    /// What is said of a transfer that stopped.
    pub open spec fn words(&self) -> Seq<char> {
        match self {
            KermitError::Remote(report) => "remote error: "@ + report@,
            KermitError::InitFailed(failure) => "Kermit Send-Init failed: "@ + failure.words(true),
            KermitError::Exhausted(failure) => "Kermit retries exhausted: "@ + failure.words(
                false,
            ),
            KermitError::NameTooLong { name, budget } => {
                "file name is too long for a Kermit short packet; rename `"@ + name@ + "` to "@
                    + text::digits(*budget as nat) + " encoded bytes or fewer"@
            },
            KermitError::Cancelled => "transfer cancelled"@,
        }
    }

    pub fn message(&self) -> (message: String)
        ensures
            message@ == self.words(),
    {
        match self {
            KermitError::Remote(report) => cat("remote error: ", report.as_str()),
            KermitError::InitFailed(failure) => cat(
                "Kermit Send-Init failed: ",
                failure.message(true).as_str(),
            ),
            KermitError::Exhausted(failure) => cat(
                "Kermit retries exhausted: ",
                failure.message(false).as_str(),
            ),
            KermitError::NameTooLong { name, budget } => {
                let mut message = cat(
                    "file name is too long for a Kermit short packet; rename `",
                    name.as_str(),
                );
                message.append("` to ");
                message.append(decimal(*budget as u64).as_str());
                message.append(" encoded bytes or fewer");
                message
            },
            KermitError::Cancelled => "transfer cancelled".to_owned(),
        }
    }
}

} // verus!
