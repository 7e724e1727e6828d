//! Minimal classic Kermit sender for rosco_m68k's serial bootloader.
//!
//! The protocol is deliberately isolated from CLI rendering and from the wire
//! itself. It implements short packets, Send-Init negotiation, control and
//! 8th-bit quoting, block checks 1-3, and stop-and-wait retransmission. Long
//! packets, windows, and repeat-count compression are not advertised.
use vstd::prelude::*;

verus! {

/// Starts every packet.
pub const SOH: u8 = 0x01;

/// `1`, the block check that adds the bytes up and folds them into six bits.
pub const CHECK_ONE: u8 = 0x31;

/// `2`, the block check that keeps twelve bits of the sum.
pub const CHECK_TWO: u8 = 0x32;

/// `3`, the block check that is a CRC.
pub const CHECK_THREE: u8 = 0x33;

/// What both ends of a transfer have agreed on.
pub struct Params {
    /// Longest packet the receiver takes.
    pub maxl: usize,
    /// Ends every packet.
    pub eol: u8,
    /// Quotes a control character.
    pub qctl: u8,
    /// Quotes a character with its eighth bit set, when that was negotiated.
    pub qbin: Option<u8>,
    /// Which block check closes a packet: `1`, `2` or `3`.
    pub chkt: u8,
    /// How many padding characters go in front of a packet.
    pub npad: usize,
    /// The padding character.
    pub padc: u8,
}

/// A packet as it came off the wire, its check already verified.
pub struct RxPacket {
    pub seq: u8,
    pub ptype: u8,
    pub data: Vec<u8>,
}

/// A received packet, as a value.
pub struct PacketView {
    pub seq: u8,
    pub ptype: u8,
    pub data: Seq<u8>,
}

impl View for RxPacket {
    type V = PacketView;

    open spec fn view(&self) -> PacketView {
        PacketView { seq: self.seq, ptype: self.ptype, data: self.data@ }
    }
}

// ---------------------------------------------------------------------------
// Characters
// ---------------------------------------------------------------------------

/// A small number as a printable character.
pub fn tochar(byte: u8) -> (ch: u8)
    requires
        byte <= 223,
    ensures
        ch == byte + 32,
{
    byte + 32
}

/// The number a printable character stands for, modulo 256.
pub open spec fn unchar_of(byte: u8) -> u8 {
    if byte >= 32 {
        (byte - 32) as u8
    } else {
        (byte + 224) as u8
    }
}

/// The number a printable character stands for.
pub fn unchar(byte: u8) -> (number: u8)
    ensures
        number == unchar_of(byte),
{
    byte.wrapping_sub(32)
}

/// A control character as the printable one that stands for it, and back.
pub fn ctl(byte: u8) -> (other: u8)
    ensures
        other == byte ^ 0x40,
{
    byte ^ 0x40
}

/// `unchar` undoes `tochar`.
pub proof fn unchar_undoes_tochar(byte: u8)
    requires
        byte <= 223,
    ensures
        unchar_of((byte + 32) as u8) == byte,
{
}

/// `ctl` undoes itself.
pub proof fn ctl_undoes_itself(byte: u8)
    ensures
        (byte ^ 0x40) ^ 0x40 == byte,
{
    assert((byte ^ 0x40) ^ 0x40 == byte) by (bit_vector);
}

// ---------------------------------------------------------------------------
// Block checks
// ---------------------------------------------------------------------------

/// How many characters a block check takes.
pub open spec fn check_length(chkt: u8) -> nat {
    if chkt == CHECK_TWO {
        2
    } else if chkt == CHECK_THREE {
        3
    } else {
        1
    }
}

/// How many characters a block check takes.
pub fn check_len(chkt: u8) -> (length: usize)
    ensures
        length == check_length(chkt),
{
    if chkt == CHECK_TWO {
        2
    } else if chkt == CHECK_THREE {
        3
    } else {
        1
    }
}

/// What some bytes add up to.
pub open spec fn byte_sum(bytes: Seq<u8>) -> nat
    decreases bytes.len(),
{
    if bytes.len() == 0 {
        0
    } else {
        byte_sum(bytes.drop_last()) + bytes.last() as nat
    }
}

/// One bit of the CCITT polynomial, least significant bit first.
pub open spec fn crc_shift(crc: u16) -> u16 {
    if crc & 1 == 1 {
        (crc >> 1) ^ 0x8408
    } else {
        crc >> 1
    }
}

/// A CRC with one more byte taken into it, bit by bit.
pub open spec fn crc_byte(crc: u16, byte: u8) -> u16 {
    let c0 = crc ^ (byte as u16);
    let c4 = crc_shift(crc_shift(crc_shift(crc_shift(c0))));
    crc_shift(crc_shift(crc_shift(crc_shift(c4))))
}

/// The Kermit CRC of some bytes.
pub open spec fn crc_of(bytes: Seq<u8>) -> u16
    decreases bytes.len(),
{
    if bytes.len() == 0 {
        0
    } else {
        crc_byte(crc_of(bytes.drop_last()), bytes.last())
    }
}

proof fn lemma_crc_nibbles(crc: u16, byte: u16)
    by (bit_vector)
    requires
        byte < 256,
    ensures
        ({
            let q1 = (crc ^ byte) & 0x0f;
            let c1 = (crc >> 4) ^ ((q1 * 0x1081) as u16);
            let q2 = (c1 ^ (byte >> 4)) & 0x0f;
            let c2 = (c1 >> 4) ^ ((q2 * 0x1081) as u16);
            let c0 = crc ^ byte;
            let s1 = if c0 & 1 == 1 { (c0 >> 1) ^ 0x8408 } else { c0 >> 1 };
            let s2 = if s1 & 1 == 1 { (s1 >> 1) ^ 0x8408 } else { s1 >> 1 };
            let s3 = if s2 & 1 == 1 { (s2 >> 1) ^ 0x8408 } else { s2 >> 1 };
            let s4 = if s3 & 1 == 1 { (s3 >> 1) ^ 0x8408 } else { s3 >> 1 };
            let s5 = if s4 & 1 == 1 { (s4 >> 1) ^ 0x8408 } else { s4 >> 1 };
            let s6 = if s5 & 1 == 1 { (s5 >> 1) ^ 0x8408 } else { s5 >> 1 };
            let s7 = if s6 & 1 == 1 { (s6 >> 1) ^ 0x8408 } else { s6 >> 1 };
            let s8 = if s7 & 1 == 1 { (s7 >> 1) ^ 0x8408 } else { s7 >> 1 };
            c2 == s8
        }),
{
}

/// The Kermit CRC of some bytes, four bits at a time.
pub fn crc16_kermit(bytes: &[u8]) -> (crc: u16)
    ensures
        crc == crc_of(bytes@),
{
    let mut crc: u16 = 0;
    for i in 0..bytes.len()
        invariant
            crc == crc_of(bytes@.take(i as int)),
    {
        let byte: u16 = bytes[i] as u16;
        let ghost before = crc;
        let q1: u16 = (crc ^ byte) & 0x0f;
        assert(q1 <= 15) by (bit_vector)
            requires
                q1 == (crc ^ byte) & 0x0f,
        ;
        let c1: u16 = (crc >> 4) ^ (q1 * 0x1081);
        let q2: u16 = (c1 ^ (byte >> 4)) & 0x0f;
        assert(q2 <= 15) by (bit_vector)
            requires
                q2 == (c1 ^ (byte >> 4)) & 0x0f,
        ;
        crc = (c1 >> 4) ^ (q2 * 0x1081);
        proof {
            lemma_crc_nibbles(before, byte);
            assert(bytes@.take(i + 1).drop_last() == bytes@.take(i as int));
        }
    }
    assert(bytes@.take(bytes@.len() as int) == bytes@);
    crc
}

proof fn lemma_sum_of_prefix(bytes: Seq<u8>, count: int)
    requires
        0 <= count <= bytes.len(),
    ensures
        byte_sum(bytes.take(count)) <= byte_sum(bytes),
    decreases bytes.len(),
{
    if count < bytes.len() {
        lemma_sum_of_prefix(bytes.drop_last(), count);
        assert(bytes.drop_last().take(count) == bytes.take(count));
    } else {
        assert(bytes.take(count) == bytes);
    }
}

/// What some bytes add up to.
fn sum_of(bytes: &[u8]) -> (sum: u32)
    requires
        byte_sum(bytes@) <= u32::MAX,
    ensures
        sum == byte_sum(bytes@),
{
    let mut sum: u32 = 0;
    for i in 0..bytes.len()
        invariant
            sum == byte_sum(bytes@.take(i as int)),
            byte_sum(bytes@) <= u32::MAX,
    {
        proof {
            lemma_sum_of_prefix(bytes@, i + 1);
            assert(bytes@.take(i + 1).drop_last() == bytes@.take(i as int));
        }
        sum = sum + bytes[i] as u32;
    }
    assert(bytes@.take(bytes@.len() as int) == bytes@);
    sum
}

/// The characters that close a packet whose bytes, from its length character
/// on, are `bytes`.
pub open spec fn block_check(chkt: u8, bytes: Seq<u8>) -> Seq<u8> {
    if chkt == CHECK_TWO {
        let value = byte_sum(bytes) % 4096;
        seq![(value / 64 + 32) as u8, (value % 64 + 32) as u8]
    } else if chkt == CHECK_THREE {
        let crc = crc_of(bytes) as nat;
        seq![(crc / 4096 + 32) as u8, (crc / 64 % 64 + 32) as u8, (crc % 64 + 32) as u8]
    } else {
        let value = byte_sum(bytes) % 256;
        seq![((value + value / 64) % 64 + 32) as u8]
    }
}

/// The characters that close a packet.
fn checked(chkt: u8, bytes: &[u8]) -> (check: Vec<u8>)
    requires
        byte_sum(bytes@) <= u32::MAX,
    ensures
        check@ == block_check(chkt, bytes@),
{
    let mut check: Vec<u8> = Vec::new();
    if chkt == CHECK_TWO {
        let value: u32 = sum_of(bytes) % 4096;
        check.push(tochar((value / 64) as u8));
        check.push(tochar((value % 64) as u8));
    } else if chkt == CHECK_THREE {
        let crc: u16 = crc16_kermit(bytes);
        check.push(tochar((crc / 4096) as u8));
        check.push(tochar((crc / 64 % 64) as u8));
        check.push(tochar((crc % 64) as u8));
    } else {
        let value: u32 = sum_of(bytes) % 256;
        check.push(tochar(((value + value / 64) % 64) as u8));
    }
    check
}

// ---------------------------------------------------------------------------
// Packets on their way out
// ---------------------------------------------------------------------------

/// The length character of a packet: everything after it, the check included.
pub open spec fn length_char(data_length: nat, chkt: u8) -> u8 {
    ((data_length + check_length(chkt) + 2) % 256 + 32) as u8
}

/// What the block check of a packet covers.
pub open spec fn covered(seq: u8, ptype: u8, data: Seq<u8>, chkt: u8) -> Seq<u8> {
    seq![length_char(data.len(), chkt), (seq % 64 + 32) as u8, ptype] + data
}

/// A whole packet: padding, the start, what the check covers, the check, and
/// the end of the line.
pub open spec fn packet_of(seq: u8, ptype: u8, data: Seq<u8>, params: Params) -> Seq<u8> {
    let body = covered(seq, ptype, data, params.chkt);
    Seq::new(params.npad as nat, |i: int| params.padc) + seq![SOH] + body + block_check(
        params.chkt,
        body,
    ) + seq![params.eol]
}

/// A whole packet, ready to be written.
pub fn build_packet(seq: u8, ptype: u8, data: &[u8], params: &Params) -> (packet: Vec<u8>)
    requires
        data@.len() + 5 <= usize::MAX,
        (data@.len() + check_length(params.chkt) + 2) % 256 <= 223,
        byte_sum(covered(seq, ptype, data@, params.chkt)) <= u32::MAX,
    ensures
        packet@ == packet_of(seq, ptype, data@, *params),
{
    let clen: usize = check_len(params.chkt);
    let length: usize = (data.len() + clen + 2) % 256;
    let mut body: Vec<u8> = Vec::new();
    body.push(tochar(length as u8));
    body.push(tochar(seq % 64));
    body.push(ptype);
    body.extend_from_slice(data);
    assert(body@ =~= covered(seq, ptype, data@, params.chkt));
    let check = checked(params.chkt, body.as_slice());

    let mut packet: Vec<u8> = Vec::new();
    for i in 0..params.npad
        invariant
            packet@ == Seq::new(i as nat, |j: int| params.padc),
    {
        packet.push(params.padc);
        assert(packet@ =~= Seq::new((i + 1) as nat, |j: int| params.padc));
    }
    packet.push(SOH);
    packet.extend_from_slice(body.as_slice());
    packet.extend_from_slice(check.as_slice());
    packet.push(params.eol);
    assert(packet@ =~= packet_of(seq, ptype, data@, *params));
    packet
}

/// What some bytes add up to, taken one after another.
pub open spec fn total(bytes: Seq<u8>) -> int {
    bytes.fold_left(0int, |sum: int, byte: u8| sum + byte)
}

pub proof fn lemma_total(bytes: Seq<u8>)
    ensures
        total(bytes) == byte_sum(bytes),
    decreases bytes.len(),
{
    if bytes.len() > 0 {
        lemma_total(bytes.drop_last());
    }
}

proof fn lemma_fold(sum: u8)
    ensures
        (sum + ((sum & 0xc0) >> 6)) % 64 == (sum + sum / 64) % 64,
        (sum & 0xc0) >> 6 <= 3,
{
    assert((sum & 0xc0) >> 6 == sum / 64) by (bit_vector);
    assert((sum & 0xc0) >> 6 <= 3) by (bit_vector);
}

/// The bytes of a packet that its check covers: from its length character up
/// to the check.
pub open spec fn checked_part(packet: Seq<u8>, padding: int, check: int) -> Seq<u8> {
    packet.subrange(padding + 1, packet.len() - 1 - check)
}

/// The character that the one-character check is: the sum of the bytes as a
/// byte, with its upper two bits added to it and the lower six of that kept.
pub open spec fn folded_char(bytes: Seq<u8>) -> int {
    let sum = (total(bytes) % 256) as u8;
    32 + (sum + ((sum & 0xc0) >> 6)) % 64
}

/// What a packet is made of, byte by byte: padding, the start character, how
/// many bytes follow up to the end of the check, the sequence number, the
/// type, the data, the check, and the end of the line.
pub proof fn a_packet_is_laid_out_in_order(
    seq: u8,
    ptype: u8,
    data: &[u8],
    params: &Params,
    packet: Vec<u8>,
)
    requires
        call_ensures(build_packet, (seq, ptype, data, params), packet),
    ensures
        ({
            let bytes = packet@;
            let start = params.npad as int;
            let check: int = if params.chkt == 0x32 {
                2
            } else if params.chkt == 0x33 {
                3
            } else {
                1
            };
            &&& bytes.len() == start + 4 + data@.len() + check + 1
            &&& forall|i: int| 0 <= i < start ==> #[trigger] bytes[i] == params.padc
            &&& bytes[start] == 1
            &&& bytes.len() - start - 3 <= 223 ==> bytes[start + 1] - 32 == bytes.len() - start - 3
            &&& bytes[start + 2] == 32 + seq % 64
            &&& bytes[start + 3] == ptype
            &&& bytes.subrange(start + 4, start + 4 + data@.len()) == data@
            &&& bytes.last() == params.eol
        }),
{
    let body = covered(seq, ptype, data@, params.chkt);
    let check = block_check(params.chkt, body);
    assert(check.len() == check_length(params.chkt));
    let start = params.npad as int;
    assert(body.len() == 3 + data@.len());
    assert forall|i: int| 0 <= i < body.len() implies packet@[start + 1 + i] == body[i] by {}
    assert(packet@[start + 1] == body[0]);
    assert(packet@[start + 2] == body[1]);
    assert(packet@[start + 3] == body[2]);
    assert(packet@.subrange(start + 4, start + 4 + data@.len()) =~= data@);
}

/// Every packet that is not closed by another check closes with one character
/// that depends only on the low eight bits of the sum of the bytes it covers:
/// the upper two of them are added to the byte, and six bits of that are kept.
pub proof fn the_short_check_is_the_folded_sum(
    seq: u8,
    ptype: u8,
    data: &[u8],
    params: &Params,
    packet: Vec<u8>,
)
    requires
        call_ensures(build_packet, (seq, ptype, data, params), packet),
        params.chkt != 0x32 && params.chkt != 0x33,
    ensures
        packet@[packet@.len() - 2] == folded_char(
            checked_part(packet@, params.npad as int, 1),
        ),
{
    let body = covered(seq, ptype, data@, params.chkt);
    lemma_total(body);
    lemma_fold((byte_sum(body) % 256) as u8);
    assert(checked_part(packet@, params.npad as int, 1) =~= body);
}

/// The two-character check spells the low twelve bits of the sum, six to a
/// character, the upper ones first.
pub proof fn the_longer_check_spells_the_sum(
    seq: u8,
    ptype: u8,
    data: &[u8],
    params: &Params,
    packet: Vec<u8>,
)
    requires
        call_ensures(build_packet, (seq, ptype, data, params), packet),
        params.chkt == 0x32,
    ensures
        ({
            let high = packet@[packet@.len() - 3] - 32;
            let low = packet@[packet@.len() - 2] - 32;
            &&& 0 <= high < 64 && 0 <= low < 64
            &&& high * 64 + low == total(checked_part(packet@, params.npad as int, 2)) % 4096
        }),
{
    let body = covered(seq, ptype, data@, params.chkt);
    lemma_total(body);
    assert(checked_part(packet@, params.npad as int, 2) =~= body);
}

/// The three-character check spells the CRC of the bytes it covers, the upper
/// four bits first and then six to a character.
pub proof fn the_longest_check_spells_the_crc(
    seq: u8,
    ptype: u8,
    data: &[u8],
    params: &Params,
    packet: Vec<u8>,
)
    requires
        call_ensures(build_packet, (seq, ptype, data, params), packet),
        params.chkt == 0x33,
    ensures
        ({
            let high = packet@[packet@.len() - 4] - 32;
            let middle = packet@[packet@.len() - 3] - 32;
            let low = packet@[packet@.len() - 2] - 32;
            &&& 0 <= high < 16 && 0 <= middle < 64 && 0 <= low < 64
            &&& high * 4096 + middle * 64 + low == crc_of(
                checked_part(packet@, params.npad as int, 3),
            )
        }),
{
    let body = covered(seq, ptype, data@, params.chkt);
    assert(checked_part(packet@, params.npad as int, 3) =~= body);
}

/// A packet that is read was closed by the check of what stands before it: by
/// the folded sum, or by what spells the sum or the CRC. Its number, type and
/// data are those between its length character and that check.
pub proof fn what_is_read_was_checked(bytes: Seq<u8>, chkt: u8)
    requires
        3 + check_length(chkt) <= bytes.len(),
        opened(bytes, chkt) is Ok,
    ensures
        chkt != 0x32 && chkt != 0x33 ==> {
            &&& bytes.last() == folded_char(bytes.drop_last())
            &&& opened(bytes, chkt)->Ok_0.data == bytes.subrange(3, bytes.len() - 1)
        },
        chkt == 0x32 ==> {
            &&& (bytes[bytes.len() - 2] - 32) * 64 + (bytes.last() - 32) == total(
                bytes.take(bytes.len() - 2),
            ) % 4096
            &&& opened(bytes, chkt)->Ok_0.data == bytes.subrange(3, bytes.len() - 2)
        },
        chkt == 0x33 ==> {
            &&& (bytes[bytes.len() - 3] - 32) * 4096 + (bytes[bytes.len() - 2] - 32) * 64 + (
            bytes.last() - 32) == crc_of(bytes.take(bytes.len() - 3))
            &&& opened(bytes, chkt)->Ok_0.data == bytes.subrange(3, bytes.len() - 3)
        },
        32 <= bytes[1] ==> opened(bytes, chkt)->Ok_0.seq == bytes[1] - 32,
        opened(bytes, chkt)->Ok_0.ptype == bytes[2],
{
    let clen = check_length(chkt) as int;
    let body = bytes.take(bytes.len() - clen);
    let check = bytes.skip(bytes.len() - clen);
    lemma_total(body);
    lemma_fold((byte_sum(body) % 256) as u8);
    assert(check.len() == clen);
    assert(check[clen - 1] == bytes.last());
    if chkt == 0x32 {
        assert(check[0] == bytes[bytes.len() - 2]);
    } else if chkt == 0x33 {
        assert(check[0] == bytes[bytes.len() - 3]);
        assert(check[1] == bytes[bytes.len() - 2]);
    } else {
        assert(body == bytes.drop_last());
    }
    assert(body.skip(3) =~= bytes.subrange(3, bytes.len() - clen));
}

/// Two packets whose bytes add up to the same, but for multiples of 256, close
/// with the same character.
pub proof fn the_short_check_knows_eight_bits(first: Seq<u8>, second: Seq<u8>, chkt: u8)
    requires
        chkt != 0x32 && chkt != 0x33,
        total(first) % 256 == total(second) % 256,
    ensures
        block_check(chkt, first) == block_check(chkt, second),
{
    lemma_total(first);
    lemma_total(second);
}

// ---------------------------------------------------------------------------
// Quoting
// ---------------------------------------------------------------------------

/// Whether a seven-bit character is one the line may swallow.
pub open spec fn is_control(low: u8) -> bool {
    low < 0x20 || low == 0x7f
}

/// A byte as it goes into a packet.
///
/// Bit 7 is kept when no quote for it was negotiated, so a byte such as 0x8d
/// is not mistaken for 0x0d by a receiver whose packet checks all pass.
pub open spec fn encoded_byte(byte: u8, params: Params) -> Seq<u8> {
    let high = params.qbin is Some && byte >= 0x80;
    let current = if high { (byte - 0x80) as u8 } else { byte };
    let low = current % 0x80;
    let quoted = if is_control(low) {
        seq![params.qctl, current ^ 0x40]
    } else if low == params.qctl || params.qbin == Some(low) {
        seq![params.qctl, current]
    } else {
        seq![current]
    };
    if high {
        seq![params.qbin->0] + quoted
    } else {
        quoted
    }
}

/// What goes into a packet for a byte: a character that the line may swallow
/// becomes the quote and the one 64 places away, a quote is quoted, anything
/// else stands for itself, and a byte with bit 7 set is the same without it
/// behind the quote for that, where there is one.
pub proof fn a_byte_is_quoted_as_the_protocol_has_it(byte: u8, params: Params)
    requires
        plain_quote(params.qctl),
        params.qbin matches Some(quote) ==> plain_quote(quote),
    ensures
        byte < 32 ==> encoded_byte(byte, params) == seq![params.qctl, (byte + 64) as u8],
        byte == 127 ==> encoded_byte(byte, params) == seq![params.qctl, 63u8],
        byte == params.qctl || params.qbin == Some(byte) ==> encoded_byte(byte, params) == seq![
            params.qctl,
            byte,
        ],
        32 <= byte < 127 && byte != params.qctl && params.qbin != Some(byte) ==> encoded_byte(
            byte,
            params,
        ) == seq![byte],
        byte >= 128 && params.qbin is Some ==> encoded_byte(byte, params) == seq![
            params.qbin->Some_0,
        ] + encoded_byte((byte - 128) as u8, params),
        128 <= byte < 160 && params.qbin is None ==> encoded_byte(byte, params) == seq![
            params.qctl,
            (byte + 64) as u8,
        ],
        160 <= byte < 255 && params.qbin is None && byte - 128 != params.qctl ==> encoded_byte(
            byte,
            params,
        ) == seq![byte],
{
    assert(byte < 32 ==> byte ^ 0x40 == byte + 64) by (bit_vector);
    assert(byte == 127 ==> byte ^ 0x40 == 63) by (bit_vector);
    assert(128 <= byte < 160 ==> byte ^ 0x40 == byte + 64) by (bit_vector);
}

/// Nothing that goes into a packet is a character that the line may swallow.
pub proof fn nothing_in_a_packet_is_swallowed(bytes: Seq<u8>, params: Params, at: int)
    requires
        plain_quote(params.qctl),
        params.qbin matches Some(quote) ==> plain_quote(quote),
        0 <= at < encoded(bytes, params).len(),
    ensures
        32 <= encoded(bytes, params)[at] % 128 < 127,
    decreases bytes.len(),
{
    if bytes.len() > 0 {
        let before = encoded(bytes.drop_last(), params);
        let byte = bytes.last();
        if at < before.len() {
            nothing_in_a_packet_is_swallowed(bytes.drop_last(), params, at);
        } else {
            let high = params.qbin is Some && byte >= 0x80;
            lemma_ctl(if high { (byte - 0x80) as u8 } else { byte });
        }
    }
}

/// Some bytes as they go into a packet.
pub open spec fn encoded(bytes: Seq<u8>, params: Params) -> Seq<u8>
    decreases bytes.len(),
{
    if bytes.len() == 0 {
        seq![]
    } else {
        encoded(bytes.drop_last(), params) + encoded_byte(bytes.last(), params)
    }
}

/// Puts one byte into a packet's data.
pub fn encode_byte(output: &mut Vec<u8>, byte: u8, params: &Params)
    ensures
        final(output)@ == old(output)@ + encoded_byte(byte, *params),
{
    let mut current: u8 = byte;
    if let Some(quote) = params.qbin {
        if byte >= 0x80 {
            output.push(quote);
            current = byte - 0x80;
        }
    }
    let low: u8 = current % 0x80;
    if low < 0x20 || low == 0x7f {
        output.push(params.qctl);
        output.push(ctl(current));
    } else if low == params.qctl || is_quote(params.qbin, low) {
        output.push(params.qctl);
        output.push(current);
    } else {
        output.push(current);
    }
    assert(output@ =~= old(output)@ + encoded_byte(byte, *params));
}

fn is_quote(quote: Option<u8>, ch: u8) -> (same: bool)
    ensures
        same == (quote == Some(ch)),
{
    match quote {
        Some(quote) => quote == ch,
        None => false,
    }
}

/// Whether a receiver can tell quoting characters apart from what they quote:
/// both are printable, neither is one that `ctl` produces, and they differ.
pub open spec fn quotable(params: Params) -> bool {
    &&& plain_quote(params.qctl)
    &&& params.qbin matches Some(quote) ==> plain_quote(quote) && quote != params.qctl
}

/// A character that quotes without being mistaken for a quoted control
/// character.
pub open spec fn plain_quote(quote: u8) -> bool {
    0x21 <= quote <= 0x3e || 0x60 <= quote <= 0x7e
}

/// What a receiver makes of a packet's data.
pub open spec fn decoded(data: Seq<u8>, params: Params) -> Option<Seq<u8>>
    decreases data.len(),
{
    if data.len() == 0 {
        Some(seq![])
    } else {
        let high = params.qbin == Some(data[0]);
        let rest = if high { data.skip(1) } else { data };
        if rest.len() == 0 || (rest[0] == params.qctl && rest.len() == 1) {
            None
        } else {
            let quoted = rest[0] == params.qctl;
            let ch = if quoted { rest[1] } else { rest[0] };
            let plain = if quoted && 0x3f <= ch % 0x80 <= 0x5f { ch ^ 0x40 } else { ch };
            let byte = if high { (plain + 0x80) as u8 } else { plain };
            match decoded(rest.skip(if quoted { 2int } else { 1int }), params) {
                Some(others) => Some(seq![byte] + others),
                None => None,
            }
        }
    }
}

proof fn lemma_ctl(byte: u8)
    ensures
        (byte ^ 0x40) ^ 0x40 == byte,
        byte % 0x80 < 0x20 ==> 0x40 <= (byte ^ 0x40) % 0x80 <= 0x5f,
        byte % 0x80 == 0x7f ==> (byte ^ 0x40) % 0x80 == 0x3f,
        byte < 0x80 ==> (byte ^ 0x40) < 0x80,
{
    assert((byte ^ 0x40) ^ 0x40 == byte) by (bit_vector);
    assert(byte % 0x80 < 0x20 ==> 0x40 <= (byte ^ 0x40) % 0x80 <= 0x5f) by (bit_vector);
    assert(byte % 0x80 == 0x7f ==> (byte ^ 0x40) % 0x80 == 0x3f) by (bit_vector);
    assert(byte < 0x80 ==> (byte ^ 0x40) < 0x80) by (bit_vector);
}

proof fn lemma_decode_one(byte: u8, rest: Seq<u8>, params: Params)
    requires
        quotable(params),
        decoded(rest, params) is Some,
    ensures
        decoded(encoded_byte(byte, params) + rest, params) == Some(
            seq![byte] + decoded(rest, params)->0,
        ),
{
    let high = params.qbin is Some && byte >= 0x80;
    let current = if high { (byte - 0x80) as u8 } else { byte };
    lemma_ctl(current);
    let one = encoded_byte(byte, params);
    let whole = one + rest;
    assert(whole.skip(one.len() as int) == rest);
    if high {
        assert(whole.skip(1).skip(one.len() - 1) == rest);
    }
}

proof fn lemma_decode_prefix(bytes: Seq<u8>, rest: Seq<u8>, params: Params)
    requires
        quotable(params),
        decoded(rest, params) is Some,
    ensures
        decoded(encoded(bytes, params) + rest, params) == Some(bytes + decoded(rest, params)->0),
    decreases bytes.len(),
{
    if bytes.len() == 0 {
        assert(encoded(bytes, params) + rest == rest);
        assert(bytes + decoded(rest, params)->0 == decoded(rest, params)->0);
    } else {
        let one = encoded_byte(bytes.last(), params);
        lemma_decode_one(bytes.last(), rest, params);
        lemma_decode_prefix(bytes.drop_last(), one + rest, params);
        assert(encoded(bytes, params) + rest == encoded(bytes.drop_last(), params) + (one + rest));
        assert(bytes.drop_last() + (seq![bytes.last()] + decoded(rest, params)->0) == bytes
            + decoded(rest, params)->0);
    }
}

/// Quoting loses nothing: a receiver gets back the bytes that were sent,
/// bit 7 included, whether or not a quote for it was negotiated.
pub proof fn decoding_undoes_encoding(bytes: Seq<u8>, params: Params)
    requires
        quotable(params),
    ensures
        decoded(encoded(bytes, params), params) == Some(bytes),
{
    lemma_decode_prefix(bytes, seq![], params);
    assert(encoded(bytes, params) + seq![] == encoded(bytes, params));
    assert(bytes + Seq::<u8>::empty() == bytes);
}

// ---------------------------------------------------------------------------
// Packets on their way in
// ---------------------------------------------------------------------------

/// Why what arrived is not a packet.
#[derive(Clone, Copy, Debug, PartialEq, Eq, Structural)]
pub enum PacketFault {
    /// The length leaves no room for a packet.
    Malformed,
    /// The bytes are not the ones that were sent.
    CheckMismatch,
}

/// What follows the first start character.
pub open spec fn after_start(bytes: Seq<u8>) -> Option<Seq<u8>>
    decreases bytes.len(),
{
    if bytes.len() == 0 {
        None
    } else if bytes[0] == SOH {
        Some(bytes.skip(1))
    } else {
        after_start(bytes.skip(1))
    }
}

/// The packet whose bytes, from its length character to its check, are
/// `bytes`.
pub open spec fn opened(bytes: Seq<u8>, chkt: u8) -> Result<PacketView, PacketFault> {
    let body = bytes.take(bytes.len() - check_length(chkt));
    if bytes.skip(bytes.len() - check_length(chkt)) == block_check(chkt, body) {
        Ok(PacketView { seq: unchar_of(body[1]), ptype: body[2], data: body.skip(3) })
    } else {
        Err(PacketFault::CheckMismatch)
    }
}

/// What `bytes` off the wire amount to: nothing yet, a packet, or something
/// that is not one.
pub open spec fn read_outcome(bytes: Seq<u8>, chkt: u8) -> Option<Result<PacketView, PacketFault>> {
    match after_start(bytes) {
        None => None,
        Some(rest) => {
            let count = unchar_of(rest[0]);
            if rest.len() == 0 {
                None
            } else if count < 2 + check_length(chkt) {
                Some(Err(PacketFault::Malformed))
            } else if rest.len() < 1 + count {
                None
            } else {
                Some(opened(rest.take(1 + count), chkt))
            }
        },
    }
}

/// What came of reading a byte, as a value.
pub open spec fn outcome_view(outcome: Option<Result<RxPacket, PacketFault>>) -> Option<
    Result<PacketView, PacketFault>,
> {
    match outcome {
        None => None,
        Some(Ok(packet)) => Some(Ok(packet@)),
        Some(Err(fault)) => Some(Err(fault)),
    }
}

proof fn lemma_after_start_push(bytes: Seq<u8>, byte: u8)
    ensures
        after_start(bytes.push(byte)) == (match after_start(bytes) {
            Some(rest) => Some(rest.push(byte)),
            None => if byte == SOH {
                Some(Seq::<u8>::empty())
            } else {
                None
            },
        }),
    decreases bytes.len(),
{
    reveal_with_fuel(after_start, 2);
    if bytes.len() == 0 {
        assert(bytes.push(byte).skip(1) == Seq::<u8>::empty());
    } else {
        assert(bytes.push(byte).skip(1) == bytes.skip(1).push(byte));
        lemma_after_start_push(bytes.skip(1), byte);
    }
}

pub proof fn lemma_sum_bound(bytes: Seq<u8>)
    ensures
        byte_sum(bytes) <= 255 * bytes.len(),
    decreases bytes.len(),
{
    if bytes.len() > 0 {
        lemma_sum_bound(bytes.drop_last());
    }
}

/// Puts a packet together from the bytes of a wire, one at a time.
pub struct PacketReader {
    chkt: u8,
    started: bool,
    rest: Vec<u8>,
    fed: Ghost<Seq<u8>>,
}

impl PacketReader {
    /// Everything that has been read so far.
    pub closed spec fn fed(&self) -> Seq<u8> {
        self.fed@
    }

    /// The block check that packets are closed with.
    pub closed spec fn chkt(&self) -> u8 {
        self.chkt
    }

    /// The reader remembers what follows the start character and nothing else.
    pub closed spec fn wf(&self) -> bool {
        &&& self.started == (after_start(self.fed@) is Some)
        &&& self.started ==> self.rest@ == after_start(self.fed@)->0
        &&& !self.started ==> self.rest@.len() == 0
    }

    /// A reader that has read nothing.
    pub fn new(chkt: u8) -> (reader: PacketReader)
        ensures
            reader.wf(),
            reader.chkt() == chkt,
            reader.fed() == Seq::<u8>::empty(),
            read_outcome(reader.fed(), chkt) is None,
    {
        PacketReader { chkt, started: false, rest: Vec::new(), fed: Ghost(Seq::empty()) }
    }

    /// Reads one more byte, and says what all of them amount to.
    pub fn feed(&mut self, byte: u8) -> (outcome: Option<Result<RxPacket, PacketFault>>)
        requires
            old(self).wf(),
            read_outcome(old(self).fed(), old(self).chkt()) is None,
        ensures
            final(self).wf(),
            final(self).chkt() == old(self).chkt(),
            final(self).fed() == old(self).fed().push(byte),
            outcome_view(outcome) == read_outcome(final(self).fed(), final(self).chkt()),
    {
        proof {
            lemma_after_start_push(self.fed@, byte);
        }
        self.fed = Ghost(self.fed@.push(byte));
        if !self.started {
            if byte == SOH {
                self.started = true;
                assert(self.rest@ == Seq::<u8>::empty());
            }
            return None;
        }
        self.rest.push(byte);
        let clen: usize = check_len(self.chkt);
        let count: usize = unchar(self.rest[0]) as usize;
        if count < 2 + clen {
            return Some(Err(PacketFault::Malformed));
        }
        if self.rest.len() < 1 + count {
            return None;
        }
        assert(self.rest@.take(1 + count) == self.rest@);
        Some(open_packet(self.rest.as_slice(), self.chkt))
    }
}

/// The packet in the bytes between its length character and its check.
fn open_packet(bytes: &[u8], chkt: u8) -> (packet: Result<RxPacket, PacketFault>)
    requires
        3 + check_length(chkt) <= bytes@.len() <= 256,
    ensures
        outcome_view(Some(packet)) == Some(opened(bytes@, chkt)),
{
    let clen: usize = check_len(chkt);
    let end: usize = bytes.len() - clen;
    let mut body: Vec<u8> = Vec::new();
    for i in 0..end
        invariant
            end <= bytes@.len(),
            body@ == bytes@.take(i as int),
    {
        body.push(bytes[i]);
    }
    proof {
        lemma_sum_bound(body@);
    }
    let check = checked(chkt, body.as_slice());
    assert(check@.len() == clen);
    for i in 0..clen
        invariant
            clen == check_length(chkt),
            bytes@.len() <= 256,
            check@.len() == clen,
            end == bytes@.len() - clen,
            body@ == bytes@.take(end as int),
            check@ == block_check(chkt, body@),
            forall|j: int| 0 <= j < i ==> bytes@[end + j] == check@[j],
    {
        if bytes[end + i] != check[i] {
            assert(bytes@.skip(end as int)[i as int] != check@[i as int]);
            return Err(PacketFault::CheckMismatch);
        }
    }
    assert(bytes@.skip(end as int) =~= check@);
    let mut data: Vec<u8> = Vec::new();
    for i in 3..body.len()
        invariant
            data@ == body@.subrange(3, i as int),
            3 <= body@.len(),
    {
        data.push(body[i]);
    }
    assert(data@ == body@.skip(3));
    Ok(RxPacket { seq: unchar(body[1]), ptype: body[2], data })
}

proof fn lemma_after_padding(padding: Seq<u8>, rest: Seq<u8>)
    requires
        forall|i: int| 0 <= i < padding.len() ==> padding[i] != SOH,
    ensures
        after_start(padding + seq![SOH] + rest) == Some(rest),
    decreases padding.len(),
{
    let whole = padding + seq![SOH] + rest;
    if padding.len() == 0 {
        assert(whole.skip(1) == rest);
    } else {
        assert(whole[0] == padding[0]);
        assert(whole.skip(1) == padding.skip(1) + seq![SOH] + rest);
        lemma_after_padding(padding.skip(1), rest);
    }
}

proof fn lemma_opened(body: Seq<u8>, chkt: u8)
    requires
        body.len() >= 3,
    ensures
        (body + block_check(chkt, body)).len() == body.len() + check_length(chkt),
        opened(body + block_check(chkt, body), chkt) == Ok::<PacketView, PacketFault>(
            PacketView { seq: unchar_of(body[1]), ptype: body[2], data: body.skip(3) },
        ),
{
    let check = block_check(chkt, body);
    let whole = body + check;
    assert(check.len() == check_length(chkt));
    assert(whole.take(whole.len() - check_length(chkt)) == body);
    assert(whole.skip(whole.len() - check_length(chkt)) == check);
}

/// A packet that was built is read back as it was meant, whichever check
/// closes it, before the end of the line has even arrived.
pub proof fn reading_undoes_building(seq: u8, ptype: u8, data: Seq<u8>, params: Params)
    requires
        data.len() + check_length(params.chkt) + 2 <= 223,
        params.npad == 0 || params.padc != SOH,
    ensures
        ({
            let packet = packet_of(seq, ptype, data, params);
            read_outcome(packet.drop_last(), params.chkt) == Some(
                Ok::<PacketView, PacketFault>(
                    PacketView { seq: (seq % 64) as u8, ptype, data },
                ),
            )
        }),
{
    let packet = packet_of(seq, ptype, data, params);
    let padding = Seq::new(params.npad as nat, |i: int| params.padc);
    let body = covered(seq, ptype, data, params.chkt);
    let rest = body + block_check(params.chkt, body);
    lemma_opened(body, params.chkt);
    assert(packet.drop_last() == padding + seq![SOH] + rest);
    lemma_after_padding(padding, rest);
    let count = data.len() + check_length(params.chkt) + 2;
    assert(rest[0] == body[0]);
    assert(unchar_of(rest[0]) == count);
    assert(rest.take(1 + count as int) == rest);
    assert(body.skip(3) == data);
    assert(body[1] == (seq % 64 + 32) as u8);
    assert(unchar_of(body[1]) == seq % 64);
}

/// What comes before the start of a packet is passed over.
pub proof fn noise_before_a_packet_is_passed_over(noise: Seq<u8>, bytes: Seq<u8>, chkt: u8)
    requires
        !noise.contains(1u8),
    ensures
        read_outcome(noise + bytes, chkt) == read_outcome(bytes, chkt),
    decreases noise.len(),
{
    if noise.len() == 0 {
        assert(noise + bytes == bytes);
    } else {
        let rest = noise.skip(1);
        assert(noise.contains(noise[0]));
        assert forall|i: int| 0 <= i < rest.len() implies rest[i] != 1u8 by {
            assert(noise.contains(noise[i + 1]));
        }
        noise_before_a_packet_is_passed_over(rest, bytes, chkt);
        assert((noise + bytes).skip(1) == rest + bytes);
    }
}

/// A packet is as long as its length character says: it is not one where that
/// leaves no room for a number, a type and the check, it has not arrived until
/// so much has, and nothing behind that counts.
pub proof fn a_packet_is_as_long_as_it_says(bytes: Seq<u8>, more: Seq<u8>, chkt: u8)
    requires
        bytes.len() >= 2,
        bytes[0] == 1,
        32 <= bytes[1],
    ensures
        ({
            let length = bytes[1] - 32;
            let outcome = read_outcome(bytes, chkt);
            &&& outcome == Some(Err::<PacketView, PacketFault>(PacketFault::Malformed)) <==> length
                < 2 + check_length(chkt)
            &&& outcome is None <==> length >= 2 + check_length(chkt) && bytes.len() < 2 + length
            &&& bytes.len() >= 2 + length ==> read_outcome(bytes + more, chkt) == outcome
        }),
{
    let rest = bytes.skip(1);
    let longer = (bytes + more).skip(1);
    let length: int = bytes[1] - 32;
    assert(rest[0] == bytes[1]);
    assert(longer == rest + more);
    if bytes.len() >= 2 + length {
        assert(longer.take(1 + length) == rest.take(1 + length));
    }
}

/// A reader says of what it is fed what all of it amounts to.
pub proof fn a_reader_says_what_it_was_fed()
    ensures
        forall|reader: &mut PacketReader, byte: u8, outcome: Option<Result<RxPacket, PacketFault>>|
            #[trigger] call_ensures(PacketReader::feed, (reader, byte), outcome) ==> {
                &&& final(reader).fed() == reader.fed().push(byte)
                &&& final(reader).chkt() == reader.chkt()
                &&& outcome_view(outcome) == read_outcome(reader.fed().push(byte), reader.chkt())
            },
{
}

/// Bytes with their CRC behind them, the lower half first, have none left.
pub proof fn a_crc_cancels_itself(bytes: &[u8], crc: u16, closed: &[u8], left: u16)
    requires
        call_ensures(crc16_kermit, (bytes,), crc),
        closed@ == bytes@.push((crc % 256) as u8).push((crc / 256) as u8),
        call_ensures(crc16_kermit, (closed,), left),
    ensures
        left == 0,
{
    let low = (crc % 256) as u8;
    let high = (crc / 256) as u8;
    let once = bytes@.push(low);
    assert(once.drop_last() == bytes@);
    assert(closed@.drop_last() == once);
    reveal_with_fuel(crc_of, 2);
    assert(once.last() == low);
    assert(crc_of(once) == crc_byte(crc, low));
    assert(closed@.last() == high);
    assert(crc_of(closed@) == crc_byte(crc_of(once), high));
    lemma_crc_cancels(crc, low, high);
}

proof fn lemma_crc_cancels(crc: u16, low: u8, high: u8)
    requires
        low == crc % 256,
        high == crc / 256,
    ensures
        crc_byte(crc_byte(crc, low), high) == 0,
{
    assert(crc_byte(crc, low) == crc >> 8) by (bit_vector)
        requires
            low == crc % 256,
    ;
    assert(crc_byte(crc >> 8, high) == 0) by (bit_vector)
        requires
            high == crc / 256,
    ;
}

} // verus!
