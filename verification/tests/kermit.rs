use rosco_cli::kermit::{
    build_packet, crc16_kermit, ctl, encode_byte, tochar, unchar, PacketFault, PacketReader,
    Params, RxPacket, SOH,
};

fn params(chkt: u8, qbin: Option<u8>) -> Params {
    Params {
        maxl: 94,
        eol: b'\r',
        qctl: b'#',
        qbin,
        chkt,
        npad: 0,
        padc: 0,
    }
}

#[test]
fn character_helpers_round_trip() {
    for byte in 0_u8..=94 {
        assert_eq!(unchar(tochar(byte)), byte);
    }
    assert_eq!(ctl(ctl(13)), 13);
}

#[test]
fn crc_matches_kermit_reference_vector() {
    assert_eq!(crc16_kermit(b"123456789"), 0x2189);
}

#[test]
fn encodes_control_and_quote_characters() {
    let params = params(b'1', None);
    let mut output = Vec::new();
    encode_byte(&mut output, 0x00, &params);
    assert_eq!(output, [b'#', b'@']);

    output.clear();
    encode_byte(&mut output, b'#', &params);
    assert_eq!(output, [b'#', b'#']);
}

#[test]
fn keeps_high_bit_when_binary_quote_is_not_negotiated() {
    let params = params(b'1', None);
    let mut output = Vec::new();
    encode_byte(&mut output, 0x8d, &params);
    assert_eq!(output, [b'#', 0xcd]);
    assert_eq!(ctl(output[1]), 0x8d);
}

#[test]
fn uses_binary_quote_when_negotiated() {
    let params = params(b'1', Some(b'&'));
    let mut output = Vec::new();
    encode_byte(&mut output, 0xc1, &params);
    assert_eq!(output, [b'&', b'A']);
}

#[test]
fn builds_expected_type_one_packet_length() {
    let params = params(b'1', None);
    let packet = build_packet(0, b'S', b"ABC", &params);
    assert_eq!(packet[0], SOH);
    assert_eq!(unchar(packet[1]), 6);
}

fn read_all(chkt: u8, bytes: &[u8]) -> Option<Result<RxPacket, PacketFault>> {
    let mut reader = PacketReader::new(chkt);
    for byte in bytes {
        if let Some(outcome) = reader.feed(*byte) {
            return Some(outcome);
        }
    }
    None
}

#[test]
fn a_packet_is_read_back_under_every_check() {
    for chkt in [b'1', b'2', b'3'] {
        let packet = build_packet(9, b'D', b"hello#@", &params(chkt, None));
        let read = read_all(chkt, &packet).expect("the packet is complete");
        let Ok(read) = read else {
            panic!("the packet is sound");
        };
        assert_eq!(read.seq, 9);
        assert_eq!(read.ptype, b'D');
        assert_eq!(read.data, b"hello#@");
    }
}

#[test]
fn noise_before_a_packet_is_skipped() {
    let mut bytes = b"firmware says hi\r\n".to_vec();
    bytes.extend(build_packet(0, b'Y', b"", &params(b'1', None)));
    assert!(matches!(read_all(b'1', &bytes), Some(Ok(_))));
}

#[test]
fn a_damaged_packet_is_told_apart_from_a_malformed_one() {
    let mut packet = build_packet(1, b'Y', b"abc", &params(b'1', None));
    packet[4] ^= 0x01;
    assert!(matches!(
        read_all(b'1', &packet),
        Some(Err(PacketFault::CheckMismatch))
    ));
    assert!(matches!(
        read_all(b'1', &[SOH, tochar(2)]),
        Some(Err(PacketFault::Malformed))
    ));
    assert!(read_all(b'1', &[SOH]).is_none());
}

#[test]
fn exact_packets_for_each_check() {
    // Length 3, sequence 0, type Y: 35 + 32 + 89 = 156, folded to 30.
    assert_eq!(
        build_packet(0, b'Y', b"", &params(b'1', None)),
        [SOH, 35, 32, b'Y', tochar(30), b'\r']
    );
    // Twelve bits of the sum in two characters: 36 + 32 + 89 = 157.
    assert_eq!(
        build_packet(0, b'Y', b"", &params(b'2', None)),
        [SOH, 36, 32, b'Y', tochar(2), tochar(29), b'\r']
    );
    let padded = Params {
        npad: 2,
        padc: 0x7f,
        ..params(b'1', None)
    };
    assert_eq!(
        build_packet(0, b'Y', b"", &padded),
        [0x7f, 0x7f, SOH, 35, 32, b'Y', tochar(30), b'\r']
    );
}
