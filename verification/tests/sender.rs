use rosco_cli::kermit::{build_packet, tochar, PacketFault, PacketReader, Params, RxPacket};
use rosco_cli::sender::{
    parse_params, send_file, transfer_name, Failure, KermitError, KermitOptions, Reply, Step,
};

fn options(max_retries: u32) -> KermitOptions {
    KermitOptions {
        max_retries,
        packet_timeout_ms: 100,
    }
}

fn packet(seq: u8, ptype: u8, data: &[u8]) -> Reply {
    Reply::Packet(RxPacket {
        seq,
        ptype,
        data: data.to_vec(),
    })
}

fn plain() -> Params {
    Params {
        maxl: 94,
        eol: b'\r',
        qctl: b'#',
        qbin: None,
        chkt: b'1',
        npad: 0,
        padc: 0,
    }
}

fn read(bytes: &[u8]) -> RxPacket {
    let mut reader = PacketReader::new(b'1');
    for byte in bytes {
        match reader.feed(*byte) {
            Some(Ok(packet)) => return packet,
            Some(Err(_)) => panic!("the sender writes sound packets"),
            None => {}
        }
    }
    panic!("the packet is complete")
}

fn sent(step: Step) -> Vec<u8> {
    match step {
        Step::Send(bytes) => bytes,
        _ => panic!("a packet is written"),
    }
}

#[test]
fn a_file_goes_out_packet_by_packet_and_is_reported() {
    let (mut transfer, step) =
        send_file("HELLO.BIN".to_string(), b"abc".to_vec(), options(6), false);
    let first = read(&sent(step));
    assert_eq!((first.seq, first.ptype), (0, b'S'));
    assert_eq!(
        first.data,
        [112, 37, 32, 64, 45, b'#', b'Y', b'1', b' ']
    );

    let next = transfer.answer(packet(0, b'Y', &[]), false);
    let shown = next.progress.expect("the start is reported");
    assert_eq!((shown.name.as_str(), shown.sent, shown.total), ("HELLO.BIN", 0, 3));
    let header = read(&sent(next.step));
    assert_eq!((header.seq, header.ptype), (1, b'F'));
    assert_eq!(header.data, b"HELLO.BIN");

    let next = transfer.answer(packet(1, b'Y', &[]), false);
    assert!(next.progress.is_none());
    let data = read(&sent(next.step));
    assert_eq!((data.seq, data.ptype), (2, b'D'));
    assert_eq!(data.data, b"abc");

    let next = transfer.answer(packet(2, b'Y', &[]), false);
    assert_eq!(next.progress.expect("the data is reported").sent, 3);
    assert_eq!(read(&sent(next.step)).ptype, b'Z');

    let next = transfer.answer(packet(3, b'Y', &[]), false);
    let last = read(&sent(next.step));
    assert_eq!((last.seq, last.ptype), (4, b'B'));

    let next = transfer.answer(packet(4, b'Y', &[]), false);
    assert!(matches!(next.step, Step::Done(name) if name == "HELLO.BIN"));
}

#[test]
fn long_files_are_cut_into_packets_that_fit() {
    let bytes: Vec<u8> = (0..=255).collect();
    let (mut transfer, _) = send_file("A".to_string(), bytes.clone(), options(1), false);
    transfer.answer(packet(0, b'Y', &[]), false);
    let mut seq = 1;
    let mut carried = Vec::new();
    loop {
        let next = transfer.answer(packet(seq, b'Y', &[]), false);
        let written = sent(next.step);
        let data = read(&written);
        if data.ptype != b'D' {
            break;
        }
        assert!(data.data.len() <= 94);
        // Nothing was negotiated but the control quote.
        let mut rest = data.data.iter();
        while let Some(byte) = rest.next() {
            if *byte != b'#' {
                carried.push(*byte);
                continue;
            }
            let quoted = *rest.next().expect("a quote has something behind it");
            carried.push(if quoted & 0x7f == b'#' { quoted } else { quoted ^ 0x40 });
        }
        seq = data.seq;
    }
    assert_eq!(carried, bytes);
}

#[test]
fn a_packet_that_was_not_acknowledged_is_written_again() {
    let (mut transfer, first) = send_file("A".to_string(), Vec::new(), options(2), false);
    let first = sent(first);
    let next = transfer.answer(Reply::Silence, false);
    assert_eq!(sent(next.step), first);

    let next = transfer.answer(Reply::Fault(PacketFault::CheckMismatch), false);
    let Step::Fail(error) = next.step else {
        panic!("two attempts are all there are");
    };
    assert!(matches!(error, KermitError::InitFailed(Failure::Fault(_))));
    assert_eq!(
        error.message(),
        "Kermit Send-Init failed: Kermit block check mismatch"
    );
}

#[test]
fn an_acknowledgement_of_another_packet_does_not_count() {
    let (mut transfer, _) = send_file("A".to_string(), Vec::new(), options(1), false);
    transfer.answer(packet(0, b'Y', &[]), false);
    let next = transfer.answer(packet(0, b'Y', &[]), false);
    let Step::Fail(error) = next.step else {
        panic!("one attempt is all there is");
    };
    assert_eq!(
        error.message(),
        "Kermit retries exhausted: unexpected Kermit reply"
    );
}

#[test]
fn no_retries_still_means_one_attempt() {
    let (mut transfer, step) = send_file("A".to_string(), Vec::new(), options(0), false);
    assert!(matches!(step, Step::Send(_)));
    let next = transfer.answer(Reply::Silence, false);
    assert!(matches!(next.step, Step::Fail(KermitError::InitFailed(Failure::Silence))));
}

#[test]
fn an_error_packet_ends_the_transfer_in_the_boards_words() {
    let (mut transfer, _) = send_file("A".to_string(), Vec::new(), options(6), false);
    let next = transfer.answer(packet(0, b'E', b"no room\xff"), false);
    let Step::Fail(error) = next.step else {
        panic!("an error ends it");
    };
    assert_eq!(error.message(), "remote error: no room\u{fffd}");
}

#[test]
fn a_name_that_does_not_fit_says_what_would() {
    let name = "N".repeat(100);
    let (mut transfer, _) = send_file(name.clone(), Vec::new(), options(6), false);
    let next = transfer.answer(packet(0, b'Y', &[]), false);
    assert_eq!(next.progress.expect("reported all the same").sent, 0);
    let Step::Fail(error) = next.step else {
        panic!("the name is too long");
    };
    assert_eq!(
        error.message(),
        format!(
            "file name is too long for a Kermit short packet; rename `{name}` to 77 encoded \
             bytes or fewer"
        )
    );
}

#[test]
fn giving_up_writes_nothing_more() {
    let (_, step) = send_file("A".to_string(), Vec::new(), options(6), true);
    assert!(matches!(step, Step::Fail(KermitError::Cancelled)));

    let (mut transfer, _) = send_file("A".to_string(), Vec::new(), options(6), false);
    let next = transfer.answer(Reply::Cancelled, true);
    let Step::Fail(error) = next.step else {
        panic!("the user gave up");
    };
    assert_eq!(error.message(), "transfer cancelled");
}

#[test]
fn a_wire_that_fails_is_quoted() {
    let (mut transfer, _) = send_file("A".to_string(), Vec::new(), options(1), false);
    let next = transfer.answer(Reply::Lost("unplugged".to_string()), false);
    let Step::Fail(error) = next.step else {
        panic!("one attempt is all there is");
    };
    assert_eq!(
        error.message(),
        "Kermit Send-Init failed: could not read Kermit response: unplugged"
    );
}

#[test]
fn the_receiver_decides_how_packets_look() {
    let params = parse_params(&[
        tochar(60),
        tochar(5),
        tochar(2),
        b'@',
        tochar(10),
        b'#',
        b'&',
        b'3',
    ]);
    assert_eq!(params.maxl, 60);
    assert_eq!(params.npad, 2);
    assert_eq!(params.padc, 0);
    assert_eq!(params.eol, 10);
    assert_eq!(params.qctl, b'#');
    assert_eq!(params.qbin, Some(b'&'));
    assert_eq!(params.chkt, b'3');

    let silent = parse_params(&[]);
    assert_eq!(silent.maxl, 80);
    assert_eq!(silent.eol, b'\r');
    assert_eq!(silent.qbin, None);
    assert_eq!(silent.chkt, b'1');
    // Longer than a short packet is not taken at its word.
    assert_eq!(parse_params(&[tochar(120)]).maxl, 94);
}

#[test]
fn the_negotiated_check_is_used_from_the_file_header_on() {
    let (mut transfer, _) = send_file("A".to_string(), Vec::new(), options(1), false);
    assert_eq!(transfer.reply_check(), b'1');
    let reply = [tochar(80), 0, 0, 0, tochar(13), b'#', b'N', b'2'];
    let next = transfer.answer(packet(0, b'Y', &reply), false);
    assert_eq!(transfer.reply_check(), b'2');
    let expected = Params {
        maxl: 80,
        chkt: b'2',
        npad: 224,
        padc: 0x40,
        ..plain()
    };
    assert_eq!(sent(next.step), build_packet(1, b'F', b"A", &expected));
}

#[test]
fn a_path_without_a_name_is_sent_under_one() {
    assert_eq!(transfer_name(Some("hello.bin".to_string())), "hello.bin");
    assert_eq!(transfer_name(None), "PROGRAM.BIN");
}
