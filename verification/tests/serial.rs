use rosco_cli::serial::{
    leaves, summary, Console, ConsoleKind, ConsoleRead, ConsoleStep, PortKind, UsbDetails,
};

fn shown(console: &mut Console, bytes: &[u8]) -> Vec<u8> {
    match console.read(ConsoleRead::Bytes(bytes.to_vec())) {
        ConsoleStep::Show(shown) => shown,
        _ => panic!("what the board said is shown"),
    }
}

#[test]
fn every_line_starts_at_the_left_of_a_raw_terminal() {
    let mut console = Console::new(ConsoleKind::Uart, true);
    assert_eq!(shown(&mut console, b"one\ntwo\r\n"), b"one\r\ntwo\r\n");
    // A carriage return at the end of one read belongs to the next.
    assert_eq!(shown(&mut console, b"three\r"), b"three\r");
    assert_eq!(shown(&mut console, b"\n\n"), b"\n\r\n");

    let mut console = Console::new(ConsoleKind::Uart, false);
    assert_eq!(shown(&mut console, b"one\ntwo"), b"one\ntwo");
}

#[test]
fn reads_can_be_cut_anywhere() {
    let text = b"a\r\nb\n\n\rc\n";
    let whole = shown(&mut Console::new(ConsoleKind::Emulator, true), text);
    for cut in 0..=text.len() {
        let mut console = Console::new(ConsoleKind::Emulator, true);
        let mut parts = Vec::new();
        for part in [&text[..cut], &text[cut..]] {
            if !part.is_empty() {
                parts.extend(shown(&mut console, part));
            }
        }
        assert_eq!(parts, whole);
    }
}

#[test]
fn an_empty_read_means_something_else_on_each_console() {
    let mut uart = Console::new(ConsoleKind::Uart, true);
    assert!(matches!(uart.read(ConsoleRead::Nothing), ConsoleStep::Continue));
    assert!(matches!(uart.read(ConsoleRead::Quiet), ConsoleStep::Continue));
    let mut emulator = Console::new(ConsoleKind::Emulator, true);
    assert!(matches!(emulator.read(ConsoleRead::Nothing), ConsoleStep::Close));
    assert!(matches!(emulator.read(ConsoleRead::Quiet), ConsoleStep::Continue));
    assert!(matches!(
        emulator.read(ConsoleRead::Failed("gone".to_string())),
        ConsoleStep::Fail(words) if words == "console read failed: gone"
    ));
    assert_eq!(
        ConsoleKind::Uart.banner(),
        "Interactive UART session; press Ctrl-C to exit."
    );
    assert_eq!(ConsoleKind::Emulator.closing(), "\r\nEmulator stopped.");
}

#[test]
fn two_keys_leave_the_session() {
    assert!(leaves(b"abc\x03"));
    assert!(leaves(b"\x1dabc"));
    assert!(!leaves(b"abc\r"));
    assert!(!leaves(b""));
}

#[test]
fn a_port_says_what_it_is() {
    let usb = PortKind::Usb(UsbDetails {
        vid: 0x0403,
        pid: 0x6001,
        manufacturer: Some("FTDI".to_string()),
        product: Some(String::new()),
        serial_number: Some("A1".to_string()),
    });
    let port = summary("/dev/ttyUSB0".to_string(), &usb);
    assert_eq!(port.name, "/dev/ttyUSB0");
    assert_eq!(port.kind, "USB 0403:6001 · FTDI · serial A1");
    assert!(port.is_usb);

    for (kind, words) in [
        (PortKind::Bluetooth, "Bluetooth"),
        (PortKind::Pci, "PCI"),
        (PortKind::Unknown, "Serial"),
    ] {
        let port = summary("x".to_string(), &kind);
        assert_eq!(port.kind, words);
        assert!(!port.is_usb);
    }
}
