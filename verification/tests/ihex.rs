use std::io::{ErrorKind, Read, Write};

use rosco_cli::ihex::{
    end_of_file, record, records, send_program, Heard, HexOptions, LoadError, LoadStep,
};

#[test]
fn a_record_carries_its_address_and_a_checksum_that_zeroes_the_line() {
    let Ok(lines) = records(&[0xA9, 0x08], 0x0800) else {
        panic!("the program fits");
    };
    assert_eq!(lines, [":02080000A90845"]);

    // The whole record, checksum included, sums to zero.
    let line = &lines[0];
    let sum = line.as_bytes()[1..]
        .chunks(2)
        .map(|pair| u8::from_str_radix(std::str::from_utf8(pair).unwrap(), 16).unwrap())
        .fold(0_u8, u8::wrapping_add);
    assert_eq!(sum, 0);
}

#[test]
fn long_programs_are_split_into_addressed_records() {
    let Ok(lines) = records(&[0; 20], 0x0800) else {
        panic!("the program fits");
    };
    assert_eq!(lines.len(), 2);
    assert!(lines[0].starts_with(":10080000"), "{}", lines[0]);
    assert!(lines[1].starts_with(":04081000"), "{}", lines[1]);
}

#[test]
fn the_end_of_file_record_is_the_one_the_monitor_stops_on() {
    assert_eq!(end_of_file(), ":00000001FF");
}

#[test]
fn a_program_that_would_run_past_the_top_of_memory_is_refused() {
    let Err(error) = records(&[0; 0x100], 0xFF80) else {
        panic!("the program does not fit");
    };
    let error = error.message();
    assert!(error.contains("does not fit"), "{error}");
    assert_eq!(
        error,
        "the program does not fit in memory: 256 bytes at $FF80 would run past $FFFF"
    );
}

#[test]
fn a_program_may_end_exactly_at_the_top_of_memory() {
    let Ok(lines) = records(&[0xEA; 0x80], 0xFF80) else {
        panic!("the program fits");
    };
    assert_eq!(lines.len(), 8);
    assert!(lines[7].starts_with(":10FFF000"), "{}", lines[7]);
}

#[test]
fn a_checksum_can_be_nothing() {
    assert_eq!(record(0, 0, &[]), ":0000000000");
    assert_eq!(record(0x1234, 0, &[0xff, 0x01]), ":02123400FF01B8");
}

/// Enough of the monitor to drive a whole transfer without a board on the
/// desk, including the two things about it that are easy to get wrong: a
/// command line ends at the carriage return, and a line the loader reads
/// without a colon in it damages the transfer.
struct FakeMonitor {
    input: Vec<u8>,
    output: Vec<u8>,
    loading: bool,
    damaged: bool,
    /// What the records asked to be written, by address.
    memory: Vec<(u16, Vec<u8>)>,
    /// Records to reject once before accepting, by their line.
    reject_once: Vec<String>,
    commands: Vec<String>,
}

impl FakeMonitor {
    fn new() -> Self {
        Self {
            input: Vec::new(),
            output: Vec::new(),
            loading: false,
            damaged: false,
            memory: Vec::new(),
            reject_once: Vec::new(),
            commands: Vec::new(),
        }
    }

    fn command(&mut self, line: &str) {
        let line = line.trim();
        if line.is_empty() {
            return;
        }
        self.commands.push(line.to_string());
        if line == "L" {
            self.loading = true;
            self.output
                .extend_from_slice(b"\r\nStart Intel hex file load:\r\n");
        }
    }

    fn record(&mut self, line: &str) {
        let Some(start) = line.find(':') else {
            self.damaged = true;
            return;
        };
        let line = line[start..].trim();

        if let Some(position) = self.reject_once.iter().position(|held| held == line) {
            self.reject_once.remove(position);
            self.output.push(b'X');
            return;
        }

        let count = u8::from_str_radix(&line[1..3], 16).unwrap() as usize;
        let address = u16::from_str_radix(&line[3..7], 16).unwrap();
        let kind = u8::from_str_radix(&line[7..9], 16).unwrap();
        if kind == 0x01 {
            self.loading = false;
            self.output.extend_from_slice(if self.damaged {
                b"\r\nLoad failed with checksum error!\r\n".as_slice()
            } else {
                b"\r\nLoad successful. Start:0800 Bytes:0016\r\n".as_slice()
            });
            return;
        }

        let data = (0..count)
            .map(|index| u8::from_str_radix(&line[9 + index * 2..11 + index * 2], 16).unwrap())
            .collect();
        self.memory.push((address, data));
        self.output.push(b'.');
    }
}

impl Write for FakeMonitor {
    fn write(&mut self, buffer: &[u8]) -> std::io::Result<usize> {
        self.input.extend_from_slice(buffer);
        loop {
            // The command reader stops at a carriage return; the hex loader
            // reads on until a line feed.
            let terminator = if self.loading { b'\n' } else { b'\r' };
            let Some(end) = self.input.iter().position(|&byte| byte == terminator) else {
                break;
            };
            let line: Vec<u8> = self.input.drain(..=end).collect();
            let line = String::from_utf8_lossy(&line).into_owned();
            if self.loading {
                self.record(&line);
            } else {
                self.command(&line);
            }
        }
        Ok(buffer.len())
    }

    fn flush(&mut self) -> std::io::Result<()> {
        Ok(())
    }
}

impl Read for FakeMonitor {
    fn read(&mut self, buffer: &mut [u8]) -> std::io::Result<usize> {
        if self.output.is_empty() {
            return Err(std::io::Error::from(ErrorKind::TimedOut));
        }
        let count = self.output.len().min(buffer.len());
        buffer[..count].copy_from_slice(&self.output[..count]);
        self.output.drain(..count);
        Ok(count)
    }
}

fn options() -> HexOptions {
    HexOptions {
        load_address: 0x0800,
        reply_timeout_ms: 200,
        max_retries: 2,
    }
}

/// Runs a load to its end. The clock stops after so many reads that brought
/// nothing.
fn load<S: Read + Write>(
    console: &mut S,
    program: &[u8],
    options: HexOptions,
    reported: &mut Vec<usize>,
) -> Result<(), LoadError> {
    let (mut loader, mut step) = send_program("hello.bin".to_string(), program, options)?;
    let mut quiet = 0;
    loop {
        match step {
            LoadStep::Type(keys) => {
                for byte in keys.bytes() {
                    console.write_all(&[byte]).unwrap();
                }
                quiet = 0;
            }
            LoadStep::Write(text) => {
                console.write_all(text.as_bytes()).unwrap();
                quiet = 0;
            }
            LoadStep::Listen => {}
            LoadStep::ListenFor(_) => quiet = 0,
            LoadStep::Start(keys) => {
                for byte in keys.bytes() {
                    console.write_all(&[byte]).unwrap();
                }
                return Ok(());
            }
            LoadStep::Fail(error) => return Err(error),
        }
        let mut buffer = vec![0; loader.read_size()];
        let heard = match console.read(&mut buffer) {
            Ok(count) => Heard::Bytes(buffer[..count].to_vec()),
            Err(_) => {
                quiet += 1;
                Heard::Nothing
            }
        };
        let next = loader.heard(heard, quiet > 3);
        if let Some(progress) = next.progress {
            assert_eq!(progress.name, "hello.bin");
            assert_eq!(progress.total, program.len());
            reported.push(progress.sent);
        }
        step = next.step;
    }
}

#[test]
fn a_whole_program_reaches_memory_and_is_then_started() {
    let mut monitor = FakeMonitor::new();
    let program: Vec<u8> = (0..20).collect();
    let mut reported = Vec::new();

    assert!(load(&mut monitor, &program, options(), &mut reported).is_ok());

    assert_eq!(
        monitor.memory,
        [
            (0x0800, (0..16).collect::<Vec<u8>>()),
            (0x0810, (16..20).collect::<Vec<u8>>()),
        ]
    );
    assert_eq!(monitor.commands, ["L", "0800R"]);
    assert_eq!(reported, [0, 16, 20]);
    // Nothing the sender wrote was read as a record it could not parse.
    assert!(!monitor.damaged);
}

#[test]
fn a_record_the_board_could_not_read_is_sent_again() {
    let mut monitor = FakeMonitor::new();
    let program = vec![0xEA; 16];
    let Ok(lines) = records(&program, 0x0800) else {
        panic!("the program fits");
    };
    monitor.reject_once = lines;

    assert!(load(&mut monitor, &program, options(), &mut Vec::new()).is_ok());

    assert_eq!(monitor.memory, [(0x0800, program)]);
}

#[test]
fn a_record_rejected_for_ever_says_how_often() {
    let mut monitor = FakeMonitor::new();
    let program = vec![0xEA; 16];
    let Ok(lines) = records(&program, 0x0800) else {
        panic!("the program fits");
    };
    monitor.reject_once = vec![lines[0].clone(), lines[0].clone(), lines[0].clone()];

    let Err(error) = load(&mut monitor, &program, options(), &mut Vec::new()) else {
        panic!("the record was never accepted");
    };
    assert_eq!(
        error.message(),
        "the board reported a checksum error on the same record 3 times; try a lower serial.baud"
    );
}

#[test]
fn a_load_the_monitor_calls_failed_is_quoted() {
    let mut monitor = FakeMonitor::new();
    monitor.damaged = true;

    let Err(error) = load(&mut monitor, &[0xEA], options(), &mut Vec::new()) else {
        panic!("the monitor said that it failed");
    };
    assert_eq!(
        error.message(),
        "the board rejected the transfer: Load failed with checksum error!"
    );
    assert_eq!(monitor.commands, ["L"]);
}

struct Silent;

impl Read for Silent {
    fn read(&mut self, _: &mut [u8]) -> std::io::Result<usize> {
        Err(std::io::Error::from(ErrorKind::TimedOut))
    }
}

impl Write for Silent {
    fn write(&mut self, buffer: &[u8]) -> std::io::Result<usize> {
        Ok(buffer.len())
    }
    fn flush(&mut self) -> std::io::Result<()> {
        Ok(())
    }
}

#[test]
fn a_board_that_is_not_at_its_prompt_says_what_to_do_about_it() {
    let options = HexOptions {
        reply_timeout_ms: 20,
        ..options()
    };
    let Err(error) = load(&mut Silent, &[0xEA], options, &mut Vec::new()) else {
        panic!("nothing answered");
    };

    let message = error.message();
    assert!(message.contains("monitor prompt"), "{message}");
    assert!(message.ends_with("nothing came back within 0 seconds"), "{message}");
}

#[test]
fn an_empty_program_is_refused_before_anything_is_typed() {
    let Err(error) = send_program("empty.bin".to_string(), &[], options()) else {
        panic!("there is nothing to load");
    };
    assert_eq!(
        error.message(),
        "empty.bin is empty, so there is nothing to load"
    );
}

#[test]
fn a_board_that_goes_quiet_between_records_is_given_up_on() {
    let Ok((mut loader, _)) = send_program("a".to_string(), &[1], options()) else {
        panic!("the program fits");
    };
    let ready = b"Start Intel hex file load:".to_vec();
    assert!(matches!(
        loader.heard(Heard::Bytes(ready), false).step,
        LoadStep::Write(_)
    ));
    assert!(matches!(loader.heard(Heard::Bytes(b"?".to_vec()), false).step, LoadStep::Listen));
    let LoadStep::Fail(error) = loader.heard(Heard::Nothing, true).step else {
        panic!("the clock has stopped");
    };
    assert_eq!(
        error.message(),
        "the board stopped answering part-way through the transfer"
    );
    let LoadStep::Fail(error) = loader.heard(Heard::Lost("gone".to_string()), false).step else {
        panic!("the wire failed");
    };
    assert_eq!(error.message(), "could not read from the board: gone");
}
