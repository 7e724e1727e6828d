# rosco

`rosco` builds programs for the rosco_m68k and rosco_6502 boards, sends them
over a UART or into an emulator, and shows what they print.

The crate has two halves.

- `src/` is the library, `rosco_cli`. It holds the decisions the program
  makes, written in Verus and proved against contracts: what is put on the
  wire and what is made of the answers, how settings files are layered and
  edited, which commands a build runs, which question comes next. It does no
  I/O of its own.
- `app/` is the program around it: the command line, files, processes, the
  serial port, the terminal.

What the library takes on trust is small and marked where it stands: how the
`toml` and `toml_edit` crates read and write settings files
(`src/document.rs`), and three functions of the standard library
(`src/text.rs`).

Besides the contracts of single functions, the library states laws that span
several of them, as public proof functions beside what they are about. Some to
start from:

- `sender::done_means_the_receiver_has_the_file`,
  `sender::every_transfer_ends`, `kermit::reading_undoes_building`
- `ihex::nothing_starts_that_was_not_loaded`,
  `ihex::records_carry_the_program`
- `config::the_project_decides`, `config::the_user_decides_next`,
  `config::the_board_decides_last`
- `settings::a_saved_setting_is_read_back`,
  `settings::what_was_not_saved_reads_as_before`,
  `settings::saving_keeps_the_comments`,
  `settings::a_new_section_has_a_header_where_it_is_needed`
- `value::what_is_found_is_listed`, `value::nothing_is_listed_twice`
- `init::a_new_project_reads_as_planned`
- `app::no_step_sends_firmware_to_a_board`
- `questions::the_conversation_ends`

The starter sources that `rosco init` copies are looked for in a `templates`
directory beside the program, one directory for each board and, below it, one
for each of `common`, `c`, `asm` and `firmware`.
