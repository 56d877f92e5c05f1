# asmodeus

The command-line front end of the Asmodeus toolchain for Machine W: the
source formatter, the command-line rules, the debugger's command planning,
the catalogs of examples and project templates, the binary file layout and
the boxed panels that the runner and the debugger print, and the token and
syntax-tree listings of `--debug`.

`src/` is a library verified with Verus. Every public function states in
its `ensures` what it returns, over specification functions on `Seq<char>`,
`Seq<u16>` and the library's own types; the public `law_*` proof functions
state properties that hold across calls:

- `formatter::blank_lines::law_blank_runs_compressed`: the formatter never
  leaves three empty lines in a row;
- `formatter::blank_lines::law_ends_with_line_ending`: a formatted document
  ends with a line ending (or is empty);
- `formatter::line_endings::law_blank_lines_in_text`: the formatted text
  never holds three blank lines together, never begins with three and never
  ends with one;
- `formatter::idempotence::law_format_instruction_idempotent`: formatting a
  formatted instruction changes nothing;
- `formatter::comments::law_split_rebuilds`, `formatter::labels::law_label_with_data_words`
  and `formatter::arrays::law_array_layout`: how a line splits into code and
  comment, what a data label becomes, and where array lines are aligned;
- `examples_manager::law_examples_shortcuts` and
  `template_generator::law_new_default_template`: the short forms of the
  `examples` and `new` commands;
- `debug::program_banner::law_banner_shows_program`: the banner's widths and
  what its rows show;
- `debug::machine_state::law_state_shows_registers` and
  `debug::program_output::law_output_shows_values`: the panels show each
  register as `AK: 002A (42)` and each value as `[0] 3 (0x0003)`, in plain
  text;
- `formatter::arrays::law_array_start_untrimmed`: where arrays start does
  not depend on surrounding whitespace;
- `bugseer::commands::law_memory_dump_default`: `m START` dumps sixteen
  words, clipped at the end of memory;
- `cli::commands::law_run_is_default`: `asmod FILE ...` reads as
  `asmod run FILE ...`;
- `file_utils::law_binary_roundtrip`: machine code written to a binary file
  reads back unchanged;
- `bugseer::address_parser::law_address_roundtrip` and `law_address_lower_hex`:
  every address written in decimal, or in hexadecimal after `0x` (upper
  case) or `0X` (lower case), reads back as itself;
- `catalog_laws::law_sort_by_name`, `catalog_laws::law_sort_is_stable` and
  `catalog_laws::law_catalog_grouping`: listing a catalog keeps every entry,
  once per occurrence, in the group of its category, ordered by name, and
  entries of one name in the order they came.

`app/` is the program around the library: reading files and the terminal,
driving the lexer, parser, assembler, emulator and disassembler crates of the
toolchain, and printing.

`tests/` runs the library on concrete inputs.
