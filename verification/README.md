# vm_translator

Translates programs of the Hack platform's stack-based VM language into Hack
assembly, with the translation proved against its specification in Verus.

- `src/text.rs`: reading text: lines, comments, words, decimal numbers.
- `src/parser.rs`: `.vm` text to commands, and the check that a command can be
  translated.
- `src/code_writer.rs`: the assembly of each command and of a whole file.
- `src/lib.rs`: the translation of a whole program.
- `src/laws.rs`: properties proved of the above.
- `app/main.rs`: the command line tool (file and directory handling).
