# whitespace

An interpreter for the Whitespace language whose logic is verified with Verus.

- `src/token.rs`: source text to symbols (`convert`), with the laws of that reading.
- `src/number.rs`: number literals (`calc_num`) and decimal input, with the
  round-trip law for literals.
- `src/program.rs`: decoding of commands and the search for labels.
- `src/machine.rs`: the machine as a state machine: `step` runs one command and
  says what output or input it needs, `feed` hands it a byte of input. Each is
  specified by a spec function over `MachineState`.
- `src/laws.rs`: properties of the machine across steps.
- `app/main.rs`: reads the program file, prints output and reads standard input.
