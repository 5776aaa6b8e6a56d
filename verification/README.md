# lovm

A small stack virtual machine with a code generator and an assembler, whose
logic is specified and proved with Verus.

## Layout

- `src/data`, `src/code.rs`: the bytecode (`Protocol`, code objects, name and
  constant pools, units).
- `src/gen`: the code generator: operations of the intermediate language are
  translated into bytecode, blocks are built into code objects, code objects
  are merged.
- `src/vm`: the machine: registers, memory, globals, frames, and the
  interpreter, a step function from machine state to the next state and the
  action the host has to perform (calls into objects, value arithmetic,
  interrupts).
- `src/assembler`: two assemblers. The first (`assembler::compiler`) turns
  tagged source lines into a program with resolved labels; the second
  (`assembler::compiler::driver` with its parser, units and labels) parses
  statements, labels and `.export` lines into units and links them.
- `src/text.rs`: text helpers shared by the parsers and error messages.
- `app/`: the command line program: file input and output, bincode encoding,
  the value type with floating point numbers and the object model that the
  machine's actions are performed on.
- `tests/`: tests of the library.
