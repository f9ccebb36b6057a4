# far

FAR (Float ARray) is a small stack language in which every value is an array
of floating-point numbers. There is a buffer and a stack: numbers typed on a
line fill the buffer, instructions move arrays between the buffer and the
stack or combine them, and every result lands in the buffer.

## Layout

- `src/` is the verified interpreter (Verus).
  - `text.rs`: Unicode whitespace, trimming, decimal numerals.
  - `token.rs`: a line's units (the comment cut off, split at whitespace),
    the check of each unit, and the instruction it names.
  - `store.rs`: the stack and the buffer, and what each instruction does to
    them; laws on them (last in, first out; results never go onto the stack).
  - `vector.rs`: element-wise arithmetic and filters on arrays.
  - `input.rs`: what `,` makes of a line of input.
  - `output.rs`: what `.` and `$` print.
  - `machine.rs`: the interpreter of a line as a step function. Each step
    names the outside work it needs (printing, reading a line, arithmetic on
    doubles) and takes its outcome with the next step.
  - `console.rs`: the console's `#` commands.
  - `error.rs`: the errors that end a line, and their messages.
- `app/main.rs`: the console. It runs the step function and does the outside
  work: input and output, and the arithmetic, comparisons, rounding, parsing
  and formatting of `f64` values (the library holds each double as its bit
  pattern).
- `tests/`: tests of the library, driven as the console drives it.
