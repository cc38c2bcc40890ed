# A verified compiler core for a small quantum-classical language

Programs mix classical variables (`int`, `float`, `cbit`) with qubits.
The library takes a program as a syntax tree through these stages:

- `types` and `typer` check types and report the first problem as a message;
- `part_eval` partially evaluates it: known values are folded, loops with a
  known condition unrolled, known branches taken and procedure calls inlined;
  `reduce` is the variant used for whole programs with a growing table of
  procedures;
- `synth` turns quantum updates into a circuit of `X`, `SX`, `Rz` and `CX`
  operations on numbered qubits;
- `route` carries every CNOT of a circuit out on hardware whose qubits are
  only partly connected, along a shortest path found by breadth-first search;
- `show` prints programs in the language's concrete syntax.

`env` is the scoped environment every stage uses, `value` the classical
values and operators, `interpret` the evaluation of expressions and `vars`
the names a statement uses.

Bad input is a fatal error of the language (an ill-typed program, an
unknown operator, a value of the wrong kind). Each stage therefore comes in
two forms: `check_*` (typing) and `try_*` (evaluation, partial evaluation,
reduction, synthesis) take any input and return the first problem, while the
plain names take only input on which the stage succeeds, which their
`requires` states.

Every function states its result in its contract, over a mathematical view
of the syntax tree, and Verus proves it. Floating-point arithmetic is not
done by the library: a float is held as its IEEE-754 bit pattern, and the
caller hands in the function that computes on such patterns (`FloatOp`), as
well as, for printing, the one that writes a float.

`app/main.rs` runs the whole pipeline on an example program.
