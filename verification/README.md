# calyx_verilog

A verified SystemVerilog backend for Calyx programs, together with the basic types of a
flattened representation of programs.

- `src/ir.rs`: the programs that the backend reads.
- `src/backend/`: the backend. `validate.rs` decides which programs are accepted, `verilog.rs`
  makes the modules, and `precheck.rs` decides whether they can be made and printed, and what
  stands in the way. `model.rs` says what the module for a component is, `facts.rs` holds the
  facts that the proofs rest on, and `laws.rs` states what holds of the backend as a whole.
- `src/verilog_ast.rs`: the syntax trees of the `vast` crate: what they hold, and the calls that
  build and print them. The contracts in this file are believed, not proved.
- `src/text.rs`, `src/errors.rs`: names, numbers and errors.
- `src/flat_ir/`: indices, references to ports, and definitions of cells.
- `app/`: reads and writes files.
