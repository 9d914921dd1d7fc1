# evm

An interpreter for a subset of the Ethereum Virtual Machine (arithmetic,
`PUSH1`..`PUSH32`, `POP`, `STOP`), with a disassembler and a command-line tool.
The library in `src/` is verified with Verus.

- `word`: the 256-bit word type; its arithmetic is done by `ruint`, through
  wrappers whose contracts state each result.
- `semantics`: what every instruction does, over natural numbers; `run` is a
  whole execution.
- `interpreter`: `execute`, `execute_returning_stack` and `execute_with_trace`,
  proved to report what `run` says.
- `gas`, `stack`, `memory`: the machine's parts.
- `opcode`, `disasm`, `text`, `hexcode`, `report`, `error`: names, text and
  messages.
- `laws`: properties that span several calls.

`app/main.rs` is the command-line tool: argument handling and printing.
