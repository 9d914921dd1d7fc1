//! An interpreter for a subset of the Ethereum Virtual Machine, with a
//! disassembler, whose behaviour is stated and proved with Verus.

pub mod bits;
pub mod context;
pub mod database;
pub mod disasm;
pub mod error;
pub mod gas;
pub mod hexcode;
pub mod interpreter;
pub mod laws;
pub mod memory;
pub mod opcode;
pub mod report;
pub mod semantics;
pub mod stack;
pub mod text;
pub mod word;

pub use context::ExecutionContext;
pub use database::{Address, Database, StubDatabase};
pub use error::EvmError;
pub use interpreter::{execute, execute_with_trace, ExecutionResult, Log, TraceStep};
