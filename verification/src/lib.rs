//! A small virtual machine for a tape-based esoteric instruction set:
//! eight one-byte symbols move a pointer over a fixed array of wrapping
//! 8-bit cells, adjust the cell under the pointer, loop on bracket pairs,
//! and exchange bytes with an input and an output stream.

pub mod engine;
pub mod errors;
pub mod io;
pub mod program;
pub mod tape;

pub use engine::exec;
pub use engine::Engine;
pub use engine::ExecOutcome;
pub use engine::RunStatus;
pub use errors::VmError;
pub use program::Program;
pub use tape::VirtualMachine;
