//! An inferior-control engine for a source-level debugger of x86-64
//! executables: word-granular byte patching of a traced process, software
//! breakpoints with a shadow map of the bytes they displaced, the
//! restore / rewind / step / re-arm sequence that crosses a breakpoint, and
//! a frame-pointer stack walk.

pub mod debugger;
pub mod debugger_command;
pub mod dwarf_data;
pub mod error;
pub mod inferior;
pub mod memory;
pub mod process;
pub mod signal;
pub mod status;
pub mod text;
pub mod tracee;
pub mod word;
