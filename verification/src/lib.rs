//! Reports on compiled circuit artifacts: how many opcodes each function
//! holds, how large a circuit a backend builds from it, and which source
//! spans the opcodes come from.
//!
//! There are two paths through the library, which share nothing but the
//! artifacts they start from.
//!
//! Counting: [`artifact`] holds the compiled programs and contracts and
//! says what a backend is to be asked for each function; [`counter`] makes
//! a program's or a contract's part of the report from what the backend
//! answered; [`report`] holds the report; [`render`] shows it, either as a
//! structured [`document`] or as a [`table`] each for programs and
//! contracts.
//!
//! Profiling: [`source`] holds source locations and source files;
//! [`offsets`] turns the character indices of a location into byte offsets
//! of the text; [`profile`] lists the opcode counts of the debug symbols by
//! source location, lowest first.
//!
//! The library does not print and does not run a backend: it hands out
//! values for a caller to print, and takes the answers of a backend as
//! values.

pub mod artifact;
pub mod counter;
pub mod decimal;
pub mod document;
pub mod offsets;
pub mod profile;
pub mod render;
pub mod report;
pub mod source;
pub mod table;
