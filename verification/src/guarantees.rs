//! What each operation comes to, said in plain numbers: the bytes of a record,
//! the codes of an event, the nanoseconds of the clock, the characters of the
//! command line.

pub mod batches;
pub mod command_line;
pub mod decisions;
pub mod records;
pub mod steps;
pub mod words;
