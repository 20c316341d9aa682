//! A multi-tape Turing-machine execution engine: a symbol table mapping
//! surface symbols to compact internal codes, growable tapes with head
//! cursors, a validated transition table with an accepting-state set, and a
//! computation that drives the read-decide-act loop under cooperative
//! pause/resume/stop control. A separate, unverified shell may run the loop
//! on a background thread; every decision the loop takes is made here.

pub mod alphabet;
pub mod computation;
pub mod info;
pub mod tape;
mod text;
pub mod turing_machine;

pub use alphabet::Alphabet;
pub use computation::Computation;
pub use tape::Tape;
pub use tape::BLANK;
pub use turing_machine::TuringMachine;
