//! A parallel runner for compiled test executables: the frame decoder, the
//! record store that aggregates per-test status and logs, and the decision
//! logic of the process pool and of the pipe reader.

pub mod collect;
pub mod configs;
pub mod record_collection;
pub mod spawner;
pub mod util;
