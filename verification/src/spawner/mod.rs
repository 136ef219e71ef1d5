//! The process pool and the reader of the children's pipes.

pub mod job_pool;
pub mod pipe_handler;
pub mod spawner_linux;
