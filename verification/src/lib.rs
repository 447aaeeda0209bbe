pub mod buffer;
pub mod engine;
pub mod ex;
