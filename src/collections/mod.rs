pub mod pfb;
pub mod queue;
