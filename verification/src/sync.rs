pub mod barrier;
pub mod channel;
pub mod delayed_queue;
