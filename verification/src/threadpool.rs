pub mod message;
pub mod state;
pub mod scheduler;
pub mod laws;
pub mod worker;
pub mod pool;
