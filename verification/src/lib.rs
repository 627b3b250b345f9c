//! A pool of workers with a scheduler that hands jobs out in the order
//! in which they come, together with a collection of small data
//! structures, parsers and state machines, each with its contract.

pub mod board;
pub mod circuit;
pub mod circular_buffer;
pub mod clock;
pub mod dna;
pub mod filesystem;
pub mod linked_list;
pub mod naval_battle;
pub mod riddle;
pub mod ring_buffer;
pub mod robot;
pub mod slugify;
pub mod sluglify;
pub mod sync;
pub mod text;
pub mod threadpool;
