//! Order-preserving parallel adaptors over a bounded worker pool.
//!
//! A source of items is mapped by a function whose calls run on a pool of
//! worker threads. At most twice as many calls as there are workers are
//! outstanding at any time, and results are handed out in the order of the
//! source, whatever the order in which the workers finish.

pub mod pool;
pub mod window;
pub mod work;
pub mod engine;
pub mod pack;
pub mod flat;
pub mod packed;
pub mod adaptor;
