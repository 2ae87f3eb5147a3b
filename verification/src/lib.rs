//! Password generation from configurable character pools.
//!
//! A password is composed from a sequence of pools, each pairing an alphabet
//! with a minimum number of characters that must be drawn from it. The
//! composer guarantees the requested length (or the sum of the minimums,
//! whichever is larger) and at least each pool's minimum of matching
//! characters in the result.

pub mod chars;
pub mod composer;
pub mod counting;
mod randomness;

pub use composer::add_to_pool;
pub use composer::from_pools;
pub use composer::ConfigurationError;
pub use composer::Pool;
pub use counting::contains_char;
pub use counting::count_matching;

pub use chars::ALPHA;
pub use chars::LOWER;
pub use chars::NUMERIC;
pub use chars::SPECIAL;
pub use chars::UPPER;
