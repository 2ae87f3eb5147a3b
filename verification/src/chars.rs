//! Sample character sets to use for pools.

use vstd::prelude::*;

verus! {

pub const UPPER: &'static str = "ABCDEFGHIJKLMNOPQRSTUVWXYZ";

pub const LOWER: &'static str = "abcdefghijklmnopqrstuvwxyz";

pub const ALPHA: &'static str = "ABCDEFGHIJKLMNOPQRSTUVWXYZabcdefghijklmnopqrstuvwxyz";

pub const NUMERIC: &'static str = "0123456789";

pub const SPECIAL: &'static str = "!@#$%^&*()_+-=[]{};':\",./<>?\\|";

} // verus!
