//! Flag bits of an x86_64 page-table entry.
use vstd::prelude::*;

verus! {

pub const PRESENT: u64 = 1 << 0;

pub const WRITE: u64 = 1 << 1;

pub const USER: u64 = 1 << 2;

pub const WRITE_THROUGH: u64 = 1 << 3;

pub const CACHE_DISABLE: u64 = 1 << 4;

pub const ACCESSED: u64 = 1 << 5;

pub const DIRTY: u64 = 1 << 6;

pub const HUGE_PAGE: u64 = 1 << 7;

pub const GLOBAL: u64 = 1 << 8;

pub const NO_EXECUTE: u64 = 1 << 63;

} // verus!
