//! Snowflake-style 64-bit identifiers: a fixed bit layout, a clock adapter and
//! the allocator that stamps a timestamp, a sequence number and a node suffix
//! into every identifier it hands out.

pub mod allocator;
pub mod clock;
pub mod config;
pub mod error;
pub mod identity;
pub mod layout;
