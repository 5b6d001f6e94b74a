//! Putting score tables together without mixing up rows.

pub mod join;
pub mod key;
pub mod table;
