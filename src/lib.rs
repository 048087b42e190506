//! Anonymises paired sibling directories: files that share a name across the two
//! directories get one random numeric name on both sides, the others get fresh numbers
//! above that range, every rename goes through a temporary name first, and every
//! renamed file is stamped with a random time from a recent window.
pub mod names;
pub mod pairing;
pub mod allocate;
pub mod timestamp;
pub mod plan;
pub mod run;
pub mod multiset_facts;
