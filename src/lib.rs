//! The counting game: a shared sequence that members extend one by one,
//! and the small text rules around it.
pub mod counting;
pub mod message;
pub mod names;
pub mod notice;
pub mod number;
pub mod perms;
pub mod tags;
