//! What a frame shows, and which of it is the same as before.

pub mod detection;
pub mod geometry;
pub mod identity;
pub mod letterbox;
pub mod smoke_test;
pub mod worker;
