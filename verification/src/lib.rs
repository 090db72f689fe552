//! The rules of the card game belot (Bulgarian rules), and a few small
//! programs that go with it.
pub mod cards;
pub mod sorting;
pub mod announcements;
pub mod trick;
pub mod scoring;
pub mod deal;
pub mod bidding;
pub mod round;
pub mod game;
pub mod input;
pub mod summary;
pub mod shoes;
pub mod five;
