//! Finds the junk in a corpus of images: files that do not decode, images in a
//! pixel layout that is not understood, and images that are one flat colour.
//!
//! A run goes from the entries of a directory (`scan`) over the decoded image
//! (`decoded`) and its samples (`buffer`, `layout`) to the statistics of every
//! channel (`stats`, `pixel`) or the share of given colours (`color_match`),
//! and from there to a verdict (`classify`). `flatness` states what the
//! statistics say of an image of one colour and of one that is evenly spread.
//!
//! The statistics, the threshold policy and the selection of the files to
//! delete are verified. Files are read and decoded by the caller, who hands
//! over what came of each. Decoded images and the thread pool belong to
//! outside crates, reached through the few functions of `decoded` and
//! `parallel` whose contracts are taken on trust.

pub mod error;
pub mod layout;
pub mod pixel;
pub mod buffer;
pub mod parallel;
pub mod stats;
pub mod color_match;
pub mod classify;
pub mod flatness;
pub mod decoded;
pub mod scan;
