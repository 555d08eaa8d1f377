//! Batch image-transformation engine.
//!
//! A run of the pipeline loads every referenced source image once, applies an
//! ordered list of editing actions to a working image, and hands the result,
//! together with the resolved output encoding, to the caller for writing.

pub mod action;
pub mod cli;
pub mod format;
pub mod geometry;
pub mod img;
pub mod misc;
pub mod registry;
pub mod strutil;
