//! Compact image placeholders: the text form of a blurred image, and the
//! bookkeeping for producing such texts for many files at once.

pub mod base83;
pub mod batch;
pub mod codec;
pub mod discovery;
pub mod grid;
pub mod pipeline;
pub mod pixels;
