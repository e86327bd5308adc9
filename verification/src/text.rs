//! Text: fonts and the storage of the text that is laid out.

pub mod font;
pub mod storage;
