//! Texts that are looked up by a key in the tables of a language.

pub mod localized_string;
