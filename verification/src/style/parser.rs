//! Reading style sheets: from characters to tokens, and from tokens to the
//! parts of a rule.

pub mod property;
pub mod report;
pub mod selector;
pub mod tokenizer;
