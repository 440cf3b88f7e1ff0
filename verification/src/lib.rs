//! A parser-combinator engine over Unicode grapheme clusters.
//!
//! Grammars are plain data ([`Func`]) interpreted by one recursive evaluator
//! ([`evaluate`]) against an immutable cursor ([`State`]); a successful
//! evaluation yields a match tree ([`Match`]) and the advanced cursor.
pub mod combinators;
pub mod cursor;
pub mod grammar;
pub mod laws;
pub mod semantics;
pub mod tree;

pub use combinators::{evaluate, try_evaluate, Addition};
pub use cursor::{graphemes, lookahead, State};
pub use grammar::{class_test, Func, MalformedClass};
pub use tree::{Match, MatchState};
