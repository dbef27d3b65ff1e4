//! A minimal pattern-matching engine for a restricted, regex-like syntax.
//!
//! A pattern is matched against a single line of text. Supported syntax:
//! start/end anchors (`^`, `$`), literal characters, the wildcard `.`,
//! the escape classes `\d` and `\w`, bracket sets (`[abc]`, `[^abc]`),
//! the quantifiers `+` (one or more) and `?` (zero or one), and a single
//! top-level alternation group (`(a|b)`). Matching is greedy and never
//! backtracks: once a quantified atom has consumed characters, they are
//! never released for a later atom to re-claim.
//!
//! The meaning of every operation is given by the specification functions
//! in [`semantics`]; the executable engine in [`engine`] is verified to
//! return exactly what those functions say, and [`laws`] proves general
//! properties of the semantics.

pub mod engine;
pub mod laws;
pub mod semantics;
