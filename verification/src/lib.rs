//! Scanner and rewrite engine for lint-suppression directives in source
//! comments.
//!
//! Given the text of one comment (delimiters excluded) and a flag telling
//! whether the comment is single-line or block-style, the scanner reports
//! whether the last line of the text carries an `eslint-disable` or
//! `eslint-disable-next-line` directive anchored at the start of that line.
//! The rewrite engine produces a copy of the text in which the directive's
//! namespace prefix is renamed to `oxlint-`, leaving every other character
//! untouched.

pub mod laws;
pub mod rewriter;
pub mod rule;
pub mod scanner;
pub mod tokens;
