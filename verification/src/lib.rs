//! Text tools as a library: the rules of `head`, `tail`, `cut`, `wc`, `uniq`,
//! `comm`, `grep`, `find`, `ls`, `tree`, `cal` and `fortune`, from plain
//! values to plain values, each with a contract that Verus proves.
//!
//! Reading files, walking directories and writing the results is left to the
//! programs that use the library.

pub mod cal;
pub mod comm;
pub mod cut;
pub mod decimal;
pub mod find;
pub mod fortune;
pub mod grep;
pub mod head;
pub mod ls;
pub mod pattern;
pub mod tail;
pub mod text;
pub mod tree;
pub mod uniq;
pub mod wc;
