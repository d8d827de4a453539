//! The command model of a storage command-line tool: a tree of commands that
//! documents itself as Markdown, the choice of credential strategy, and the
//! decision of what a parsed invocation does.
use vstd::prelude::*;

pub mod credential;
pub mod dispatch;
pub mod polish;
pub mod render;
pub mod text;
pub mod tree;

verus! {

} // verus!
