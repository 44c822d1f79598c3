//! Combinators for change-tracking term-rewriting passes over tree-shaped
//! data: an effect-sequencing abstraction ([`Bind`]), a change-tracking
//! wrapper ([`Rewrite`]), and a generic bottom-up tree traversal
//! ([`TreeWalk`]) built on top of both.

pub mod bind;
pub mod rewrite;
pub mod tree;

pub use bind::Bind;
pub use rewrite::Rewrite;
pub use rewrite::Rewrite::Clean;
pub use rewrite::Rewrite::Dirty;
pub use tree::TreeWalk;
pub use tree::bottom_up;
