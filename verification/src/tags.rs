//! Tags: words marked in the text, or listed before it, by which documents are
//! found.
//!
//! There is one way to read them, for the colours of the text, the index, the
//! search and the list alike.
pub mod complete;
pub mod finding;
pub mod laws;
pub mod listed;
pub mod name;
pub mod query;
pub mod standing;
pub mod tree;

pub use finding::{names, tag_at, tags_in, TagAt};
pub use name::{is_tag_char, tag_here};
pub use query::{key, query_key, split_query};
pub use tree::{all_parents, rows, tree, TagNode, TagRow};
