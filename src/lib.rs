//! Match-context extraction and highlighting for search results: locate a
//! query in a page's text, cut word-bounded excerpts around each match,
//! mark the match inside each excerpt, and lay out a whole result set.

pub mod text;
pub mod locate;
pub mod context;
pub mod highlight;
pub mod digits;
pub mod timestamp;
pub mod urls;
pub mod render;
