//! The companion chapters: small demonstration types and functions
//! whose annotated sources are what the compiler turns into Markdown.

pub mod closures;
pub mod traits;
