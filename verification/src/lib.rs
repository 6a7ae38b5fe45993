//! Streaming compiler from structural document events to themed HTML.
//!
//! The crate turns two independent event streams — a structural markup event
//! stream (paragraphs, headings, lists, tables, links, code blocks,
//! footnotes) and, for code blocks, a lexical syntax-highlight capture
//! stream — into a single ordered HTML text, together with the list of
//! heading records that a caller-owned template stage consumes.

pub mod escape;
pub mod events;
pub mod headings;
pub mod highlight;
pub mod html;
pub mod pattern;
pub mod predicate;
pub mod site;
pub mod strutil;
pub mod theme;
pub mod themes;
