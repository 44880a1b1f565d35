//! Extraction of structured, position-accurate metadata from the source files
//! of a component-based UI framework: script files that register a `Component`
//! or `Page` definition object, and stylesheet files that define CSS classes
//! and import other stylesheets.
//!
//! The data model lives in [`meta`]; [`resolve`] locates and classifies the
//! registration call of a parsed script module ([`ast`]); [`extract`] builds
//! the typed metadata trees; [`events`] and [`css`] scan raw text; [`script`]
//! assembles the per-file result; [`batch`] holds the decision logic of the
//! multi-file orchestrator.

pub mod ast;
pub mod batch;
pub mod css;
pub mod events;
pub mod extract;
pub mod meta;
pub mod resolve;
pub mod script;
pub mod text;
