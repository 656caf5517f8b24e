//! A single-pass renderer from document events to HTML text.
//!
//! The input is an ordered stream of events as an upstream document-markup
//! parser produces them: headings, paragraphs, lists, tables, links,
//! images, code blocks, footnotes, inline formatting and text runs. The
//! renderer consumes the stream exactly once and writes well-formed,
//! escaped markup into a sink, tracking only the state one pass needs:
//! whether the output ends at a line boundary, the open table section and
//! column, and the footnote numbering.
//!
//! What the output is, event by event, is stated by the step machine in
//! [`model`]; every public function's contract speaks in its terms, and
//! [`laws`] proves the properties that hold of it.

pub mod escape;
pub mod events;
pub mod html;
pub mod laws;
pub mod model;

pub use escape::{escape_href, escape_html};
pub use events::{Alignment, Event, LinkType, Tag};
pub use html::{push_html, write_html, HtmlWriter, SinkError, StrWrite};
