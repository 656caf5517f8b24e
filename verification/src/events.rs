use vstd::prelude::*;

verus! {

/// Column alignment of one table column, supplied once at the start of a
/// table and read whenever a cell of that column is opened.
#[derive(Clone, Copy, Debug)]
pub enum Alignment {
    NoAlign,
    Left,
    Center,
    Right,
}

/// What kind of link a `Link` or `Image` tag denotes. Only `Email` changes
/// the rendering: its destination is prefixed with a mail scheme.
#[derive(Clone, Copy, Debug)]
pub enum LinkType {
    Inline,
    Reference,
    Collapsed,
    Shortcut,
    Autolink,
    Email,
}

/// A structural (paired) construct of the document. Every `Start(tag)` in a
/// well-formed stream is matched later by an `End` of the same kind.
#[derive(Clone, Debug)]
pub enum Tag {
    Paragraph,
    Rule,
    Header(u32),
    Table(Vec<Alignment>),
    TableHead,
    TableRow,
    TableCell,
    BlockQuote,
    CodeBlock(String),
    List(Option<u64>),
    Item,
    Emphasis,
    Strong,
    Strikethrough,
    Link(LinkType, String, String),
    Image(LinkType, String, String),
    FootnoteDefinition(String),
    HtmlBlock,
}

/// One unit of the input stream handed to the renderer.
#[derive(Clone, Debug)]
pub enum Event {
    Start(Tag),
    End(Tag),
    Text(String),
    Code(String),
    Html(String),
    InlineHtml(String),
    SoftBreak,
    HardBreak,
    FootnoteReference(String),
    TaskListMarker(bool),
}

} // verus!
