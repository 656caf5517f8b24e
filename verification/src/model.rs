use vstd::prelude::*;

use crate::escape::{dec_str, ends_nl, first_token, href_escaped, html_escaped};
use crate::events::{Alignment, Event, LinkType, Tag};

verus! {

/// Which section of a table is currently open: cells render as header
/// cells inside the head and as data cells inside the body.
#[derive(Clone, Copy, Debug)]
pub enum TableState {
    Head,
    Body,
}

/// The rendering mode: ordinary dispatch, or flattening the description of
/// an image into plain text. While flattening, `nest` counts the structural
/// constructs opened and not yet closed inside the description, and `title`
/// is the image's title, written when the description ends.
pub enum RMode {
    Norm,
    Raw { nest: nat, title: Seq<char> },
}

/// The abstract render state: the mode, whether the output ends at a line
/// boundary, the open table section, the alignments of the current table,
/// the index of the cell being opened, and the footnote names in
/// first-encounter order (the name at index `i` has display number
/// `i + 1`).
pub struct MState {
    pub mode: RMode,
    pub end_newline: bool,
    pub table_state: TableState,
    pub aligns: Seq<Alignment>,
    pub cell: int,
    pub notes: Seq<Seq<char>>,
}

/// The outcome of consuming events: the state afterwards and the text
/// emitted.
pub struct StepOut {
    pub st: MState,
    pub out: Seq<char>,
}

/// The state every render pass starts from.
pub open spec fn init_state() -> MState {
    MState {
        mode: RMode::Norm,
        end_newline: true,
        table_state: TableState::Head,
        aligns: Seq::empty(),
        cell: 0,
        notes: Seq::empty(),
    }
}

/// The same state with ordinary dispatch mode.
pub open spec fn normed(s: MState) -> MState {
    MState { mode: RMode::Norm, ..s }
}

/// The newline written before a block construct when the output does not
/// already end at a line boundary.
pub open spec fn fresh_out(s: MState) -> Seq<char> {
    if s.end_newline {
        Seq::empty()
    } else {
        "\n"@
    }
}

/// The position of a footnote name in the numbering table: its first index,
/// or a negative value when it has not been seen.
pub open spec fn note_find(notes: Seq<Seq<char>>, name: Seq<char>) -> int
    decreases notes.len(),
{
    if notes.len() == 0 {
        -1
    } else if notes[0] == name {
        0
    } else {
        let r = note_find(notes.skip(1), name);
        if r < 0 {
            -1
        } else {
            r + 1
        }
    }
}

/// The display number of a footnote name: one more than its first index,
/// or the next free number when it has not been seen.
pub open spec fn note_number(notes: Seq<Seq<char>>, name: Seq<char>) -> int {
    if note_find(notes, name) >= 0 {
        note_find(notes, name) + 1
    } else {
        notes.len() + 1 as int
    }
}

/// The numbering table after a name has been referenced: unchanged when the
/// name has been seen, extended by it otherwise.
pub open spec fn note_insert(notes: Seq<Seq<char>>, name: Seq<char>) -> Seq<Seq<char>> {
    if note_find(notes, name) >= 0 {
        notes
    } else {
        notes.push(name)
    }
}

/// The alignment attribute written when the cell at index `i` of a table
/// with the given alignments is opened: none when the column has no
/// alignment or the index is outside the alignments.
pub open spec fn align_attr(aligns: Seq<Alignment>, i: int) -> Seq<char> {
    if 0 <= i < aligns.len() {
        match aligns[i] {
            Alignment::Left => " align=\"left\""@,
            Alignment::Center => " align=\"center\""@,
            Alignment::Right => " align=\"right\""@,
            Alignment::NoAlign => Seq::empty(),
        }
    } else {
        Seq::empty()
    }
}

/// The markup that closes an image element: the title attribute when the
/// title is non-empty, then the self-closing bracket.
pub open spec fn image_close(title: Seq<char>) -> Seq<char> {
    (if title.len() > 0 {
        "\" title=\""@ + html_escaped(title)
    } else {
        Seq::<char>::empty()
    }) + "\" />"@
}

/// What one `Start` event does in ordinary mode.
pub open spec fn start_step(s: MState, tag: Tag) -> StepOut {
    match tag {
        Tag::Paragraph => StepOut {
            st: MState { end_newline: false, ..s },
            out: fresh_out(s) + "<p>"@,
        },
        Tag::Rule => StepOut {
            st: MState { end_newline: true, ..s },
            out: fresh_out(s) + "<hr />"@ + "\n"@,
        },
        Tag::Header(level) => StepOut {
            st: MState { end_newline: false, ..s },
            out: fresh_out(s) + "<h"@ + dec_str(level as int) + ">"@,
        },
        Tag::Table(aligns) => StepOut {
            st: MState { end_newline: false, aligns: aligns@, ..s },
            out: "<table>"@,
        },
        Tag::TableHead => StepOut {
            st: MState { end_newline: false, table_state: TableState::Head, cell: 0, ..s },
            out: "<thead><tr>"@,
        },
        Tag::TableRow => StepOut {
            st: MState { end_newline: false, cell: 0, ..s },
            out: "<tr>"@,
        },
        Tag::TableCell => StepOut {
            st: MState { end_newline: false, ..s },
            out: (match s.table_state {
                TableState::Head => "<th"@,
                TableState::Body => "<td"@,
            }) + align_attr(s.aligns, s.cell) + ">"@,
        },
        Tag::BlockQuote => StepOut {
            st: MState { end_newline: true, ..s },
            out: fresh_out(s) + "<blockquote>"@ + "\n"@,
        },
        Tag::CodeBlock(info) => StepOut {
            st: MState { end_newline: false, ..s },
            out: fresh_out(s) + (if first_token(info@).len() == 0 {
                "<pre><code>"@
            } else {
                "<pre><code class=\"language-"@ + html_escaped(first_token(info@)) + "\">"@
            }),
        },
        Tag::List(opt) => match opt {
            Option::Some(start) => StepOut {
                st: MState { end_newline: true, ..s },
                out: fresh_out(s) + (if start == 1 {
                    "<ol>"@
                } else {
                    "<ol start=\""@ + dec_str(start as int) + "\">"@
                }) + "\n"@,
            },
            Option::None => StepOut {
                st: MState { end_newline: true, ..s },
                out: fresh_out(s) + "<ul>"@ + "\n"@,
            },
        },
        Tag::Item => StepOut {
            st: MState { end_newline: false, ..s },
            out: fresh_out(s) + "<li>"@,
        },
        Tag::Emphasis => StepOut { st: MState { end_newline: false, ..s }, out: "<em>"@ },
        Tag::Strong => StepOut { st: MState { end_newline: false, ..s }, out: "<strong>"@ },
        Tag::Strikethrough => StepOut { st: MState { end_newline: false, ..s }, out: "<del>"@ },
        Tag::Link(kind, dest, title) => StepOut {
            st: MState { end_newline: false, ..s },
            out: (match kind {
                LinkType::Email => "<a href=\"mailto:"@,
                _ => "<a href=\""@,
            }) + href_escaped(dest@) + (if title@.len() > 0 {
                "\" title=\""@ + html_escaped(title@)
            } else {
                Seq::<char>::empty()
            }) + "\">"@,
        },
        Tag::Image(_kind, dest, title) => StepOut {
            st: MState {
                mode: RMode::Raw { nest: 0, title: title@ },
                end_newline: false,
                ..s
            },
            out: "<img src=\""@ + href_escaped(dest@) + "\" alt=\""@,
        },
        Tag::FootnoteDefinition(name) => StepOut {
            st: MState { end_newline: false, notes: note_insert(s.notes, name@), ..s },
            out: fresh_out(s) + "<div class=\"footnote-definition\" id=\""@ + html_escaped(name@)
                + "\"><sup class=\"footnote-definition-label\">"@ + dec_str(
                note_number(s.notes, name@),
            ) + "</sup>"@,
        },
        Tag::HtmlBlock => StepOut { st: s, out: Seq::empty() },
    }
}

/// What one `End` event does in ordinary mode.
pub open spec fn end_step(s: MState, tag: Tag) -> StepOut {
    match tag {
        Tag::Paragraph => StepOut {
            st: MState { end_newline: true, ..s },
            out: "</p>"@ + "\n"@,
        },
        Tag::Rule => StepOut { st: s, out: Seq::empty() },
        Tag::Header(level) => StepOut {
            st: MState { end_newline: true, ..s },
            out: "</h"@ + dec_str(level as int) + ">"@ + "\n"@,
        },
        Tag::Table(_) => StepOut {
            st: MState { end_newline: true, ..s },
            out: "</tbody></table>"@ + "\n"@,
        },
        Tag::TableHead => StepOut {
            st: MState { end_newline: true, table_state: TableState::Body, ..s },
            out: "</tr></thead><tbody>"@ + "\n"@,
        },
        Tag::TableRow => StepOut {
            st: MState { end_newline: true, ..s },
            out: "</tr>"@ + "\n"@,
        },
        Tag::TableCell => StepOut {
            st: MState {
                end_newline: false,
                cell: if s.cell + 1 <= usize::MAX { s.cell + 1 } else { s.cell },
                ..s
            },
            out: match s.table_state {
                TableState::Head => "</th>"@,
                TableState::Body => "</td>"@,
            },
        },
        Tag::BlockQuote => StepOut {
            st: MState { end_newline: true, ..s },
            out: "</blockquote>"@ + "\n"@,
        },
        Tag::CodeBlock(_) => StepOut {
            st: MState { end_newline: true, ..s },
            out: "</code></pre>"@ + "\n"@,
        },
        Tag::List(opt) => StepOut {
            st: MState { end_newline: true, ..s },
            out: (match opt {
                Option::Some(_) => "</ol>"@,
                Option::None => "</ul>"@,
            }) + "\n"@,
        },
        Tag::Item => StepOut {
            st: MState { end_newline: true, ..s },
            out: "</li>"@ + "\n"@,
        },
        Tag::Emphasis => StepOut { st: MState { end_newline: false, ..s }, out: "</em>"@ },
        Tag::Strong => StepOut { st: MState { end_newline: false, ..s }, out: "</strong>"@ },
        Tag::Strikethrough => StepOut {
            st: MState { end_newline: false, ..s },
            out: "</del>"@,
        },
        Tag::Link(_, _, _) => StepOut { st: MState { end_newline: false, ..s }, out: "</a>"@ },
        Tag::Image(_, _, _) => StepOut { st: s, out: Seq::empty() },
        Tag::FootnoteDefinition(_) => StepOut {
            st: MState { end_newline: true, ..s },
            out: "</div>"@ + "\n"@,
        },
        Tag::HtmlBlock => StepOut { st: s, out: Seq::empty() },
    }
}

/// What one event does in ordinary mode.
pub open spec fn norm_step(s: MState, ev: Event) -> StepOut {
    match ev {
        Event::Start(tag) => start_step(s, tag),
        Event::End(tag) => end_step(s, tag),
        Event::Text(t) => StepOut {
            st: MState { end_newline: ends_nl(t@), ..s },
            out: html_escaped(t@),
        },
        Event::Code(t) => StepOut {
            st: MState { end_newline: false, ..s },
            out: "<code>"@ + html_escaped(t@) + "</code>"@,
        },
        Event::Html(h) => StepOut {
            st: MState {
                end_newline: if h@.len() > 0 { ends_nl(h@) } else { s.end_newline },
                ..s
            },
            out: h@,
        },
        Event::InlineHtml(h) => StepOut {
            st: MState {
                end_newline: if h@.len() > 0 { ends_nl(h@) } else { s.end_newline },
                ..s
            },
            out: h@,
        },
        Event::SoftBreak => StepOut { st: MState { end_newline: true, ..s }, out: "\n"@ },
        Event::HardBreak => StepOut {
            st: MState { end_newline: true, ..s },
            out: "<br />"@ + "\n"@,
        },
        Event::FootnoteReference(name) => StepOut {
            st: MState { end_newline: false, notes: note_insert(s.notes, name@), ..s },
            out: "<sup class=\"footnote-reference\"><a href=\"#"@ + html_escaped(name@) + "\">"@
                + dec_str(note_number(s.notes, name@)) + "</a></sup>"@,
        },
        Event::TaskListMarker(checked) => StepOut {
            st: MState { end_newline: true, ..s },
            out: (if checked {
                "<input disabled=\"\" type=\"checkbox\" checked=\"\"/>"@
            } else {
                "<input disabled=\"\" type=\"checkbox\"/>"@
            }) + "\n"@,
        },
    }
}

/// What one event does while an image description is being flattened.
pub open spec fn raw_step(s: MState, nest: nat, title: Seq<char>, ev: Event) -> StepOut {
    match ev {
        Event::Start(_) => StepOut {
            st: MState { mode: RMode::Raw { nest: nest + 1, title }, ..s },
            out: Seq::empty(),
        },
        Event::End(_) => if nest == 0 {
            StepOut {
                st: MState { mode: RMode::Norm, end_newline: false, ..s },
                out: image_close(title),
            }
        } else {
            StepOut {
                st: MState { mode: RMode::Raw { nest: (nest - 1) as nat, title }, ..s },
                out: Seq::empty(),
            }
        },
        Event::Text(t) => StepOut {
            st: MState { end_newline: ends_nl(t@), ..s },
            out: html_escaped(t@),
        },
        Event::Code(t) => StepOut {
            st: MState { end_newline: ends_nl(t@), ..s },
            out: html_escaped(t@),
        },
        Event::Html(_) => StepOut { st: s, out: Seq::empty() },
        Event::InlineHtml(t) => StepOut {
            st: MState { end_newline: ends_nl(t@), ..s },
            out: html_escaped(t@),
        },
        Event::SoftBreak => StepOut { st: MState { end_newline: false, ..s }, out: " "@ },
        Event::HardBreak => StepOut { st: MState { end_newline: false, ..s }, out: " "@ },
        Event::FootnoteReference(name) => StepOut {
            st: MState { notes: note_insert(s.notes, name@), ..s },
            out: "["@ + dec_str(note_number(s.notes, name@)) + "]"@,
        },
        Event::TaskListMarker(checked) => StepOut {
            st: MState { end_newline: false, ..s },
            out: if checked {
                "[x]"@
            } else {
                "[ ]"@
            },
        },
    }
}

/// What one event does: dispatch on the mode.
pub open spec fn step(s: MState, ev: Event) -> StepOut {
    match s.mode {
        RMode::Norm => norm_step(s, ev),
        RMode::Raw { nest, title } => raw_step(s, nest, title, ev),
    }
}

/// What a whole event sequence does: the events consumed one at a time, the
/// emitted text concatenated in order.
pub open spec fn run_spec(s: MState, evs: Seq<Event>) -> StepOut
    decreases evs.len(),
{
    if evs.len() == 0 {
        StepOut { st: s, out: Seq::empty() }
    } else {
        let first = step(s, evs[0]);
        let rest = run_spec(first.st, evs.skip(1));
        StepOut { st: rest.st, out: first.out + rest.out }
    }
}

/// The full rendering of an event sequence, from the initial state.
pub open spec fn rendered(evs: Seq<Event>) -> Seq<char> {
    run_spec(init_state(), evs).out
}

pub proof fn lemma_run_one(s: MState, ev: Event)
    ensures
        run_spec(s, seq![ev]).st == step(s, ev).st,
        run_spec(s, seq![ev]).out == step(s, ev).out,
{
    reveal_with_fuel(run_spec, 2);
    assert(seq![ev].skip(1) =~= Seq::<Event>::empty());
    assert(seq![ev][0] == ev);
    assert(step(s, ev).out + Seq::<char>::empty() =~= step(s, ev).out);
}

pub proof fn lemma_run_app(s: MState, a: Seq<Event>, b: Seq<Event>)
    ensures
        run_spec(s, a + b).st == run_spec(run_spec(s, a).st, b).st,
        run_spec(s, a + b).out == run_spec(s, a).out + run_spec(run_spec(s, a).st, b).out,
    decreases a.len(),
{
    if a.len() == 0 {
        assert(a + b =~= b);
        assert(run_spec(s, a).out + run_spec(run_spec(s, a).st, b).out =~= run_spec(s, b).out);
    } else {
        let first = step(s, a[0]);
        assert((a + b)[0] == a[0]);
        assert((a + b).skip(1) =~= a.skip(1) + b);
        lemma_run_app(first.st, a.skip(1), b);
        assert(run_spec(s, a + b).out == first.out + (run_spec(first.st, a.skip(1)).out
            + run_spec(run_spec(first.st, a.skip(1)).st, b).out));
        assert(first.out + (run_spec(first.st, a.skip(1)).out + run_spec(
            run_spec(first.st, a.skip(1)).st,
            b,
        ).out) =~= (first.out + run_spec(first.st, a.skip(1)).out) + run_spec(
            run_spec(first.st, a.skip(1)).st,
            b,
        ).out);
    }
}

pub proof fn lemma_run_snoc(s: MState, a: Seq<Event>, ev: Event)
    ensures
        run_spec(s, a.push(ev)).st == step(run_spec(s, a).st, ev).st,
        run_spec(s, a.push(ev)).out == run_spec(s, a).out + step(run_spec(s, a).st, ev).out,
{
    assert(a.push(ev) =~= a + seq![ev]);
    lemma_run_app(s, a, seq![ev]);
    lemma_run_one(run_spec(s, a).st, ev);
}

pub proof fn lemma_note_find_range(notes: Seq<Seq<char>>, name: Seq<char>)
    ensures
        note_find(notes, name) >= 0 ==> note_find(notes, name) < notes.len() && notes[note_find(
            notes,
            name,
        )] == name,
        note_find(notes, name) < 0 ==> note_find(notes, name) == -1,
    decreases notes.len(),
{
    if notes.len() == 0 {
    } else if notes[0] == name {
    } else {
        lemma_note_find_range(notes.skip(1), name);
    }
}

/// The first index of a name: when everything before `k` differs from the
/// name and `k` holds it, the numbering finds `k`.
pub proof fn lemma_note_find_at(notes: Seq<Seq<char>>, name: Seq<char>, k: int)
    requires
        0 <= k < notes.len(),
        forall|j: int| 0 <= j < k ==> notes[j] != name,
        notes[k] == name,
    ensures
        note_find(notes, name) == k,
    decreases k,
{
    if k == 0 {
    } else {
        lemma_note_find_at(notes.skip(1), name, k - 1);
    }
}

/// A name that is not found occurs nowhere.
pub proof fn lemma_note_find_none(notes: Seq<Seq<char>>, name: Seq<char>)
    requires
        note_find(notes, name) < 0,
    ensures
        forall|j: int| 0 <= j < notes.len() ==> notes[j] != name,
    decreases notes.len(),
{
    if notes.len() == 0 {
    } else {
        lemma_note_find_none(notes.skip(1), name);
        assert forall|j: int| 0 <= j < notes.len() implies notes[j] != name by {
            if j > 0 {
                assert(notes.skip(1)[j - 1] == notes[j]);
            }
        }
    }
}

/// The index that the numbering finds is the first: everything before it
/// differs from the name.
pub proof fn lemma_note_find_first(notes: Seq<Seq<char>>, name: Seq<char>)
    requires
        note_find(notes, name) >= 0,
    ensures
        forall|j: int| 0 <= j < note_find(notes, name) ==> notes[j] != name,
    decreases notes.len(),
{
    if notes.len() == 0 {
    } else if notes[0] == name {
    } else {
        lemma_note_find_range(notes, name);
        lemma_note_find_first(notes.skip(1), name);
        assert forall|j: int| 0 <= j < note_find(notes, name) implies notes[j] != name by {
            if j > 0 {
                assert(notes.skip(1)[j - 1] == notes[j]);
            }
        }
    }
}

/// A name that occurs nowhere is not found.
pub proof fn lemma_note_find_absent(notes: Seq<Seq<char>>, name: Seq<char>)
    requires
        forall|j: int| 0 <= j < notes.len() ==> notes[j] != name,
    ensures
        note_find(notes, name) == -1,
    decreases notes.len(),
{
    if notes.len() == 0 {
    } else {
        lemma_note_find_absent(notes.skip(1), name);
    }
}

} // verus!
