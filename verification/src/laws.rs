use vstd::prelude::*;

use crate::escape::{dec_digit, dec_str, html_escape_char, html_escaped};
use crate::events::{Alignment, Event, LinkType, Tag};
use crate::model::{
    align_attr, fresh_out, lemma_note_find_at, lemma_note_find_first, lemma_note_find_none,
    lemma_note_find_range, lemma_run_app, lemma_run_one, note_find, note_insert, note_number,
    run_spec, step, MState, RMode, TableState,
};

verus! {

/// A construct whose markup reads no render state beyond the line
/// boundary: everything but tables, images and footnote definitions.
pub open spec fn plain_tag(t: Tag) -> bool {
    match t {
        Tag::Table(_) => false,
        Tag::TableHead => false,
        Tag::TableRow => false,
        Tag::TableCell => false,
        Tag::Image(_, _, _) => false,
        Tag::FootnoteDefinition(_) => false,
        _ => true,
    }
}

/// Rendering a plain construct is a structural map: its opening and
/// closing markup are fixed by the tag alone, independent of the
/// surrounding content, given only whether the output already ends at a
/// line boundary.
pub proof fn lemma_structural_map(s1: MState, s2: MState, t: Tag)
    requires
        s1.mode is Norm,
        s2.mode is Norm,
        s1.end_newline == s2.end_newline,
        plain_tag(t),
    ensures
        step(s1, Event::Start(t)).out == step(s2, Event::Start(t)).out,
        step(s1, Event::End(t)).out == step(s2, Event::End(t)).out,
{
}

/// Footnote numbering is stable and goes by first occurrence: a name that
/// has been seen keeps the number one more than its first index and the
/// table does not change; a new name receives the next free number and is
/// appended. Referencing a name again never changes its number.
pub proof fn lemma_footnote_numbering(notes: Seq<Seq<char>>, name: Seq<char>)
    ensures
        note_find(notes, name) >= 0 ==> {
            &&& 0 <= note_find(notes, name) < notes.len()
            &&& notes[note_find(notes, name)] == name
            &&& forall|j: int| 0 <= j < note_find(notes, name) ==> notes[j] != name
            &&& note_number(notes, name) == note_find(notes, name) + 1
            &&& note_insert(notes, name) == notes
        },
        note_find(notes, name) < 0 ==> {
            &&& forall|j: int| 0 <= j < notes.len() ==> notes[j] != name
            &&& note_number(notes, name) == notes.len() + 1
            &&& note_insert(notes, name) == notes.push(name)
        },
        note_number(note_insert(notes, name), name) == note_number(notes, name),
{
    lemma_note_find_range(notes, name);
    if note_find(notes, name) >= 0 {
        lemma_note_find_first(notes, name);
    } else {
        lemma_note_find_none(notes, name);
        lemma_note_find_at(notes.push(name), name, notes.len() as int);
    }
}

/// Table column alignment is positional and sticky: opening the head or a
/// row resets the column index, closing a cell moves it on, and the cell
/// at index `i` carries exactly the attribute of column `i` of the
/// alignments given when the table started, none when the column has no
/// alignment or lies outside them.
pub proof fn lemma_cell_alignment(s: MState)
    requires
        s.mode is Norm,
    ensures
        step(s, Event::Start(Tag::TableHead)).st.cell == 0,
        step(s, Event::Start(Tag::TableRow)).st.cell == 0,
        step(s, Event::End(Tag::TableCell)).st.cell == (if s.cell + 1 <= usize::MAX {
            s.cell + 1
        } else {
            s.cell
        }),
        step(s, Event::Start(Tag::TableCell)).out == (match s.table_state {
            TableState::Head => "<th"@,
            TableState::Body => "<td"@,
        }) + align_attr(s.aligns, s.cell) + ">"@,
        0 <= s.cell < s.aligns.len() && s.aligns[s.cell] == Alignment::Left ==> align_attr(
            s.aligns,
            s.cell,
        ) == " align=\"left\""@,
        0 <= s.cell < s.aligns.len() && s.aligns[s.cell] == Alignment::Center ==> align_attr(
            s.aligns,
            s.cell,
        ) == " align=\"center\""@,
        0 <= s.cell < s.aligns.len() && s.aligns[s.cell] == Alignment::Right ==> align_attr(
            s.aligns,
            s.cell,
        ) == " align=\"right\""@,
        0 <= s.cell < s.aligns.len() && s.aligns[s.cell] == Alignment::NoAlign ==> align_attr(
            s.aligns,
            s.cell,
        ) == Seq::<char>::empty(),
        !(0 <= s.cell < s.aligns.len()) ==> align_attr(s.aligns, s.cell)
            == Seq::<char>::empty(),
{
}

/// The escaped form of one character holds no markup delimiter and no
/// quote.
pub proof fn lemma_escape_char_sound(c: char)
    ensures
        forall|i: int|
            0 <= i < html_escape_char(c).len() ==> html_escape_char(c)[i] != '<'
                && html_escape_char(c)[i] != '>' && html_escape_char(c)[i] != '"',
{
    reveal_strlit("&lt;");
    reveal_strlit("&gt;");
    reveal_strlit("&amp;");
    reveal_strlit("&quot;");
}

/// Escaping is sound: escaped content never holds an unescaped markup
/// delimiter or quote, whatever the input held.
pub proof fn lemma_escaping_sound(s: Seq<char>)
    ensures
        forall|i: int|
            0 <= i < html_escaped(s).len() ==> html_escaped(s)[i] != '<' && html_escaped(s)[i]
                != '>' && html_escaped(s)[i] != '"',
    decreases s.len(),
{
    if s.len() == 0 {
    } else {
        lemma_escape_char_sound(s[0]);
        lemma_escaping_sound(s.skip(1));
        assert forall|i: int| 0 <= i < html_escaped(s).len() implies html_escaped(s)[i] != '<'
            && html_escaped(s)[i] != '>' && html_escaped(s)[i] != '"' by {
            let head = html_escape_char(s[0]);
            if i < head.len() {
                assert(html_escaped(s)[i] == head[i]);
            } else {
                assert(html_escaped(s)[i] == html_escaped(s.skip(1))[i - head.len()]);
            }
        }
    }
}

/// An ordered list opens with an explicit start attribute exactly when its
/// start is given and is not one; a start of one and an absent start leave
/// the attribute out.
pub proof fn lemma_list_start(s: MState, n: u64)
    requires
        s.mode is Norm,
    ensures
        n != 1 ==> step(s, Event::Start(Tag::List(Option::Some(n)))).out == fresh_out(s) + (
        "<ol start=\""@ + dec_str(n as int) + "\">"@) + "\n"@,
        n == 1 ==> step(s, Event::Start(Tag::List(Option::Some(n)))).out == fresh_out(s)
            + "<ol>"@ + "\n"@,
        step(s, Event::Start(Tag::List(Option::None))).out == fresh_out(s) + "<ul>"@ + "\n"@,
{
}

/// How one event changes the count of constructs opened and not yet
/// closed.
pub open spec fn nest_delta(ev: Event) -> int {
    match ev {
        Event::Start(_) => 1,
        Event::End(_) => -1,
        _ => 0,
    }
}

/// The total nesting change over a sequence of events.
pub open spec fn nest_sum(evs: Seq<Event>) -> int
    decreases evs.len(),
{
    if evs.len() == 0 {
        0
    } else {
        nest_delta(evs[0]) + nest_sum(evs.skip(1))
    }
}

/// A sequence is interior to a description when no close in it matches
/// anything opened outside it: before every `End`, more has been opened
/// inside than closed.
pub open spec fn interior(evs: Seq<Event>) -> bool {
    forall|k: int| 0 <= k < evs.len() && evs[k] is End ==> nest_sum(evs.take(k)) >= 1
}

proof fn lemma_nest_sum_shift(evs: Seq<Event>, k: int)
    requires
        evs.len() > 0,
        0 <= k <= evs.len() - 1,
    ensures
        nest_sum(evs.take(k + 1)) == nest_delta(evs[0]) + nest_sum(evs.skip(1).take(k)),
{
    assert(evs.take(k + 1).skip(1) =~= evs.skip(1).take(k));
    assert(evs.take(k + 1)[0] == evs[0]);
}

/// While a description is being flattened, events interior to it keep the
/// flattening mode, and the nesting count moves by exactly their total
/// nesting change; the title is kept for the close.
pub proof fn lemma_raw_interior(s: MState, title: Seq<char>, evs: Seq<Event>, nest: nat)
    requires
        s.mode == (RMode::Raw { nest, title }),
        forall|k: int|
            0 <= k < evs.len() && evs[k] is End ==> nest + nest_sum(evs.take(k)) >= 1,
    ensures
        nest + nest_sum(evs) >= 0,
        run_spec(s, evs).st.mode == (RMode::Raw {
            nest: (nest + nest_sum(evs)) as nat,
            title,
        }),
    decreases evs.len(),
{
    if evs.len() == 0 {
    } else {
        let e0 = evs[0];
        let s1 = step(s, e0).st;
        assert(evs.take(0) =~= Seq::<Event>::empty());
        let next_nest: nat = match e0 {
            Event::Start(_) => nest + 1,
            Event::End(_) => (nest - 1) as nat,
            _ => nest,
        };
        if e0 is End {
            assert(nest + nest_sum(evs.take(0)) >= 1);
        }
        assert(s1.mode == (RMode::Raw { nest: next_nest, title }));
        assert forall|k: int|
            0 <= k < evs.skip(1).len() && evs.skip(1)[k] is End implies next_nest + nest_sum(
            evs.skip(1).take(k),
        ) >= 1 by {
            lemma_nest_sum_shift(evs, k);
            assert(evs.skip(1)[k] == evs[k + 1]);
            assert(evs[k + 1] is End ==> nest + nest_sum(evs.take(k + 1)) >= 1);
        }
        lemma_raw_interior(s1, title, evs.skip(1), next_nest);
    }
}

/// Every character of a number's decimal notation is a digit, never a
/// markup delimiter or quote.
proof fn lemma_dec_str_safe(n: int)
    ensures
        forall|i: int|
            0 <= i < dec_str(n).len() ==> dec_str(n)[i] != '<' && dec_str(n)[i] != '>'
                && dec_str(n)[i] != '"',
    decreases n,
{
    if n < 10 {
    } else {
        lemma_dec_str_safe(n / 10);
        assert forall|i: int| 0 <= i < dec_str(n).len() implies dec_str(n)[i] != '<' && dec_str(
            n,
        )[i] != '>' && dec_str(n)[i] != '"' by {
            if i < dec_str(n / 10).len() {
                assert(dec_str(n)[i] == dec_str(n / 10)[i]);
            } else {
                assert(dec_str(n)[i] == dec_digit(n % 10));
            }
        }
    }
}

/// Flattened description text holds no residual markup: while events
/// interior to an image description are consumed, everything emitted is
/// escaped text, spaces and bracketed markers, never a markup delimiter
/// or a quote.
pub proof fn lemma_flattened_text_safe(s: MState, title: Seq<char>, evs: Seq<Event>, nest: nat)
    requires
        s.mode == (RMode::Raw { nest, title }),
        forall|k: int|
            0 <= k < evs.len() && evs[k] is End ==> nest + nest_sum(evs.take(k)) >= 1,
    ensures
        forall|i: int|
            0 <= i < run_spec(s, evs).out.len() ==> run_spec(s, evs).out[i] != '<' && run_spec(
                s,
                evs,
            ).out[i] != '>' && run_spec(s, evs).out[i] != '"',
    decreases evs.len(),
{
    reveal_strlit(" ");
    reveal_strlit("[x]");
    reveal_strlit("[ ]");
    reveal_strlit("[");
    reveal_strlit("]");
    if evs.len() == 0 {
    } else {
        let e0 = evs[0];
        let first = step(s, e0);
        assert(evs.take(0) =~= Seq::<Event>::empty());
        if e0 is End {
            assert(nest + nest_sum(evs.take(0)) >= 1);
        }
        match e0 {
            Event::Text(t) => lemma_escaping_sound(t@),
            Event::Code(t) => lemma_escaping_sound(t@),
            Event::InlineHtml(t) => lemma_escaping_sound(t@),
            Event::FootnoteReference(name) => {
                lemma_dec_str_safe(note_number(s.notes, name@));
                let num = dec_str(note_number(s.notes, name@));
                assert forall|i: int| 0 <= i < first.out.len() implies first.out[i] != '<'
                    && first.out[i] != '>' && first.out[i] != '"' by {
                    if i < "["@.len() {
                        assert(first.out[i] == "["@[i]);
                    } else if i < "["@.len() + num.len() {
                        assert(first.out[i] == num[i - "["@.len()]);
                    } else {
                        assert(first.out[i] == "]"@[i - "["@.len() - num.len()]);
                    }
                }
            },
            _ => {},
        }
        assert forall|i: int| 0 <= i < first.out.len() implies first.out[i] != '<'
            && first.out[i] != '>' && first.out[i] != '"' by {}
        let next_nest: nat = match e0 {
            Event::Start(_) => nest + 1,
            Event::End(_) => (nest - 1) as nat,
            _ => nest,
        };
        assert(first.st.mode == (RMode::Raw { nest: next_nest, title }));
        assert forall|k: int|
            0 <= k < evs.skip(1).len() && evs.skip(1)[k] is End implies next_nest + nest_sum(
            evs.skip(1).take(k),
        ) >= 1 by {
            lemma_nest_sum_shift(evs, k);
            assert(evs.skip(1)[k] == evs[k + 1]);
            assert(evs[k + 1] is End ==> nest + nest_sum(evs.take(k + 1)) >= 1);
        }
        lemma_flattened_text_safe(first.st, title, evs.skip(1), next_nest);
        let rest = run_spec(first.st, evs.skip(1));
        assert forall|i: int| 0 <= i < run_spec(s, evs).out.len() implies run_spec(s, evs).out[i]
            != '<' && run_spec(s, evs).out[i] != '>' && run_spec(s, evs).out[i] != '"' by {
            if i < first.out.len() {
                assert(run_spec(s, evs).out[i] == first.out[i]);
            } else {
                assert(run_spec(s, evs).out[i] == rest.out[i - first.out.len()]);
            }
        }
    }
}

/// Flattening an image description consumes exactly through the matching
/// close: after the image's start, a description interior to it and the
/// one close matching the start, the machine is back in ordinary mode, so
/// rendering resumes with the next event as if the whole image were one
/// step.
pub proof fn lemma_image_resume(
    s: MState,
    kind: LinkType,
    dest: String,
    title: String,
    inner: Seq<Event>,
    close: Tag,
)
    requires
        s.mode is Norm,
        interior(inner),
        nest_sum(inner) == 0,
    ensures
        ({
            let evs = seq![Event::Start(Tag::Image(kind, dest, title))] + inner + seq![
                Event::End(close),
            ];
            run_spec(s, evs).st.mode is Norm
        }),
{
    let ev0 = Event::Start(Tag::Image(kind, dest, title));
    let evc = Event::End(close);
    let evs = seq![ev0] + inner + seq![evc];
    let st1 = step(s, ev0).st;
    assert(st1.mode == (RMode::Raw { nest: 0 as nat, title: title@ }));
    lemma_run_one(s, ev0);
    lemma_run_app(s, seq![ev0], inner + seq![evc]);
    assert(evs =~= seq![ev0] + (inner + seq![evc]));
    lemma_run_app(st1, inner, seq![evc]);
    lemma_raw_interior(st1, title@, inner, 0);
    let st2 = run_spec(st1, inner).st;
    assert(st2.mode == (RMode::Raw { nest: 0 as nat, title: title@ }));
    lemma_run_one(st2, evc);
    assert(run_spec(s, evs).st == run_spec(st2, seq![evc]).st);
}

} // verus!
