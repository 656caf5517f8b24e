use vstd::prelude::*;
use vstd::string::*;

use crate::escape::{
    dec_str, ends_nl, escape_href, escape_html, first_token, first_token_str, href_escaped,
    html_escaped, str_ends_newline, u64_to_string,
};
use crate::events::{Alignment, Event, LinkType, Tag};
use crate::model::{
    MState, RMode, TableState, align_attr, fresh_out, init_state, lemma_note_find_absent,
    lemma_note_find_at, lemma_run_app, lemma_run_one, lemma_run_snoc, normed, note_insert,
    note_number, rendered, run_spec, step,
};

verus! {

/// The one failure a render pass can meet: a write into the output sink
/// was refused. The sink must be treated as unusable afterwards.
#[derive(Clone, Copy, Debug, PartialEq, Eq, Structural)]
pub struct SinkError;

/// The output capability of the renderer: a destination that text can be
/// appended to. `out` is the text appended so far; a sink whose
/// `infallible` holds never refuses a write.
pub trait StrWrite {
    /// The text appended so far. The default promises nothing; a sink
    /// whose contents the caller reasons about overrides it.
    open spec fn out(&self) -> Seq<char> {
        Seq::empty()
    }

    /// Whether every write is certain to succeed.
    open spec fn infallible(&self) -> bool {
        false
    }

    fn write_str(&mut self, s: &str) -> (r: Result<(), SinkError>)
        ensures
            final(self).infallible() == old(self).infallible(),
            r is Ok ==> final(self).out() == old(self).out() + s@,
            old(self).infallible() ==> r is Ok,
    ;
}

/// An in-memory growable text buffer is a sink; appending to it always
/// succeeds.
impl StrWrite for String {
    open spec fn out(&self) -> Seq<char> {
        self@
    }

    open spec fn infallible(&self) -> bool {
        true
    }

    fn write_str(&mut self, s: &str) -> (r: Result<(), SinkError>) {
        self.append(s);
        Ok(())
    }
}

/// The render state carried across one pass: whether the last character
/// written was a newline, the open table section, the alignments of the
/// current table, the index of the cell being opened, and the footnote
/// names in first-encounter order.
pub struct HtmlWriter {
    end_newline: bool,
    table_state: TableState,
    table_alignments: Vec<Alignment>,
    table_cell_index: usize,
    numbers: Vec<String>,
}

impl View for HtmlWriter {
    type V = MState;

    closed spec fn view(&self) -> MState {
        MState {
            mode: RMode::Norm,
            end_newline: self.end_newline,
            table_state: self.table_state,
            aligns: self.table_alignments@,
            cell: self.table_cell_index as int,
            notes: self.numbers.deep_view(),
        }
    }
}

impl HtmlWriter {
    /// A fresh state, as every render pass starts: the output counts as
    /// ending at a line boundary, no table is open, no footnote is
    /// numbered.
    pub fn new() -> (w: HtmlWriter)
        ensures
            w@ == init_state(),
    {
        let w = HtmlWriter {
            end_newline: true,
            table_state: TableState::Head,
            table_alignments: Vec::new(),
            table_cell_index: 0,
            numbers: Vec::new(),
        };
        proof {
            assert(w@.aligns =~= init_state().aligns);
            assert(w@.notes =~= init_state().notes);
        }
        w
    }

    /// Writes a newline and records the fresh line boundary.
    fn write_newline<W: StrWrite>(&mut self, writer: &mut W) -> (r: Result<(), SinkError>)
        ensures
            final(writer).infallible() == old(writer).infallible(),
            old(writer).infallible() ==> r is Ok,
            r is Ok ==> final(writer).out() == old(writer).out() + "\n"@,
            final(self)@ == (MState { end_newline: true, ..old(self)@ }),
    {
        self.end_newline = true;
        writer.write_str("\n")
    }

    /// Writes a buffer, then a newline when asked to, and tracks whether
    /// the last character written was a newline.
    fn write<W: StrWrite>(&mut self, writer: &mut W, s: &str, newline: bool) -> (r: Result<
        (),
        SinkError,
    >)
        ensures
            final(writer).infallible() == old(writer).infallible(),
            old(writer).infallible() ==> r is Ok,
            r is Ok ==> final(writer).out() == old(writer).out() + s@ + (if newline {
                "\n"@
            } else {
                Seq::<char>::empty()
            }),
            r is Ok ==> final(self)@ == (MState {
                end_newline: if newline {
                    true
                } else if s@.len() > 0 {
                    ends_nl(s@)
                } else {
                    old(self)@.end_newline
                },
                ..old(self)@
            }),
    {
        let r = writer.write_str(s);
        if r.is_err() {
            return r;
        }
        if newline {
            let r2 = self.write_newline(writer);
            proof {
                if r2 is Ok {
                    assert(old(writer).out() + s@ + "\n"@ =~= old(writer).out() + (s@ + "\n"@));
                }
            }
            r2
        } else {
            let n = s.unicode_len();
            if n > 0 {
                self.end_newline = s.get_char(n - 1) == '\n';
            }
            proof {
                assert(final(writer).out() =~= old(writer).out() + s@ + Seq::<char>::empty());
            }
            Ok(())
        }
    }

    /// Writes a newline unless the output already ends at a line boundary,
    /// so that a block construct starts on a line of its own.
    fn fresh_line<W: StrWrite>(&mut self, writer: &mut W) -> (r: Result<(), SinkError>)
        ensures
            final(writer).infallible() == old(writer).infallible(),
            old(writer).infallible() ==> r is Ok,
            r is Ok ==> final(writer).out() == old(writer).out() + fresh_out(old(self)@),
            r is Ok ==> final(self)@ == (MState { end_newline: true, ..old(self)@ }),
    {
        if !self.end_newline {
            self.write_newline(writer)
        } else {
            proof {
                assert(final(writer).out() =~= old(writer).out() + Seq::<char>::empty());
            }
            Ok(())
        }
    }

    /// Looks a footnote name up in the numbering table, entering it with
    /// the next free number when it is new, and returns its display
    /// number.
    fn footnote_number(&mut self, name: &String) -> (n: usize)
        ensures
            final(self)@ == (MState { notes: note_insert(old(self)@.notes, name@), ..old(self)@ }),
            n as int == note_number(old(self)@.notes, name@),
    {
        let ghost notes = self.numbers.deep_view();
        let mut i: usize = 0;
        while i < self.numbers.len()
            invariant
                i <= self.numbers.len(),
                notes == self.numbers.deep_view(),
                notes.len() == self.numbers.len(),
                forall|j: int| 0 <= j < i ==> notes[j] != name@,
                *self == *old(self),
            decreases self.numbers.len() - i,
        {
            proof {
                assert(notes[i as int] == self.numbers@[i as int]@);
            }
            if self.numbers[i] == *name {
                proof {
                    lemma_note_find_at(notes, name@, i as int);
                }
                return i + 1;
            }
            i = i + 1;
        }
        proof {
            lemma_note_find_absent(notes, name@);
        }
        self.numbers.push(name.clone());
        proof {
            assert(self.numbers.deep_view() =~= notes.push(name@));
        }
        self.numbers.len()
    }

    /// Writes the markup that closes a construct, and keeps the table
    /// bookkeeping: ending the head switches to the body, ending a cell
    /// moves to the next column.
    #[verifier::spinoff_prover]
    #[verifier::rlimit(100)]
    fn end_tag<W: StrWrite>(&mut self, writer: &mut W, tag: &Tag) -> (r: Result<(), SinkError>)
        ensures
            final(writer).infallible() == old(writer).infallible(),
            old(writer).infallible() ==> r is Ok,
            r is Ok ==> ({
                let res = step(old(self)@, Event::End(*tag));
                &&& final(self)@ == res.st
                &&& final(writer).out() == old(writer).out() + res.out
            }),
    {
        let ghost out0 = writer.out();
        match tag {
            Tag::Paragraph => {
                self.write(writer, "</p>", true)?;
                proof {
                    assert(out0 + "</p>"@ + "\n"@ =~= out0 + ("</p>"@ + "\n"@));
                }
            },
            Tag::Rule => {
                proof {
                    assert(writer.out() =~= out0 + Seq::<char>::empty());
                }
            },
            Tag::Header(level) => {
                writer.write_str("</h")?;
                let num = u64_to_string(*level as u64);
                writer.write_str(num.as_str())?;
                self.write(writer, ">", true)?;
                proof {
                    assert(out0 + "</h"@ + dec_str(*level as int) + ">"@ + "\n"@ =~= out0 + ("</h"@
                        + dec_str(*level as int) + ">"@ + "\n"@));
                }
            },
            Tag::Table(_) => {
                self.write(writer, "</tbody></table>", true)?;
                proof {
                    assert(out0 + "</tbody></table>"@ + "\n"@ =~= out0 + ("</tbody></table>"@
                        + "\n"@));
                }
            },
            Tag::TableHead => {
                self.write(writer, "</tr></thead><tbody>", true)?;
                self.table_state = TableState::Body;
                proof {
                    assert(out0 + "</tr></thead><tbody>"@ + "\n"@ =~= out0 + (
                    "</tr></thead><tbody>"@ + "\n"@));
                }
            },
            Tag::TableRow => {
                self.write(writer, "</tr>", true)?;
                proof {
                    assert(out0 + "</tr>"@ + "\n"@ =~= out0 + ("</tr>"@ + "\n"@));
                }
            },
            Tag::TableCell => {
                match self.table_state {
                    TableState::Head => {
                        self.write(writer, "</th>", false)?;
                        proof {
                            reveal_strlit("</th>");
                            assert(writer.out() =~= out0 + "</th>"@);
                        }
                    },
                    TableState::Body => {
                        self.write(writer, "</td>", false)?;
                        proof {
                            reveal_strlit("</td>");
                            assert(writer.out() =~= out0 + "</td>"@);
                        }
                    },
                }
                if self.table_cell_index < usize::MAX {
                    self.table_cell_index = self.table_cell_index + 1;
                }
            },
            Tag::BlockQuote => {
                self.write(writer, "</blockquote>", true)?;
                proof {
                    assert(out0 + "</blockquote>"@ + "\n"@ =~= out0 + ("</blockquote>"@ + "\n"@));
                }
            },
            Tag::CodeBlock(_) => {
                self.write(writer, "</code></pre>", true)?;
                proof {
                    assert(out0 + "</code></pre>"@ + "\n"@ =~= out0 + ("</code></pre>"@ + "\n"@));
                }
            },
            Tag::List(opt) => {
                match opt {
                    Option::Some(_) => {
                        self.write(writer, "</ol>", true)?;
                        proof {
                            assert(out0 + "</ol>"@ + "\n"@ =~= out0 + ("</ol>"@ + "\n"@));
                        }
                    },
                    Option::None => {
                        self.write(writer, "</ul>", true)?;
                        proof {
                            assert(out0 + "</ul>"@ + "\n"@ =~= out0 + ("</ul>"@ + "\n"@));
                        }
                    },
                }
            },
            Tag::Item => {
                self.write(writer, "</li>", true)?;
                proof {
                    assert(out0 + "</li>"@ + "\n"@ =~= out0 + ("</li>"@ + "\n"@));
                }
            },
            Tag::Emphasis => {
                self.write(writer, "</em>", false)?;
                proof {
                    reveal_strlit("</em>");
                    assert(writer.out() =~= out0 + "</em>"@);
                }
            },
            Tag::Strong => {
                self.write(writer, "</strong>", false)?;
                proof {
                    reveal_strlit("</strong>");
                    assert(writer.out() =~= out0 + "</strong>"@);
                }
            },
            Tag::Strikethrough => {
                self.write(writer, "</del>", false)?;
                proof {
                    reveal_strlit("</del>");
                    assert(writer.out() =~= out0 + "</del>"@);
                }
            },
            Tag::Link(_, _, _) => {
                self.write(writer, "</a>", false)?;
                proof {
                    reveal_strlit("</a>");
                    assert(writer.out() =~= out0 + "</a>"@);
                }
            },
            Tag::Image(_, _, _) => {
                proof {
                    assert(writer.out() =~= out0 + Seq::<char>::empty());
                }
            },
            Tag::FootnoteDefinition(_) => {
                self.write(writer, "</div>", true)?;
                proof {
                    assert(out0 + "</div>"@ + "\n"@ =~= out0 + ("</div>"@ + "\n"@));
                }
            },
            Tag::HtmlBlock => {
                proof {
                    assert(writer.out() =~= out0 + Seq::<char>::empty());
                }
            },
        }
        Ok(())
    }

    /// Opens a heading of the given level on a fresh line.
    fn start_header<W: StrWrite>(&mut self, writer: &mut W, level: u32) -> (r: Result<
        (),
        SinkError,
    >)
        ensures
            final(writer).infallible() == old(writer).infallible(),
            old(writer).infallible() ==> r is Ok,
            r is Ok ==> ({
                let res = step(old(self)@, Event::Start(Tag::Header(level)));
                &&& final(self)@ == res.st
                &&& final(writer).out() == old(writer).out() + res.out
            }),
    {
        let ghost st = self@;
        let ghost out0 = writer.out();
        self.fresh_line(writer)?;
        self.end_newline = false;
        writer.write_str("<h")?;
        let num = u64_to_string(level as u64);
        writer.write_str(num.as_str())?;
        writer.write_str(">")?;
        proof {
            assert(writer.out() =~= out0 + (fresh_out(st) + "<h"@ + dec_str(level as int)
                + ">"@));
        }
        Ok(())
    }

    /// Opens a table cell: a header or data cell after the open section,
    /// with the alignment attribute of the current column, when it has
    /// one.
    fn start_table_cell<W: StrWrite>(&mut self, writer: &mut W) -> (r: Result<(), SinkError>)
        ensures
            final(writer).infallible() == old(writer).infallible(),
            old(writer).infallible() ==> r is Ok,
            r is Ok ==> ({
                let res = step(old(self)@, Event::Start(Tag::TableCell));
                &&& final(self)@ == res.st
                &&& final(writer).out() == old(writer).out() + res.out
            }),
    {
        let ghost st = self@;
        let ghost out0 = writer.out();
        match self.table_state {
            TableState::Head => {
                self.write(writer, "<th", false)?;
            },
            TableState::Body => {
                self.write(writer, "<td", false)?;
            },
        }
        if self.table_cell_index < self.table_alignments.len() {
            match self.table_alignments[self.table_cell_index] {
                Alignment::Left => {
                    self.write(writer, " align=\"left\"", false)?;
                },
                Alignment::Center => {
                    self.write(writer, " align=\"center\"", false)?;
                },
                Alignment::Right => {
                    self.write(writer, " align=\"right\"", false)?;
                },
                Alignment::NoAlign => {},
            }
        }
        self.write(writer, ">", false)?;
        proof {
            reveal_strlit(">");
            let open = (match st.table_state {
                TableState::Head => "<th"@,
                TableState::Body => "<td"@,
            });
            assert(writer.out() =~= out0 + (open + align_attr(st.aligns, st.cell) + ">"@));
        }
        Ok(())
    }

    /// Opens a code block on a fresh line, with a language class when the
    /// info string has a first token.
    fn start_code_block<W: StrWrite>(&mut self, writer: &mut W, info: &String) -> (r: Result<
        (),
        SinkError,
    >)
        ensures
            final(writer).infallible() == old(writer).infallible(),
            old(writer).infallible() ==> r is Ok,
            r is Ok ==> ({
                let res = step(old(self)@, Event::Start(Tag::CodeBlock(*info)));
                &&& final(self)@ == res.st
                &&& final(writer).out() == old(writer).out() + res.out
            }),
    {
        let ghost st = self@;
        let ghost out0 = writer.out();
        self.fresh_line(writer)?;
        let lang = first_token_str(info.as_str());
        if lang.is_empty() {
            self.write(writer, "<pre><code>", false)?;
            proof {
                reveal_strlit("<pre><code>");
                assert(writer.out() =~= out0 + (fresh_out(st) + "<pre><code>"@));
            }
        } else {
            self.write(writer, "<pre><code class=\"language-", false)?;
            let e = escape_html(lang);
            writer.write_str(e.as_str())?;
            self.write(writer, "\">", false)?;
            proof {
                reveal_strlit("\">");
                assert(writer.out() =~= out0 + (fresh_out(st) + ("<pre><code class=\"language-"@
                    + html_escaped(first_token(info@)) + "\">"@)));
            }
        }
        Ok(())
    }

    /// Opens a list on a fresh line: ordered with an explicit start
    /// attribute when the start is given and is not one, ordered without
    /// the attribute when it is one, unordered when no start is given.
    fn start_list<W: StrWrite>(&mut self, writer: &mut W, opt: &Option<u64>) -> (r: Result<
        (),
        SinkError,
    >)
        ensures
            final(writer).infallible() == old(writer).infallible(),
            old(writer).infallible() ==> r is Ok,
            r is Ok ==> ({
                let res = step(old(self)@, Event::Start(Tag::List(*opt)));
                &&& final(self)@ == res.st
                &&& final(writer).out() == old(writer).out() + res.out
            }),
    {
        let ghost st = self@;
        let ghost out0 = writer.out();
        match opt {
            Option::Some(start) => {
                if *start == 1 {
                    self.fresh_line(writer)?;
                    self.write(writer, "<ol>", true)?;
                    proof {
                        assert(writer.out() =~= out0 + (fresh_out(st) + "<ol>"@ + "\n"@));
                    }
                } else {
                    self.fresh_line(writer)?;
                    self.write(writer, "<ol start=\"", false)?;
                    let num = u64_to_string(*start);
                    writer.write_str(num.as_str())?;
                    self.write(writer, "\">", true)?;
                    proof {
                        assert(writer.out() =~= out0 + (fresh_out(st) + ("<ol start=\""@
                            + dec_str(*start as int) + "\">"@) + "\n"@));
                    }
                }
            },
            Option::None => {
                self.fresh_line(writer)?;
                self.write(writer, "<ul>", true)?;
                proof {
                    assert(writer.out() =~= out0 + (fresh_out(st) + "<ul>"@ + "\n"@));
                }
            },
        }
        Ok(())
    }

    /// Opens an anchor element: the destination escaped as a URL, prefixed
    /// with a mail scheme for email links, with a title attribute when the
    /// title is non-empty.
    fn start_link<W: StrWrite>(
        &mut self,
        writer: &mut W,
        kind: &LinkType,
        dest: &String,
        title: &String,
    ) -> (r: Result<(), SinkError>)
        ensures
            final(writer).infallible() == old(writer).infallible(),
            old(writer).infallible() ==> r is Ok,
            r is Ok ==> ({
                let res = step(old(self)@, Event::Start(Tag::Link(*kind, *dest, *title)));
                &&& final(self)@ == res.st
                &&& final(writer).out() == old(writer).out() + res.out
            }),
    {
        let ghost st = self@;
        let ghost out0 = writer.out();
        let ghost prefix = (match *kind {
            LinkType::Email => "<a href=\"mailto:"@,
            _ => "<a href=\""@,
        });
        match kind {
            LinkType::Email => {
                self.write(writer, "<a href=\"mailto:", false)?;
            },
            _ => {
                self.write(writer, "<a href=\"", false)?;
            },
        }
        let e = escape_href(dest.as_str());
        writer.write_str(e.as_str())?;
        if !title.as_str().is_empty() {
            self.write(writer, "\" title=\"", false)?;
            let t = escape_html(title.as_str());
            writer.write_str(t.as_str())?;
        }
        self.write(writer, "\">", false)?;
        proof {
            reveal_strlit("\">");
            if title@.len() > 0 {
                assert(writer.out() =~= out0 + (prefix + href_escaped(dest@) + ("\" title=\""@
                    + html_escaped(title@)) + "\">"@));
            } else {
                assert(writer.out() =~= out0 + (prefix + href_escaped(dest@)
                    + Seq::<char>::empty() + "\">"@));
            }
        }
        Ok(())
    }

    /// Opens a footnote definition on a fresh line: a container whose id is
    /// the escaped name, with a label holding the footnote's number.
    fn start_footnote_definition<W: StrWrite>(&mut self, writer: &mut W, name: &String) -> (r:
        Result<(), SinkError>)
        ensures
            final(writer).infallible() == old(writer).infallible(),
            old(writer).infallible() ==> r is Ok,
            r is Ok ==> ({
                let res = step(old(self)@, Event::Start(Tag::FootnoteDefinition(*name)));
                &&& final(self)@ == res.st
                &&& final(writer).out() == old(writer).out() + res.out
            }),
    {
        let ghost st = self@;
        let ghost out0 = writer.out();
        self.fresh_line(writer)?;
        self.write(writer, "<div class=\"footnote-definition\" id=\"", false)?;
        let e = escape_html(name.as_str());
        writer.write_str(e.as_str())?;
        self.write(writer, "\"><sup class=\"footnote-definition-label\">", false)?;
        let n = self.footnote_number(name);
        let num = u64_to_string(n as u64);
        writer.write_str(num.as_str())?;
        self.write(writer, "</sup>", false)?;
        proof {
            reveal_strlit("</sup>");
            assert(writer.out() =~= out0 + (fresh_out(st)
                + "<div class=\"footnote-definition\" id=\""@ + html_escaped(name@)
                + "\"><sup class=\"footnote-definition-label\">"@ + dec_str(
                note_number(st.notes, name@),
            ) + "</sup>"@));
        }
        Ok(())
    }

    /// Writes the markup that opens a construct other than an image,
    /// consulting and updating the render state.
    #[verifier::spinoff_prover]
    fn start_simple<W: StrWrite>(&mut self, writer: &mut W, tag: &Tag) -> (r: Result<
        (),
        SinkError,
    >)
        requires
            !(*tag matches Tag::Image(_, _, _)),
        ensures
            final(writer).infallible() == old(writer).infallible(),
            old(writer).infallible() ==> r is Ok,
            r is Ok ==> ({
                let res = step(old(self)@, Event::Start(*tag));
                &&& final(self)@ == res.st
                &&& final(writer).out() == old(writer).out() + res.out
            }),
    {
        let ghost st = self@;
        let ghost out0 = writer.out();
        match tag {
            Tag::Paragraph => {
                self.fresh_line(writer)?;
                self.write(writer, "<p>", false)?;
                proof {
                    reveal_strlit("<p>");
                    assert(writer.out() =~= out0 + (fresh_out(st) + "<p>"@));
                }
            },
            Tag::Rule => {
                self.fresh_line(writer)?;
                self.write(writer, "<hr />", true)?;
                proof {
                    assert(writer.out() =~= out0 + (fresh_out(st) + "<hr />"@ + "\n"@));
                }
            },
            Tag::Header(level) => {
                self.start_header(writer, *level)?;
            },
            Tag::Table(aligns) => {
                let copied = copy_aligns(aligns);
                self.table_alignments = copied;
                self.write(writer, "<table>", false)?;
                proof {
                    reveal_strlit("<table>");
                    assert(writer.out() =~= out0 + "<table>"@);
                }
            },
            Tag::TableHead => {
                self.table_state = TableState::Head;
                self.table_cell_index = 0;
                self.write(writer, "<thead><tr>", false)?;
                proof {
                    reveal_strlit("<thead><tr>");
                    assert(writer.out() =~= out0 + "<thead><tr>"@);
                }
            },
            Tag::TableRow => {
                self.table_cell_index = 0;
                self.write(writer, "<tr>", false)?;
                proof {
                    reveal_strlit("<tr>");
                    assert(writer.out() =~= out0 + "<tr>"@);
                }
            },
            Tag::TableCell => {
                self.start_table_cell(writer)?;
            },
            Tag::BlockQuote => {
                self.fresh_line(writer)?;
                self.write(writer, "<blockquote>", true)?;
                proof {
                    assert(writer.out() =~= out0 + (fresh_out(st) + "<blockquote>"@ + "\n"@));
                }
            },
            Tag::CodeBlock(info) => {
                self.start_code_block(writer, info)?;
            },
            Tag::List(opt) => {
                self.start_list(writer, opt)?;
            },
            Tag::Item => {
                self.fresh_line(writer)?;
                self.write(writer, "<li>", false)?;
                proof {
                    reveal_strlit("<li>");
                    assert(writer.out() =~= out0 + (fresh_out(st) + "<li>"@));
                }
            },
            Tag::Emphasis => {
                self.write(writer, "<em>", false)?;
                proof {
                    reveal_strlit("<em>");
                    assert(writer.out() =~= out0 + "<em>"@);
                }
            },
            Tag::Strong => {
                self.write(writer, "<strong>", false)?;
                proof {
                    reveal_strlit("<strong>");
                    assert(writer.out() =~= out0 + "<strong>"@);
                }
            },
            Tag::Strikethrough => {
                self.write(writer, "<del>", false)?;
                proof {
                    reveal_strlit("<del>");
                    assert(writer.out() =~= out0 + "<del>"@);
                }
            },
            Tag::Link(kind, dest, title) => {
                self.start_link(writer, kind, dest, title)?;
            },
            Tag::Image(_, _, _) => {
                proof {
                    assert(false);
                }
            },
            Tag::FootnoteDefinition(name) => {
                self.start_footnote_definition(writer, name)?;
            },
            Tag::HtmlBlock => {
                proof {
                    assert(writer.out() =~= out0 + Seq::<char>::empty());
                }
            },
        }
        Ok(())
    }

    /// Writes the markup that opens a construct. Opening an image consumes
    /// the whole description from the shared cursor, so `pos` moves past
    /// the close matching the image's start.
    fn start_tag<W: StrWrite>(
        &mut self,
        writer: &mut W,
        events: &Vec<Event>,
        pos: &mut usize,
        tag: &Tag,
    ) -> (r: Result<(), SinkError>)
        requires
            *old(pos) <= events@.len(),
        ensures
            *old(pos) <= *final(pos) <= events@.len(),
            final(writer).infallible() == old(writer).infallible(),
            old(writer).infallible() ==> r is Ok,
            r is Ok ==> ({
                let res = run_spec(
                    old(self)@,
                    seq![Event::Start(*tag)] + events@.subrange(
                        *old(pos) as int,
                        *final(pos) as int,
                    ),
                );
                &&& final(self)@ == normed(res.st)
                &&& final(writer).out() == old(writer).out() + res.out
                &&& (res.st.mode is Norm || *final(pos) == events@.len())
            }),
    {
        let ghost st = self@;
        let ghost out0 = writer.out();
        let ghost p0 = *pos as int;
        match tag {
            Tag::Image(_kind, dest, title) => {
                self.write(writer, "<img src=\"", false)?;
                let e = escape_href(dest.as_str());
                writer.write_str(e.as_str())?;
                self.write(writer, "\" alt=\"", false)?;
                proof {
                    reveal_strlit("\" alt=\"");
                    assert(writer.out() =~= out0 + ("<img src=\""@ + href_escaped(dest@)
                        + "\" alt=\""@));
                }
                let r = self.raw_text(writer, events, pos, title);
                proof {
                    if r is Ok {
                        let ev = Event::Start(*tag);
                        let opened = step(st, ev);
                        let consumed = events@.subrange(p0, *pos as int);
                        lemma_run_one(st, ev);
                        lemma_run_app(st, seq![ev], consumed);
                        let rest = run_spec(opened.st, consumed);
                        assert((out0 + opened.out) + rest.out =~= out0 + (opened.out
                            + rest.out));
                    }
                }
                r
            },
            _ => {
                let r = self.start_simple(writer, tag);
                proof {
                    if r is Ok {
                        let ev = Event::Start(*tag);
                        lemma_run_one(st, ev);
                        assert(seq![ev] + events@.subrange(p0, p0) =~= seq![ev]);
                    }
                }
                r
            },
        }
    }

    /// Handles one event of an image description: nested structure is
    /// counted, text is collapsed into plain escaped content, and the close
    /// matching the image's start writes the title attribute and self-closes
    /// the element. Returns whether that matching close was consumed.
    fn raw_one<W: StrWrite>(
        &mut self,
        writer: &mut W,
        ev: &Event,
        nest: &mut usize,
        title: &String,
    ) -> (r: Result<bool, SinkError>)
        requires
            *old(nest) < usize::MAX,
        ensures
            final(writer).infallible() == old(writer).infallible(),
            old(writer).infallible() ==> r is Ok,
            r is Ok ==> ({
                let st = MState {
                    mode: RMode::Raw { nest: *old(nest) as nat, title: title@ },
                    ..old(self)@
                };
                let res = step(st, *ev);
                &&& final(writer).out() == old(writer).out() + res.out
                &&& final(self)@ == normed(res.st)
                &&& *final(nest) <= *old(nest) + 1
                &&& (r == Ok::<bool, SinkError>(true) ==> res.st.mode is Norm)
                &&& (r == Ok::<bool, SinkError>(false) ==> res.st.mode == (RMode::Raw {
                    nest: *final(nest) as nat,
                    title: title@,
                }))
            }),
    {
        let ghost out0 = writer.out();
        match ev {
            Event::Start(_) => {
                *nest = *nest + 1;
                proof {
                    assert(writer.out() =~= out0 + Seq::<char>::empty());
                }
                Ok(false)
            },
            Event::End(_) => {
                if *nest == 0 {
                    if !title.as_str().is_empty() {
                        self.write(writer, "\" title=\"", false)?;
                        let e = escape_html(title.as_str());
                        writer.write_str(e.as_str())?;
                    }
                    self.write(writer, "\" />", false)?;
                    proof {
                        reveal_strlit("\" />");
                        if title@.len() > 0 {
                            assert(writer.out() =~= out0 + (("\" title=\""@ + html_escaped(
                                title@,
                            )) + "\" />"@));
                        } else {
                            assert(writer.out() =~= out0 + (Seq::<char>::empty() + "\" />"@));
                        }
                    }
                    Ok(true)
                } else {
                    *nest = *nest - 1;
                    proof {
                        assert(writer.out() =~= out0 + Seq::<char>::empty());
                    }
                    Ok(false)
                }
            },
            Event::Html(_) => {
                proof {
                    assert(writer.out() =~= out0 + Seq::<char>::empty());
                }
                Ok(false)
            },
            Event::InlineHtml(text) => {
                let e = escape_html(text.as_str());
                writer.write_str(e.as_str())?;
                self.end_newline = str_ends_newline(text.as_str());
                Ok(false)
            },
            Event::Code(text) => {
                let e = escape_html(text.as_str());
                writer.write_str(e.as_str())?;
                self.end_newline = str_ends_newline(text.as_str());
                Ok(false)
            },
            Event::Text(text) => {
                let e = escape_html(text.as_str());
                writer.write_str(e.as_str())?;
                self.end_newline = str_ends_newline(text.as_str());
                Ok(false)
            },
            Event::SoftBreak => {
                self.write(writer, " ", false)?;
                proof {
                    reveal_strlit(" ");
                }
                Ok(false)
            },
            Event::HardBreak => {
                self.write(writer, " ", false)?;
                proof {
                    reveal_strlit(" ");
                }
                Ok(false)
            },
            Event::FootnoteReference(name) => {
                let n = self.footnote_number(name);
                writer.write_str("[")?;
                let num = u64_to_string(n as u64);
                writer.write_str(num.as_str())?;
                writer.write_str("]")?;
                proof {
                    assert(writer.out() =~= out0 + ("["@ + dec_str(
                        note_number(old(self)@.notes, name@),
                    ) + "]"@));
                }
                Ok(false)
            },
            Event::TaskListMarker(checked) => {
                if *checked {
                    self.write(writer, "[x]", false)?;
                    proof {
                        reveal_strlit("[x]");
                        assert(writer.out() =~= out0 + "[x]"@);
                    }
                } else {
                    self.write(writer, "[ ]", false)?;
                    proof {
                        reveal_strlit("[ ]");
                        assert(writer.out() =~= out0 + "[ ]"@);
                    }
                }
                Ok(false)
            },
        }
    }

    /// Flattens the description of an image: consumes events from the
    /// shared cursor up to and including the close matching the image's
    /// start, collapsing nested structure into plain escaped text, then
    /// writes the title attribute and self-closes the element.
    fn raw_text<W: StrWrite>(
        &mut self,
        writer: &mut W,
        events: &Vec<Event>,
        pos: &mut usize,
        title: &String,
    ) -> (r: Result<(), SinkError>)
        requires
            *old(pos) <= events@.len(),
        ensures
            *old(pos) <= *final(pos) <= events@.len(),
            final(writer).infallible() == old(writer).infallible(),
            old(writer).infallible() ==> r is Ok,
            r is Ok ==> ({
                let st0 = MState { mode: RMode::Raw { nest: 0, title: title@ }, ..old(self)@ };
                let res = run_spec(st0, events@.subrange(*old(pos) as int, *final(pos) as int));
                &&& final(self)@ == normed(res.st)
                &&& final(writer).out() == old(writer).out() + res.out
                &&& (res.st.mode is Norm || *final(pos) == events@.len())
            }),
    {
        let ghost st0 = MState { mode: RMode::Raw { nest: 0, title: title@ }, ..old(self)@ };
        let ghost p0 = *pos as int;
        let ghost out0 = writer.out();
        let mut nest: usize = 0;
        let evn = events.len();
        proof {
            assert(events@.subrange(p0, p0) =~= Seq::<Event>::empty());
            assert(out0 + run_spec(st0, events@.subrange(p0, p0)).out =~= out0);
        }
        loop
            invariant
                p0 == *old(pos) as int,
                st0 == (MState { mode: RMode::Raw { nest: 0, title: title@ }, ..old(self)@ }),
                out0 == old(writer).out(),
                evn == events@.len(),
                p0 <= *pos <= events@.len(),
                nest <= *pos - p0,
                writer.infallible() == old(writer).infallible(),
                ({
                    let res = run_spec(st0, events@.subrange(p0, *pos as int));
                    &&& self@ == normed(res.st)
                    &&& res.st.mode == (RMode::Raw { nest: nest as nat, title: title@ })
                    &&& writer.out() == out0 + res.out
                }),
            ensures
                *pos == events@.len(),
                p0 <= *pos,
                writer.infallible() == old(writer).infallible(),
                ({
                    let res = run_spec(st0, events@.subrange(p0, *pos as int));
                    &&& self@ == normed(res.st)
                    &&& writer.out() == out0 + res.out
                }),
            decreases events@.len() - *pos,
        {
            if *pos >= evn {
                break ;
            }
            let ghost pre = run_spec(st0, events@.subrange(p0, *pos as int));
            let ghost evg = events@[*pos as int];
            proof {
                lemma_run_snoc(st0, events@.subrange(p0, *pos as int), evg);
                assert(events@.subrange(p0, *pos as int).push(evg) =~= events@.subrange(
                    p0,
                    *pos as int + 1,
                ));
            }
            let ev = &events[*pos];
            let done = self.raw_one(writer, ev, &mut nest, title)?;
            *pos = *pos + 1;
            proof {
                assert(out0 + (pre.out + step(pre.st, evg).out) =~= (out0 + pre.out) + step(
                    pre.st,
                    evg,
                ).out);
            }
            if done {
                return Ok(());
            }
        }
        Ok(())
    }

    /// Handles one inline event: text and code escaped, raw HTML passed
    /// through, breaks, footnote references and task list markers written
    /// as their markup.
    #[verifier::spinoff_prover]
    fn run_one<W: StrWrite>(&mut self, writer: &mut W, ev: &Event) -> (r: Result<(), SinkError>)
        requires
            !(*ev matches Event::Start(_)),
            !(*ev matches Event::End(_)),
        ensures
            final(writer).infallible() == old(writer).infallible(),
            old(writer).infallible() ==> r is Ok,
            r is Ok ==> ({
                let res = step(old(self)@, *ev);
                &&& final(self)@ == res.st
                &&& final(writer).out() == old(writer).out() + res.out
            }),
    {
        let ghost st = self@;
        let ghost out0 = writer.out();
        match ev {
            Event::Start(_) => {
                proof {
                    assert(false);
                }
                Ok(())
            },
            Event::End(_) => {
                proof {
                    assert(false);
                }
                Ok(())
            },
            Event::Text(text) => {
                let e = escape_html(text.as_str());
                writer.write_str(e.as_str())?;
                self.end_newline = str_ends_newline(text.as_str());
                Ok(())
            },
            Event::Code(text) => {
                self.write(writer, "<code>", false)?;
                let e = escape_html(text.as_str());
                writer.write_str(e.as_str())?;
                self.write(writer, "</code>", false)?;
                self.end_newline = false;
                proof {
                    assert(writer.out() =~= out0 + ("<code>"@ + html_escaped(text@)
                        + "</code>"@));
                }
                Ok(())
            },
            Event::Html(html) => {
                self.write(writer, html.as_str(), false)?;
                proof {
                    assert(writer.out() =~= out0 + html@);
                }
                Ok(())
            },
            Event::InlineHtml(html) => {
                self.write(writer, html.as_str(), false)?;
                proof {
                    assert(writer.out() =~= out0 + html@);
                }
                Ok(())
            },
            Event::SoftBreak => {
                self.write_newline(writer)?;
                Ok(())
            },
            Event::HardBreak => {
                self.write(writer, "<br />", true)?;
                proof {
                    assert(writer.out() =~= out0 + ("<br />"@ + "\n"@));
                }
                Ok(())
            },
            Event::FootnoteReference(name) => {
                self.write(writer, "<sup class=\"footnote-reference\"><a href=\"#", false)?;
                let e = escape_html(name.as_str());
                writer.write_str(e.as_str())?;
                self.write(writer, "\">", false)?;
                let n = self.footnote_number(name);
                let num = u64_to_string(n as u64);
                writer.write_str(num.as_str())?;
                self.write(writer, "</a></sup>", false)?;
                proof {
                    reveal_strlit("</a></sup>");
                    assert(writer.out() =~= out0 + (
                    "<sup class=\"footnote-reference\"><a href=\"#"@ + html_escaped(name@)
                        + "\">"@ + dec_str(note_number(st.notes, name@)) + "</a></sup>"@));
                }
                Ok(())
            },
            Event::TaskListMarker(checked) => {
                if *checked {
                    self.write(writer, "<input disabled=\"\" type=\"checkbox\" checked=\"\"/>", true)?;
                    proof {
                        assert(writer.out() =~= out0 + (
                        "<input disabled=\"\" type=\"checkbox\" checked=\"\"/>"@ + "\n"@));
                    }
                } else {
                    self.write(writer, "<input disabled=\"\" type=\"checkbox\"/>", true)?;
                    proof {
                        assert(writer.out() =~= out0 + ("<input disabled=\"\" type=\"checkbox\"/>"@
                            + "\n"@));
                    }
                }
                Ok(())
            },
        }
    }

    /// Renders a whole event sequence: pulls the events strictly in order,
    /// dispatches on their kind, and writes the markup into the sink. On
    /// success the sink has grown by exactly the rendering of the sequence
    /// from this state; a sink that never fails makes success certain.
    #[verifier::spinoff_prover]
    #[verifier::rlimit(100)]
    pub fn run<W: StrWrite>(&mut self, writer: &mut W, events: &Vec<Event>) -> (r: Result<
        (),
        SinkError,
    >)
        ensures
            final(writer).infallible() == old(writer).infallible(),
            old(writer).infallible() ==> r is Ok,
            r is Ok ==> ({
                let res = run_spec(old(self)@, events@);
                &&& final(self)@ == normed(res.st)
                &&& final(writer).out() == old(writer).out() + res.out
            }),
    {
        let ghost st0 = self@;
        let ghost out0 = writer.out();
        let evn = events.len();
        let mut pos: usize = 0;
        proof {
            assert(events@.take(0) =~= Seq::<Event>::empty());
            assert(out0 + run_spec(st0, events@.take(0)).out =~= out0);
        }
        while pos < evn
            invariant
                st0 == old(self)@,
                out0 == old(writer).out(),
                evn == events@.len(),
                pos <= evn,
                writer.infallible() == old(writer).infallible(),
                ({
                    let res = run_spec(st0, events@.take(pos as int));
                    &&& self@ == normed(res.st)
                    &&& writer.out() == out0 + res.out
                    &&& (res.st.mode is Norm || pos == evn)
                }),
            decreases evn - pos,
        {
            let ghost pre = run_spec(st0, events@.take(pos as int));
            let ghost evg = events@[pos as int];
            let ev = &events[pos];
            match ev {
                Event::Start(tag) => {
                    pos = pos + 1;
                    let ghost p1 = pos as int;
                    self.start_tag(writer, events, &mut pos, tag)?;
                    proof {
                        let mid = seq![evg] + events@.subrange(p1, pos as int);
                        lemma_run_app(st0, events@.take(p1 - 1), mid);
                        assert(events@.take(pos as int) =~= events@.take(p1 - 1) + mid);
                        let res2 = run_spec(pre.st, mid);
                        assert(writer.out() =~= out0 + (pre.out + res2.out));
                    }
                },
                Event::End(tag) => {
                    self.end_tag(writer, tag)?;
                    pos = pos + 1;
                    proof {
                        lemma_run_snoc(st0, events@.take(pos - 1), evg);
                        assert(events@.take(pos - 1).push(evg) =~= events@.take(pos as int));
                        assert(writer.out() =~= out0 + (pre.out + step(pre.st, evg).out));
                    }
                },
                _ => {
                    self.run_one(writer, ev)?;
                    pos = pos + 1;
                    proof {
                        lemma_run_snoc(st0, events@.take(pos - 1), evg);
                        assert(events@.take(pos - 1).push(evg) =~= events@.take(pos as int));
                        assert(writer.out() =~= out0 + (pre.out + step(pre.st, evg).out));
                    }
                },
            }
        }
        proof {
            assert(events@.take(evn as int) =~= events@);
        }
        Ok(())
    }
}

/// Copies a sequence of column alignments out of a table tag.
fn copy_aligns(v: &Vec<Alignment>) -> (r: Vec<Alignment>)
    ensures
        r@ == v@,
{
    let mut r: Vec<Alignment> = Vec::new();
    let mut i: usize = 0;
    while i < v.len()
        invariant
            i <= v.len(),
            r@ == v@.take(i as int),
        decreases v.len() - i,
    {
        r.push(v[i]);
        proof {
            assert(v@.take(i as int).push(v@[i as int]) =~= v@.take(i + 1 as int));
        }
        i = i + 1;
    }
    proof {
        assert(v@.take(v@.len() as int) =~= v@);
    }
    r
}

/// Renders the events and appends the markup to a growable text buffer;
/// appending there cannot fail, so the buffer grows by exactly the
/// rendering of the sequence.
pub fn push_html(s: &mut String, events: &Vec<Event>)
    ensures
        final(s)@ == old(s)@ + rendered(events@),
{
    let mut out = String::new();
    let mut state = HtmlWriter::new();
    let r = state.run(&mut out, events);
    match r {
        Ok(()) => {},
        Err(_) => {
            proof {
                assert(false);
            }
        },
    }
    s.append(out.as_str());
    proof {
        assert(old(s)@ + (Seq::<char>::empty() + rendered(events@)) =~= old(s)@ + rendered(
            events@,
        ));
    }
}

/// Renders the events into any sink. On success the sink has grown by
/// exactly the rendering of the sequence; a sink that never fails makes
/// success certain, and a failed write is handed back unchanged.
pub fn write_html<W: StrWrite>(writer: &mut W, events: &Vec<Event>) -> (r: Result<(), SinkError>)
    ensures
        final(writer).infallible() == old(writer).infallible(),
        old(writer).infallible() ==> r is Ok,
        r is Ok ==> final(writer).out() == old(writer).out() + rendered(events@),
{
    let mut state = HtmlWriter::new();
    state.run(writer, events)
}

} // verus!
