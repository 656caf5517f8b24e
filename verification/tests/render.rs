use html_render::{push_html, write_html, Alignment, Event, LinkType, Tag};

fn render(events: Vec<Event>) -> String {
    let mut s = String::new();
    push_html(&mut s, &events);
    s
}

fn text(s: &str) -> Event {
    Event::Text(s.to_string())
}

#[test]
fn heading_and_list_scenario() {
    let events = vec![
        Event::Start(Tag::Header(1)),
        text("hello"),
        Event::End(Tag::Header(1)),
        Event::Start(Tag::List(None)),
        Event::Start(Tag::Item),
        text("alpha"),
        Event::End(Tag::Item),
        Event::Start(Tag::Item),
        text("beta"),
        Event::End(Tag::Item),
        Event::End(Tag::List(None)),
    ];
    assert_eq!(
        render(events),
        "<h1>hello</h1>\n<ul>\n<li>alpha</li>\n<li>beta</li>\n</ul>\n"
    );
}

#[test]
fn footnote_numbers_follow_first_occurrence() {
    let events = vec![
        Event::FootnoteReference("b".to_string()),
        Event::FootnoteReference("a".to_string()),
        Event::FootnoteReference("b".to_string()),
    ];
    assert_eq!(
        render(events),
        "<sup class=\"footnote-reference\"><a href=\"#b\">1</a></sup>\
         <sup class=\"footnote-reference\"><a href=\"#a\">2</a></sup>\
         <sup class=\"footnote-reference\"><a href=\"#b\">1</a></sup>"
    );
}

#[test]
fn footnote_definition_shares_numbering() {
    let events = vec![
        Event::FootnoteReference("x".to_string()),
        Event::Start(Tag::FootnoteDefinition("x".to_string())),
        text("body"),
        Event::End(Tag::FootnoteDefinition("x".to_string())),
    ];
    assert_eq!(
        render(events),
        "<sup class=\"footnote-reference\"><a href=\"#x\">1</a></sup>\n\
         <div class=\"footnote-definition\" id=\"x\"><sup class=\"footnote-definition-label\">1</sup>body</div>\n"
    );
}

#[test]
fn table_alignment_is_positional_and_resets_per_row() {
    let aligns = vec![Alignment::Left, Alignment::NoAlign, Alignment::Right];
    let mut events = vec![
        Event::Start(Tag::Table(aligns.clone())),
        Event::Start(Tag::TableHead),
    ];
    for h in ["A", "B", "C"] {
        events.push(Event::Start(Tag::TableCell));
        events.push(text(h));
        events.push(Event::End(Tag::TableCell));
    }
    events.push(Event::End(Tag::TableHead));
    events.push(Event::Start(Tag::TableRow));
    for d in ["D", "E", "F"] {
        events.push(Event::Start(Tag::TableCell));
        events.push(text(d));
        events.push(Event::End(Tag::TableCell));
    }
    events.push(Event::End(Tag::TableRow));
    events.push(Event::End(Tag::Table(aligns)));
    assert_eq!(
        render(events),
        "<table><thead><tr>\
         <th align=\"left\">A</th><th>B</th><th align=\"right\">C</th>\
         </tr></thead><tbody>\n\
         <tr><td align=\"left\">D</td><td>E</td><td align=\"right\">F</td></tr>\n\
         </tbody></table>\n"
    );
}

#[test]
fn image_description_is_flattened_and_rendering_resumes() {
    let img = || Tag::Image(LinkType::Inline, "img.png".to_string(), "t".to_string());
    let events = vec![
        Event::Start(img()),
        text("a"),
        Event::Start(Tag::Emphasis),
        text("b"),
        Event::End(Tag::Emphasis),
        Event::SoftBreak,
        text("c"),
        Event::End(img()),
        text("after"),
    ];
    assert_eq!(
        render(events),
        "<img src=\"img.png\" alt=\"ab c\" title=\"t\" />after"
    );
}

#[test]
fn image_without_title_omits_the_attribute() {
    let img = || Tag::Image(LinkType::Inline, "i.png".to_string(), String::new());
    let events = vec![
        Event::Start(img()),
        Event::Start(Tag::Strong),
        text("bold"),
        Event::End(Tag::Strong),
        Event::End(img()),
    ];
    assert_eq!(render(events), "<img src=\"i.png\" alt=\"bold\" />");
}

#[test]
fn raw_html_is_dropped_from_image_descriptions() {
    let img = || Tag::Image(LinkType::Inline, "i.png".to_string(), String::new());
    let events = vec![
        Event::Start(img()),
        Event::Html("<b>".to_string()),
        text("x"),
        Event::FootnoteReference("n".to_string()),
        Event::TaskListMarker(true),
        Event::TaskListMarker(false),
        Event::End(img()),
    ];
    assert_eq!(render(events), "<img src=\"i.png\" alt=\"x[1][x][ ]\" />");
}

#[test]
fn special_characters_are_escaped_in_content() {
    let events = vec![text("<b> \"quote\" & co")];
    assert_eq!(render(events), "&lt;b&gt; &quot;quote&quot; &amp; co");
}

#[test]
fn inline_code_is_wrapped_and_escaped() {
    let events = vec![Event::Code("x<y".to_string())];
    assert_eq!(render(events), "<code>x&lt;y</code>");
}

#[test]
fn raw_html_passes_through_unescaped() {
    let events = vec![
        Event::Html("<div>raw</div>\n".to_string()),
        Event::InlineHtml("<span>".to_string()),
    ];
    assert_eq!(render(events), "<div>raw</div>\n<span>");
}

#[test]
fn ordered_list_with_explicit_start() {
    let events = vec![
        Event::Start(Tag::List(Some(3))),
        Event::Start(Tag::Item),
        text("x"),
        Event::End(Tag::Item),
        Event::End(Tag::List(Some(3))),
    ];
    assert_eq!(render(events), "<ol start=\"3\">\n<li>x</li>\n</ol>\n");
}

#[test]
fn ordered_list_starting_at_one_has_no_start_attribute() {
    let events = vec![
        Event::Start(Tag::List(Some(1))),
        Event::Start(Tag::Item),
        text("x"),
        Event::End(Tag::Item),
        Event::End(Tag::List(Some(1))),
    ];
    assert_eq!(render(events), "<ol>\n<li>x</li>\n</ol>\n");
}

#[test]
fn task_list_markers() {
    assert_eq!(
        render(vec![Event::TaskListMarker(true)]),
        "<input disabled=\"\" type=\"checkbox\" checked=\"\"/>\n"
    );
    assert_eq!(
        render(vec![Event::TaskListMarker(false)]),
        "<input disabled=\"\" type=\"checkbox\"/>\n"
    );
}

#[test]
fn code_block_uses_first_token_of_info_string() {
    let events = vec![
        Event::Start(Tag::CodeBlock("rust ignore".to_string())),
        text("let x = 1;\n"),
        Event::End(Tag::CodeBlock("rust ignore".to_string())),
    ];
    assert_eq!(
        render(events),
        "<pre><code class=\"language-rust\">let x = 1;\n</code></pre>\n"
    );
}

#[test]
fn code_block_without_language_is_bare() {
    let events = vec![
        Event::Start(Tag::CodeBlock(String::new())),
        text("data"),
        Event::End(Tag::CodeBlock(String::new())),
    ];
    assert_eq!(render(events), "<pre><code>data</code></pre>\n");
}

#[test]
fn email_link_gets_mail_scheme_and_title() {
    let link = || {
        Tag::Link(
            LinkType::Email,
            "user@example.com".to_string(),
            "mail".to_string(),
        )
    };
    let events = vec![Event::Start(link()), text("m"), Event::End(link())];
    assert_eq!(
        render(events),
        "<a href=\"mailto:user@example.com\" title=\"mail\">m</a>"
    );
}

#[test]
fn link_destination_is_url_escaped() {
    let link = || Tag::Link(LinkType::Inline, "a b\"c".to_string(), String::new());
    let events = vec![Event::Start(link()), text("x"), Event::End(link())];
    assert_eq!(render(events), "<a href=\"a%20b%22c\">x</a>");
}

#[test]
fn block_constructs_start_on_a_fresh_line() {
    let events = vec![
        text("abc"),
        Event::Start(Tag::Paragraph),
        text("p"),
        Event::End(Tag::Paragraph),
    ];
    assert_eq!(render(events), "abc\n<p>p</p>\n");
}

#[test]
fn rule_blockquote_and_strikethrough() {
    let events = vec![
        Event::Start(Tag::Rule),
        Event::End(Tag::Rule),
        Event::Start(Tag::BlockQuote),
        Event::Start(Tag::Strikethrough),
        text("x"),
        Event::End(Tag::Strikethrough),
        Event::End(Tag::BlockQuote),
    ];
    assert_eq!(render(events), "<hr />\n<blockquote>\n<del>x</del></blockquote>\n");
}

#[test]
fn breaks() {
    let events = vec![text("a"), Event::SoftBreak, text("b"), Event::HardBreak, text("c")];
    assert_eq!(render(events), "a\nb<br />\nc");
}

#[test]
fn push_html_appends_to_existing_content() {
    let mut s = String::from("prefix:");
    push_html(&mut s, &vec![text("x")]);
    assert_eq!(s, "prefix:x");
}

#[test]
fn write_html_into_a_string_buffer_matches_push_html() {
    let events = vec![
        Event::Start(Tag::Header(2)),
        text("t"),
        Event::End(Tag::Header(2)),
    ];
    let mut buf = String::new();
    let r = write_html(&mut buf, &events);
    assert!(r.is_ok());
    assert_eq!(buf, "<h2>t</h2>\n");
}

#[test]
fn escaping_helpers() {
    assert_eq!(html_render::escape_html("<&\">"), "&lt;&amp;&quot;&gt;");
    assert_eq!(html_render::escape_href("a b<c>'d`e"), "a%20b%3Cc%3E%27d%60e");
}

#[test]
fn empty_input_renders_nothing() {
    assert_eq!(render(vec![]), "");
}

#[test]
fn cells_beyond_the_alignments_have_no_attribute() {
    let aligns = vec![Alignment::Left];
    let events = vec![
        Event::Start(Tag::Table(aligns.clone())),
        Event::Start(Tag::TableHead),
        Event::Start(Tag::TableCell),
        text("A"),
        Event::End(Tag::TableCell),
        Event::Start(Tag::TableCell),
        text("B"),
        Event::End(Tag::TableCell),
        Event::End(Tag::TableHead),
        Event::End(Tag::Table(aligns)),
    ];
    assert_eq!(
        render(events),
        "<table><thead><tr><th align=\"left\">A</th><th>B</th></tr></thead><tbody>\n</tbody></table>\n"
    );
}

#[test]
fn html_block_emits_no_markup_of_its_own() {
    let events = vec![
        Event::Start(Tag::HtmlBlock),
        Event::Html("<aside>x</aside>\n".to_string()),
        Event::End(Tag::HtmlBlock),
    ];
    assert_eq!(render(events), "<aside>x</aside>\n");
}

#[test]
fn header_levels_and_multi_digit_list_start() {
    let events = vec![
        Event::Start(Tag::Header(6)),
        text("deep"),
        Event::End(Tag::Header(6)),
        Event::Start(Tag::List(Some(12))),
        Event::Start(Tag::Item),
        text("x"),
        Event::End(Tag::Item),
        Event::End(Tag::List(Some(12))),
    ];
    assert_eq!(
        render(events),
        "<h6>deep</h6>\n<ol start=\"12\">\n<li>x</li>\n</ol>\n"
    );
}

#[test]
fn code_block_language_token_is_whitespace_delimited() {
    let events = vec![
        Event::Start(Tag::CodeBlock("rust\tignore".to_string())),
        text("x"),
        Event::End(Tag::CodeBlock("rust\tignore".to_string())),
    ];
    assert_eq!(
        render(events),
        "<pre><code class=\"language-rust\">x</code></pre>\n"
    );
    let events = vec![
        Event::Start(Tag::CodeBlock("c\ncode".to_string())),
        text("y"),
        Event::End(Tag::CodeBlock("c\ncode".to_string())),
    ];
    assert_eq!(render(events), "<pre><code class=\"language-c\">y</code></pre>\n");
}
