//! Showing Markdown on a terminal.

use crate::banner::{repeat, repeated};
use crate::text::{chars_of, join_texts, joined, string_of, texts, trim_end, trimmed_end};
use pulldown_cmark::{CodeBlockKind, Event, Parser, Tag, TagEnd};
use vstd::prelude::*;
use vstd::utf8::encode_utf8;

verus! {

/// `pulldown_cmark::Tag`.
#[verifier::external_type_specification]
#[verifier::external_body]
pub struct ExTag<'a>(pulldown_cmark::Tag<'a>);

/// `pulldown_cmark::TagEnd`.
#[verifier::external_type_specification]
#[verifier::external_body]
pub struct ExTagEnd(pulldown_cmark::TagEnd);

/// What a Markdown text consists of. A fenced code block has the text behind its fence, an
/// indented one none. What is not shown differently from its contents is `Other`.
#[derive(Debug, Clone, PartialEq, Eq)]
pub enum MarkdownEvent {
    StartHeading(u8),
    EndHeading,
    StartParagraph,
    EndParagraph,
    StartList,
    EndList,
    StartItem,
    EndItem,
    StartCodeBlock(Option<String>),
    EndCodeBlock,
    StartLink(String),
    EndLink,
    Text(String),
    Code(String),
    SoftBreak,
    HardBreak,
    Rule,
    Other,
}

/// What an event of a Markdown text says.
pub enum MarkdownView {
    StartHeading(u8),
    EndHeading,
    StartParagraph,
    EndParagraph,
    StartList,
    EndList,
    StartItem,
    EndItem,
    StartCodeBlock(Option<Seq<char>>),
    EndCodeBlock,
    StartLink(Seq<char>),
    EndLink,
    Text(Seq<char>),
    Code(Seq<char>),
    SoftBreak,
    HardBreak,
    Rule,
    Other,
}

impl MarkdownEvent {
    /// What the event says.
    pub open spec fn view(&self) -> MarkdownView {
        match *self {
            MarkdownEvent::StartHeading(level) => MarkdownView::StartHeading(level),
            MarkdownEvent::EndHeading => MarkdownView::EndHeading,
            MarkdownEvent::StartParagraph => MarkdownView::StartParagraph,
            MarkdownEvent::EndParagraph => MarkdownView::EndParagraph,
            MarkdownEvent::StartList => MarkdownView::StartList,
            MarkdownEvent::EndList => MarkdownView::EndList,
            MarkdownEvent::StartItem => MarkdownView::StartItem,
            MarkdownEvent::EndItem => MarkdownView::EndItem,
            MarkdownEvent::StartCodeBlock(Some(info)) => MarkdownView::StartCodeBlock(Some(info@)),
            MarkdownEvent::StartCodeBlock(None) => MarkdownView::StartCodeBlock(None),
            MarkdownEvent::EndCodeBlock => MarkdownView::EndCodeBlock,
            MarkdownEvent::StartLink(url) => MarkdownView::StartLink(url@),
            MarkdownEvent::EndLink => MarkdownView::EndLink,
            MarkdownEvent::Text(text) => MarkdownView::Text(text@),
            MarkdownEvent::Code(text) => MarkdownView::Code(text@),
            MarkdownEvent::SoftBreak => MarkdownView::SoftBreak,
            MarkdownEvent::HardBreak => MarkdownView::HardBreak,
            MarkdownEvent::Rule => MarkdownView::Rule,
            MarkdownEvent::Other => MarkdownView::Other,
        }
    }
}

/// What a list of events says.
pub open spec fn events_of(events: Seq<MarkdownEvent>) -> Seq<MarkdownView> {
    Seq::new(events.len(), |i: int| events[i]@)
}

/// The events that `pulldown_cmark::Parser::new` reads from a Markdown text.
pub uninterp spec fn markdown_events(markdown: Seq<char>) -> Seq<MarkdownView>;

/// `pulldown_cmark::Tag`, variant by variant. Nothing is claimed of the result: it is named where
/// the whole text is read.
#[verifier::external_body]
fn start_event(tag: Tag<'_>) -> MarkdownEvent {
    match tag {
        Tag::Heading { level, .. } => MarkdownEvent::StartHeading(level as u8),
        Tag::Paragraph => MarkdownEvent::StartParagraph,
        Tag::List(_) => MarkdownEvent::StartList,
        Tag::Item => MarkdownEvent::StartItem,
        Tag::CodeBlock(CodeBlockKind::Fenced(info)) => {
            MarkdownEvent::StartCodeBlock(Some(info.to_string()))
        }
        Tag::CodeBlock(CodeBlockKind::Indented) => MarkdownEvent::StartCodeBlock(None),
        Tag::Link { dest_url, .. } => MarkdownEvent::StartLink(dest_url.to_string()),
        _ => MarkdownEvent::Other,
    }
}

/// `pulldown_cmark::TagEnd`, variant by variant. Nothing is claimed of the result: it is named
/// where the whole text is read.
#[verifier::external_body]
fn end_event(tag: TagEnd) -> MarkdownEvent {
    match tag {
        TagEnd::Heading(_) => MarkdownEvent::EndHeading,
        TagEnd::Paragraph => MarkdownEvent::EndParagraph,
        TagEnd::List(_) => MarkdownEvent::EndList,
        TagEnd::Item => MarkdownEvent::EndItem,
        TagEnd::CodeBlock => MarkdownEvent::EndCodeBlock,
        TagEnd::Link => MarkdownEvent::EndLink,
        _ => MarkdownEvent::Other,
    }
}

/// `pulldown_cmark::Parser::new` and its iteration: the events of a Markdown text, in order.
#[verifier::external_body]
fn read_markdown(markdown: &str) -> (events: Vec<MarkdownEvent>)
    ensures
        events_of(events@) == markdown_events(markdown@),
{
    let convert = |event: Event<'_>| match event {
        Event::Start(tag) => start_event(tag),
        Event::End(tag) => end_event(tag),
        Event::Text(text) => MarkdownEvent::Text(text.to_string()),
        Event::Code(text) => MarkdownEvent::Code(text.to_string()),
        Event::SoftBreak => MarkdownEvent::SoftBreak,
        Event::HardBreak => MarkdownEvent::HardBreak,
        Event::Rule => MarkdownEvent::Rule,
        _ => MarkdownEvent::Other,
    };
    Parser::new(markdown).map(convert).collect()
}

/// What `str::to_uppercase` makes of a text.
pub uninterp spec fn uppercase(text: Seq<char>) -> Seq<char>;

/// `str::to_uppercase`: the text in upper case.
#[verifier::external_body]
fn upper_case(text: &str) -> (upper: String)
    ensures
        upper@ == uppercase(text@),
{
    text.to_uppercase()
}

/// What has been shown of a Markdown text, and where in it the reader is.
pub struct PageView {
    pub output: Seq<char>,
    pub heading: Option<u8>,
    pub in_code: bool,
    pub link: Option<Seq<char>>,
    pub depth: nat,
    pub in_item: bool,
    pub needs_blank: bool,
    pub at_line_start: bool,
}

/// Nothing has been shown.
pub open spec fn blank_page() -> PageView {
    PageView {
        output: Seq::empty(),
        heading: None,
        in_code: false,
        link: None,
        depth: 0,
        in_item: false,
        needs_blank: false,
        at_line_start: false,
    }
}

/// The page with newlines at its end, at a line's start.
pub open spec fn with_newlines(page: PageView, n: nat) -> PageView {
    PageView { output: page.output + repeated('\n', n), at_line_start: true, ..page }
}

/// How many newlines are missing for a blank line at the end.
pub open spec fn missing_newlines(output: Seq<char>) -> nat {
    let n = output.len();
    if n >= 2 && output[n - 1] == '\n' && output[n - 2] == '\n' {
        0
    } else if n >= 1 && output[n - 1] == '\n' {
        1
    } else {
        2
    }
}

/// The page with a blank line at its end, unless nothing has been shown.
pub open spec fn with_blank_line(page: PageView) -> PageView {
    if page.output.len() == 0 {
        page
    } else {
        with_newlines(page, missing_newlines(page.output))
    }
}

/// What an item of a list begins with.
pub open spec fn item_start(depth: nat) -> Seq<char> {
    repeated(
        ' ',
        if depth == 0 {
            0
        } else {
            (2 * (depth - 1)) as nat
        },
    ) + "- "@
}

/// The page with a text behind it. At the start of a line of an item the item's sign comes first.
pub open spec fn with_text(page: PageView, text: Seq<char>) -> PageView {
    if text.len() == 0 {
        page
    } else if page.at_line_start && page.in_item {
        PageView {
            output: page.output + item_start(page.depth) + text,
            at_line_start: false,
            ..page
        }
    } else {
        PageView { output: page.output + text, at_line_start: false, ..page }
    }
}

/// The first place from `i` on that holds a newline, or the end.
pub open spec fn line_end(text: Seq<char>, i: int) -> int
    decreases text.len() - i,
{
    if 0 <= i < text.len() && text[i] != '\n' {
        line_end(text, i + 1)
    } else {
        i
    }
}

/// A line without the carriage return at its end.
pub open spec fn without_return(line: Seq<char>) -> Seq<char> {
    if line.len() > 0 && line.last() == '\r' {
        line.drop_last()
    } else {
        line
    }
}

/// The lines of a text from place `i` on: a newline, or a carriage return and a newline, ends a
/// line, and what is left is a line where it is not empty.
pub open spec fn text_lines(text: Seq<char>, i: int) -> Seq<Seq<char>>
    decreases text.len() - i,
    when 0 <= i
{
    let end = line_end(text, i);
    if i >= text.len() {
        Seq::empty()
    } else if end >= text.len() {
        seq![text.skip(i)]
    } else {
        proof {
            lemma_line_end(text, i);
        }
        seq![without_return(text.subrange(i, end))] + text_lines(text, end + 1)
    }
}

/// A line ends where it begins or later.
pub proof fn lemma_line_end(text: Seq<char>, i: int)
    requires
        0 <= i,
    ensures
        i <= line_end(text, i),
        i <= text.len() ==> line_end(text, i) <= text.len(),
    decreases text.len() - i,
{
    if i < text.len() && text[i] != '\n' {
        lemma_line_end(text, i + 1);
    }
}

/// The lines of code, each of them indented.
pub open spec fn indented(lines: Seq<Seq<char>>) -> Seq<Seq<char>> {
    Seq::new(lines.len(), |i: int| "    "@ + lines[i])
}

/// A text of a code block as it is shown.
pub open spec fn shown_code(text: Seq<char>) -> Seq<char> {
    joined(indented(text_lines(text, 0)), "\n"@)
}

/// A heading as it is shown: the first level in upper case, the second and third underlined.
pub open spec fn shown_heading(text: Seq<char>, level: u8) -> Seq<char> {
    if level == 1 {
        uppercase(text)
    } else if level == 2 {
        text + "\n"@ + repeated('=', encode_utf8(text).len())
    } else if level == 3 {
        text + "\n"@ + repeated('-', encode_utf8(text).len())
    } else {
        text
    }
}

/// A text as it is shown.
pub open spec fn shown_text(page: PageView, text: Seq<char>) -> Seq<char> {
    if page.in_code {
        shown_code(text)
    } else {
        match page.heading {
            Some(level) => shown_heading(text, level),
            None => text,
        }
    }
}

/// What a rule is shown as.
pub const RULE: &'static str = "----------------------------------------";

/// The page after an event.
pub open spec fn after_markdown(page: PageView, event: MarkdownView) -> PageView {
    match event {
        MarkdownView::StartHeading(level) => PageView {
            heading: Some(level),
            ..with_blank_line(page)
        },
        MarkdownView::EndHeading => PageView { heading: None, ..with_newlines(page, 2) },
        MarkdownView::StartParagraph => if page.needs_blank {
            PageView { needs_blank: false, ..with_blank_line(page) }
        } else {
            page
        },
        MarkdownView::EndParagraph => with_newlines(page, 2),
        MarkdownView::StartList => PageView { depth: page.depth + 1, ..with_blank_line(page) },
        MarkdownView::EndList => PageView {
            depth: if page.depth == 0 {
                0
            } else {
                (page.depth - 1) as nat
            },
            ..with_newlines(page, 1)
        },
        MarkdownView::StartItem => PageView { in_item: true, ..page },
        MarkdownView::EndItem => PageView { in_item: false, ..with_newlines(page, 1) },
        MarkdownView::StartCodeBlock(info) => {
            let begun = with_blank_line(page);
            PageView {
                in_code: true,
                ..if info is Some && info->0.len() > 0 {
                    with_newlines(with_text(begun, "["@ + info->0 + "]"@), 1)
                } else {
                    begun
                }
            }
        },
        MarkdownView::EndCodeBlock => PageView {
            in_code: false,
            needs_blank: true,
            ..with_newlines(page, 1)
        },
        MarkdownView::StartLink(url) => PageView { link: Some(url), ..page },
        MarkdownView::EndLink => match page.link {
            Some(url) => PageView { link: None, ..with_text(page, " ("@ + url + ")"@) },
            None => page,
        },
        MarkdownView::Text(text) => with_text(page, shown_text(page, text)),
        MarkdownView::Code(text) => with_text(page, "`"@ + text + "`"@),
        MarkdownView::SoftBreak => if page.in_code {
            with_newlines(page, 1)
        } else {
            with_text(page, " "@)
        },
        MarkdownView::HardBreak => if page.at_line_start {
            page
        } else {
            with_newlines(page, 1)
        },
        MarkdownView::Rule => with_newlines(with_text(with_blank_line(page), RULE@), 2),
        MarkdownView::Other => page,
    }
}

/// The page after the events.
pub open spec fn page_after(events: Seq<MarkdownView>) -> PageView
    decreases events.len(),
{
    if events.len() == 0 {
        blank_page()
    } else {
        after_markdown(page_after(events.drop_last()), events.last())
    }
}

/// What the events of a Markdown text are shown as: one newline stands at the end.
pub open spec fn shown(events: Seq<MarkdownView>) -> Seq<char> {
    trimmed_end(page_after(events).output) + "\n"@
}

/// What has been shown of a Markdown text.
#[derive(Debug)]
struct Page {
    output: String,
    heading: Option<u8>,
    in_code: bool,
    link: Option<String>,
    depth: usize,
    in_item: bool,
    needs_blank: bool,
    at_line_start: bool,
}

impl Page {
    spec fn view(&self) -> PageView {
        PageView {
            output: self.output@,
            heading: self.heading,
            in_code: self.in_code,
            link: match self.link {
                Some(url) => Some(url@),
                None => None,
            },
            depth: self.depth as nat,
            in_item: self.in_item,
            needs_blank: self.needs_blank,
            at_line_start: self.at_line_start,
        }
    }

    fn new() -> (page: Self)
        ensures
            page@ == blank_page(),
    {
        let page = Page {
            output: String::new(),
            heading: None,
            in_code: false,
            link: None,
            depth: 0,
            in_item: false,
            needs_blank: false,
            at_line_start: false,
        };
        assert(page@.output =~= Seq::empty());
        page
    }

    fn push_newlines(&mut self, n: usize)
        ensures
            final(self)@ == with_newlines(old(self)@, n as nat),
    {
        self.output.append(repeat('\n', n).as_str());
        self.at_line_start = true;
    }

    fn ensure_blank_line(&mut self)
        ensures
            final(self)@ == with_blank_line(old(self)@),
    {
        let chars = chars_of(self.output.as_str());
        let n: usize = chars.len();
        if n == 0 {
            return;
        }
        if chars[n - 1] != '\n' {
            self.push_newlines(2);
        } else if n >= 2 && chars[n - 2] == '\n' {
            self.push_newlines(0);
        } else {
            self.push_newlines(1);
        }
    }

    fn push_text(&mut self, text: &str)
        ensures
            final(self)@ == with_text(old(self)@, text@),
    {
        if chars_of(text).len() == 0 {
            return;
        }
        if self.at_line_start && self.in_item {
            let mut level: usize = 1;
            let ghost before = self.output@;
            assert(before + repeated(' ', 0) =~= before);
            while level < self.depth
                invariant
                    1 <= level,
                    level <= self.depth || level == 1,
                    self@ == (PageView {
                        output: before + repeated(' ', (2 * (level - 1)) as nat),
                        ..old(self)@
                    }),
                decreases self.depth - level,
            {
                self.output.append("  ");
                proof {
                    reveal_strlit("  ");
                    assert("  "@ =~= repeated(' ', 2));
                    assert(self.output@ =~= before + repeated(' ', (2 * level) as nat));
                }
                level = level + 1;
            }
            self.output.append("- ");
            assert(self.output@ =~= before + item_start(self.depth as nat));
        }
        self.output.append(text);
        self.at_line_start = false;
    }

    fn show(&mut self, event: &MarkdownEvent)
        requires
            old(self)@.depth < usize::MAX,
        ensures
            final(self)@ == after_markdown(old(self)@, event@),
    {
        match event {
            MarkdownEvent::StartHeading(level) => {
                self.ensure_blank_line();
                self.heading = Some(*level);
            },
            MarkdownEvent::EndHeading => {
                self.push_newlines(2);
                self.heading = None;
            },
            MarkdownEvent::StartParagraph => {
                if self.needs_blank {
                    self.ensure_blank_line();
                    self.needs_blank = false;
                }
            },
            MarkdownEvent::EndParagraph => {
                self.push_newlines(2);
            },
            MarkdownEvent::StartList => {
                self.ensure_blank_line();
                self.depth = self.depth + 1;
            },
            MarkdownEvent::EndList => {
                self.depth = self.depth.saturating_sub(1);
                self.push_newlines(1);
            },
            MarkdownEvent::StartItem => {
                self.in_item = true;
            },
            MarkdownEvent::EndItem => {
                self.push_newlines(1);
                self.in_item = false;
            },
            MarkdownEvent::StartCodeBlock(info) => {
                self.ensure_blank_line();
                if let Some(info) = info {
                    if chars_of(info.as_str()).len() > 0 {
                        let label = "[".to_owned().concat(info.as_str()).concat("]");
                        self.push_text(label.as_str());
                        self.push_newlines(1);
                    }
                }
                self.in_code = true;
            },
            MarkdownEvent::EndCodeBlock => {
                self.push_newlines(1);
                self.in_code = false;
                self.needs_blank = true;
            },
            MarkdownEvent::StartLink(url) => {
                self.link = Some(url.clone());
            },
            MarkdownEvent::EndLink => {
                if let Some(url) = self.link.take() {
                    let destination = " (".to_owned().concat(url.as_str()).concat(")");
                    self.push_text(destination.as_str());
                }
            },
            MarkdownEvent::Text(text) => {
                let shown = if self.in_code {
                    format_code(text.as_str())
                } else {
                    match self.heading {
                        Some(level) => format_heading(text.as_str(), level),
                        None => text.clone(),
                    }
                };
                self.push_text(shown.as_str());
            },
            MarkdownEvent::Code(text) => {
                let code = "`".to_owned().concat(text.as_str()).concat("`");
                self.push_text(code.as_str());
            },
            MarkdownEvent::SoftBreak => {
                if self.in_code {
                    self.push_newlines(1);
                } else {
                    self.push_text(" ");
                }
            },
            MarkdownEvent::HardBreak => {
                if !self.at_line_start {
                    self.push_newlines(1);
                }
            },
            MarkdownEvent::Rule => {
                self.ensure_blank_line();
                self.push_text(RULE);
                self.push_newlines(2);
            },
            MarkdownEvent::Other => {},
        }
    }
}

/// The lines of a text.
fn lines_of_text(text: &str) -> (lines: Vec<String>)
    ensures
        texts(lines@) == text_lines(text@, 0),
{
    let chars = chars_of(text);
    let mut lines: Vec<String> = Vec::new();
    let mut i: usize = 0;
    assert(texts(lines@) + text_lines(text@, 0) =~= text_lines(text@, 0));
    while i < chars.len()
        invariant
            i <= chars@.len(),
            chars@ == text@,
            texts(lines@) + text_lines(text@, i as int) == text_lines(text@, 0),
        decreases chars@.len() - i,
    {
        let mut end: usize = i;
        while end < chars.len() && chars[end] != '\n'
            invariant
                i <= end <= chars@.len(),
                chars@ == text@,
                line_end(text@, i as int) == line_end(text@, end as int),
            decreases chars@.len() - end,
        {
            end = end + 1;
        }
        let ghost before = texts(lines@);
        if end >= chars.len() {
            let line = string_of(&chars, i, end);
            lines.push(line);
            proof {
                assert(line@ =~= text@.skip(i as int));
                assert(texts(lines@) =~= before + text_lines(text@, i as int));
            }
            return lines;
        }
        let stop: usize = if end > i && chars[end - 1] == '\r' {
            end - 1
        } else {
            end
        };
        let line = string_of(&chars, i, stop);
        lines.push(line);
        proof {
            assert(line@ =~= without_return(text@.subrange(i as int, end as int)));
            assert(texts(lines@) =~= before.push(line@));
            assert(before.push(line@) + text_lines(text@, end + 1) =~= before + (seq![line@]
                + text_lines(text@, end + 1)));
        }
        i = end + 1;
    }
    assert(texts(lines@) + Seq::<Seq<char>>::empty() =~= texts(lines@));
    lines
}

/// A text of a code block as it is shown.
fn format_code(text: &str) -> (shown: String)
    ensures
        shown@ == shown_code(text@),
{
    let lines = lines_of_text(text);
    let mut shown: Vec<String> = Vec::new();
    let mut i: usize = 0;
    while i < lines.len()
        invariant
            i <= lines@.len(),
            shown@.len() == i,
            forall|k: int| 0 <= k < i ==> (#[trigger] shown@[k])@ == "    "@ + lines@[k]@,
        decreases lines@.len() - i,
    {
        shown.push("    ".to_owned().concat(lines[i].as_str()));
        i = i + 1;
    }
    assert(texts(lines@).len() == lines@.len());
    assert(texts(shown@) =~= indented(texts(lines@)));
    join_texts(&shown, "\n")
}

/// A heading as it is shown.
fn format_heading(text: &str, level: u8) -> (shown: String)
    ensures
        shown@ == shown_heading(text@, level),
{
    match level {
        1 => upper_case(text),
        2 => text.to_owned().concat("\n").concat(repeat('=', text.as_bytes().len()).as_str()),
        3 => text.to_owned().concat("\n").concat(repeat('-', text.as_bytes().len()).as_str()),
        _ => text.to_owned(),
    }
}

/// What the events of a Markdown text are shown as.
pub fn render_events(events: &Vec<MarkdownEvent>) -> (text: String)
    ensures
        text@ == shown(events_of(events@)),
{
    let mut page = Page::new();
    let ghost all = events_of(events@);
    let mut i: usize = 0;
    assert(all.take(0) =~= Seq::empty());
    while i < events.len()
        invariant
            i <= events@.len(),
            all == events_of(events@),
            page@ == page_after(all.take(i as int)),
            page@.depth <= i,
        decreases events@.len() - i,
    {
        proof {
            let part = all.take(i + 1);
            assert(part.drop_last() =~= all.take(i as int));
            assert(part.last() == events@[i as int]@);
        }
        page.show(&events[i]);
        i = i + 1;
    }
    assert(all.take(i as int) =~= all);
    trim_end(page.output.as_str()).concat("\n")
}

/// What a Markdown text is shown as.
pub fn render_markdown_for_terminal(markdown: &str) -> (text: String)
    ensures
        text@ == shown(markdown_events(markdown@)),
{
    render_events(&read_markdown(markdown))
}

proof fn lemma_trimmed_end(text: Seq<char>)
    ensures
        trimmed_end(text).len() > 0 ==> !crate::text::is_white_space(trimmed_end(text).last()),
    decreases text.len(),
{
    if text.len() > 0 && crate::text::is_white_space(text.last()) {
        lemma_trimmed_end(text.drop_last());
    }
}

/// Whatever is shown ends with one newline, and no white space stands before it.
pub proof fn law_pages_end_with_one_newline(events: Seq<MarkdownView>)
    ensures
        shown(events).last() == '\n',
        shown(events).len() > 1 ==> !crate::text::is_white_space(
            shown(events)[shown(events).len() - 2],
        ),
{
    reveal_strlit("\n");
    lemma_trimmed_end(page_after(events).output);
}

/// Where nothing has been read nothing has been shown, and what is shown grows event by event.
pub proof fn law_pages_grow_by_their_events(events: Seq<MarkdownView>, event: MarkdownView)
    ensures
        page_after(Seq::empty()).output == Seq::<char>::empty(),
        page_after(Seq::empty()).heading is None,
        !page_after(Seq::empty()).in_code && !page_after(Seq::empty()).in_item,
        page_after(Seq::empty()).link is None && page_after(Seq::empty()).depth == 0,
        page_after(events.push(event)) == after_markdown(page_after(events), event),
        page_after(events).output.is_prefix_of(page_after(events.push(event)).output),
{
    assert(events.push(event).drop_last() =~= events);
    let page = page_after(events);
    lemma_only_more(page, event);
}

proof fn lemma_only_more(page: PageView, event: MarkdownView)
    ensures
        page.output.is_prefix_of(after_markdown(page, event).output),
{
    let begun = with_blank_line(page);
    assert(page.output.is_prefix_of(begun.output));
    match event {
        MarkdownView::StartCodeBlock(info) => {
            if info is Some && info->0.len() > 0 {
                let told = with_text(begun, "["@ + info->0 + "]"@);
                assert(begun.output.is_prefix_of(told.output));
                assert(told.output.is_prefix_of(with_newlines(told, 1).output));
            }
        },
        MarkdownView::Rule => {
            let ruled = with_text(begun, RULE@);
            assert(begun.output.is_prefix_of(ruled.output));
            assert(ruled.output.is_prefix_of(with_newlines(ruled, 2).output));
        },
        _ => {},
    }
}

/// Behind what has been shown a blank line begins a new part: what is shown then ends with two
/// newlines, and no more of them are put there than are missing.
pub proof fn law_blank_lines_part_what_is_shown(page: PageView)
    requires
        page.output.len() > 0,
    ensures
        ({
            let output = with_blank_line(page).output;
            &&& output.len() >= 2 && output.last() == '\n' && output[output.len() - 2] == '\n'
            &&& page.output.last() != '\n' ==> output == page.output + seq!['\n', '\n']
            &&& page.output.last() == '\n' && (page.output.len() == 1 || page.output[page.output.len()
                - 2] != '\n') ==> output == page.output + seq!['\n']
            &&& page.output.last() == '\n' && page.output.len() > 1 && page.output[page.output.len()
                - 2] == '\n' ==> output == page.output
        }),
        with_blank_line(blank_page()).output == Seq::<char>::empty(),
{
    assert(page.output + repeated('\n', 2) =~= page.output + seq!['\n', '\n']);
    assert(page.output + repeated('\n', 1) =~= page.output + seq!['\n']);
    assert(page.output + repeated('\n', 0) =~= page.output);
}

/// A heading stands behind a blank line: one of the first level in upper case, one of the second
/// and third level above a line of its length, any other as it is. Two newlines follow it.
pub proof fn law_headings_are_set_off(page: PageView, level: u8, text: Seq<char>)
    requires
        text.len() > 0,
        !page.in_code,
        !page.in_item,
    ensures
        ({
            let begun = after_markdown(page, MarkdownView::StartHeading(level));
            let told = after_markdown(begun, MarkdownView::Text(text));
            let ended = after_markdown(told, MarkdownView::EndHeading);
            let width = encode_utf8(text).len();
            &&& begun.output == with_blank_line(page).output
            &&& level == 1 ==> told.output == begun.output + uppercase(text)
            &&& level == 2 ==> told.output == begun.output + text + seq!['\n'] + Seq::new(
                width,
                |i: int| '=',
            )
            &&& level == 3 ==> told.output == begun.output + text + seq!['\n'] + Seq::new(
                width,
                |i: int| '-',
            )
            &&& level == 0 || level > 3 ==> told.output == begun.output + text
            &&& ended.output == told.output + seq!['\n', '\n']
            &&& ended.heading is None && ended.at_line_start
            &&& level != 1 ==> !told.at_line_start
        }),
{
    reveal_strlit("\n");
    let begun = after_markdown(page, MarkdownView::StartHeading(level));
    let told = after_markdown(begun, MarkdownView::Text(text));
    let width = encode_utf8(text).len();
    assert(told.output + repeated('\n', 2) =~= told.output + seq!['\n', '\n']);
    assert(repeated('=', width) =~= Seq::new(width, |i: int| '='));
    assert(repeated('-', width) =~= Seq::new(width, |i: int| '-'));
    assert("\n"@ =~= seq!['\n']);
    if level == 1 {
        assert(told.output =~= begun.output + uppercase(text));
    }
    if level == 2 {
        assert(told.output =~= begun.output + text + seq!['\n'] + Seq::new(width, |i: int| '='));
    }
    if level == 3 {
        assert(told.output =~= begun.output + text + seq!['\n'] + Seq::new(width, |i: int| '-'));
    }
}

/// In running text words stand as they are, code stands between grave accents, a line break of the
/// source reads as a space, and the address of a link follows its text in round brackets.
pub proof fn law_running_text_stands_as_it_is(page: PageView, text: Seq<char>, url: Seq<char>)
    requires
        text.len() > 0,
        !page.in_code,
        page.heading is None,
        !(page.in_item && page.at_line_start),
    ensures
        after_markdown(page, MarkdownView::Text(text)).output == page.output + text,
        after_markdown(page, MarkdownView::Code(text)).output == page.output + seq!['`'] + text + seq![
            '`',
        ],
        after_markdown(page, MarkdownView::SoftBreak).output == page.output + seq![' '],
        page.at_line_start ==> after_markdown(page, MarkdownView::HardBreak).output == page.output,
        !page.at_line_start ==> after_markdown(page, MarkdownView::HardBreak).output == page.output
            + seq!['\n'],
        after_markdown(page, MarkdownView::EndParagraph).output == page.output + seq!['\n', '\n'],
        after_markdown(page, MarkdownView::Other) == page,
        ({
            let linked = after_markdown(page, MarkdownView::StartLink(url));
            let told = after_markdown(linked, MarkdownView::Text(text));
            let ended = after_markdown(told, MarkdownView::EndLink);
            &&& linked.output == page.output
            &&& ended.output == page.output + text + seq![' ', '('] + url + seq![')']
            &&& ended.link is None
        }),
{
    reveal_strlit("`");
    reveal_strlit(" ");
    reveal_strlit(" (");
    reveal_strlit(")");
    assert(after_markdown(page, MarkdownView::Code(text)).output =~= page.output + seq!['`'] + text
        + seq!['`']);
    assert(after_markdown(page, MarkdownView::SoftBreak).output =~= page.output + seq![' ']);
    assert(page.output + repeated('\n', 1) =~= page.output + seq!['\n']);
    assert(page.output + repeated('\n', 2) =~= page.output + seq!['\n', '\n']);
    let linked = after_markdown(page, MarkdownView::StartLink(url));
    let told = after_markdown(linked, MarkdownView::Text(text));
    let ended = after_markdown(told, MarkdownView::EndLink);
    assert(ended.output =~= page.output + text + seq![' ', '('] + url + seq![')']);
}

/// An item of a list stands on a line of its own behind a hyphen, two places further to the right
/// for each list that the list stands in.
pub proof fn law_items_stand_behind_a_hyphen(page: PageView, text: Seq<char>)
    requires
        text.len() > 0,
        !page.in_code,
        page.heading is None,
        page.at_line_start,
        page.depth > 0,
    ensures
        ({
            let begun = after_markdown(page, MarkdownView::StartItem);
            let told = after_markdown(begun, MarkdownView::Text(text));
            let ended = after_markdown(told, MarkdownView::EndItem);
            &&& told.output == page.output + Seq::new(
                (2 * (page.depth - 1)) as nat,
                |i: int| ' ',
            ) + seq!['-', ' '] + text
            &&& ended.output == told.output + seq!['\n']
            &&& !ended.in_item && ended.at_line_start && !told.at_line_start
        }),
        after_markdown(page, MarkdownView::EndList).at_line_start,
        after_markdown(page, MarkdownView::StartList).depth == page.depth + 1,
        after_markdown(page, MarkdownView::EndList).depth == page.depth - 1,
        after_markdown(page, MarkdownView::StartList).output == with_blank_line(page).output,
        after_markdown(page, MarkdownView::EndList).output == page.output + seq!['\n'],
{
    reveal_strlit("- ");
    let begun = after_markdown(page, MarkdownView::StartItem);
    let told = after_markdown(begun, MarkdownView::Text(text));
    assert(told.output + repeated('\n', 1) =~= told.output + seq!['\n']);
    assert(page.output + repeated('\n', 1) =~= page.output + seq!['\n']);
    assert(told.output =~= page.output + Seq::new((2 * (page.depth - 1)) as nat, |i: int| ' ') + seq![
        '-',
        ' ',
    ] + text);
}

/// A block of code stands behind a blank line and, where its language is told, behind the language
/// in square brackets on a line of its own. Its lines are indented, and a paragraph behind it is
/// set off from it.
pub proof fn law_code_blocks_are_set_off(page: PageView, info: Seq<char>, text: Seq<char>)
    requires
        !page.in_item,
        shown_code(text).len() > 0,
    ensures
        ({
            let plain = after_markdown(page, MarkdownView::StartCodeBlock(None));
            let told = after_markdown(page, MarkdownView::StartCodeBlock(Some(info)));
            let code = after_markdown(plain, MarkdownView::Text(text));
            let ended = after_markdown(code, MarkdownView::EndCodeBlock);
            &&& plain.output == with_blank_line(page).output && plain.in_code
            &&& info.len() == 0 ==> told == plain
            &&& info.len() > 0 ==> told.output == plain.output + seq!['['] + info + seq![']', '\n']
                && told.in_code
            &&& code.output == plain.output + shown_code(text)
            &&& ended.output == code.output + seq!['\n'] && !ended.in_code
            &&& after_markdown(ended, MarkdownView::StartParagraph).output == with_blank_line(
                ended,
            ).output
        }),
        !page.needs_blank ==> after_markdown(page, MarkdownView::StartParagraph) == page,
        after_markdown(page, MarkdownView::Rule).output == with_blank_line(page).output + Seq::new(
            40,
            |i: int| '-',
        ) + seq!['\n', '\n'],
{
    reveal_strlit("[");
    reveal_strlit("]");
    reveal_strlit("----------------------------------------");
    assert(RULE@ =~= Seq::new(40, |i: int| '-'));
    let plain = after_markdown(page, MarkdownView::StartCodeBlock(None));
    let told = after_markdown(page, MarkdownView::StartCodeBlock(Some(info)));
    let code = after_markdown(plain, MarkdownView::Text(text));
    if info.len() > 0 {
        assert(told.output =~= plain.output + seq!['['] + info + seq![']', '\n']);
    }
    assert(code.output + repeated('\n', 1) =~= code.output + seq!['\n']);
    let begun = with_blank_line(page);
    assert(after_markdown(page, MarkdownView::Rule).output =~= begun.output + Seq::new(
        40,
        |i: int| '-',
    ) + seq!['\n', '\n']);
}

proof fn lemma_line_end_shift(head: Seq<char>, rest: Seq<char>, i: int)
    requires
        0 <= i,
    ensures
        line_end(head + rest, head.len() + i) == head.len() + line_end(rest, i),
    decreases rest.len() - i,
{
    if i < rest.len() && rest[i] != '\n' {
        lemma_line_end_shift(head, rest, i + 1);
    }
}

proof fn lemma_lines_shift(head: Seq<char>, rest: Seq<char>, i: int)
    requires
        0 <= i,
    ensures
        text_lines(head + rest, head.len() + i) == text_lines(rest, i),
    decreases rest.len() - i,
{
    let all = head + rest;
    let n = head.len() as int;
    lemma_line_end_shift(head, rest, i);
    lemma_line_end(rest, i);
    let end = line_end(rest, i);
    if i < rest.len() {
        if end < rest.len() {
            assert(all.subrange(n + i, n + end) =~= rest.subrange(i, end));
            lemma_lines_shift(head, rest, end + 1);
        } else {
            assert(all.skip(n + i) =~= rest.skip(i));
        }
    }
}

proof fn lemma_line_is_whole(line: Seq<char>, rest: Seq<char>, i: int)
    requires
        0 <= i <= line.len(),
        forall|k: int| 0 <= k < line.len() ==> #[trigger] line[k] != '\n',
        rest.len() == 0 || rest[0] == '\n',
    ensures
        line_end(line + rest, i) == line.len(),
    decreases line.len() - i,
{
    if i < line.len() {
        assert((line + rest)[i] == line[i]);
        lemma_line_is_whole(line, rest, i + 1);
    } else if rest.len() > 0 {
        assert((line + rest)[i] == rest[0]);
    }
}

/// Code is cut into lines at newlines: each line stands by itself, without the carriage return
/// that may stand before the newline, and what is left at the end is a line unless it is empty.
pub proof fn law_code_is_cut_at_newlines(line: Seq<char>, rest: Seq<char>)
    requires
        forall|k: int| 0 <= k < line.len() ==> #[trigger] line[k] != '\n',
        line.len() > 0 ==> line.last() != '\r',
    ensures
        text_lines(line + seq!['\n'] + rest, 0) == seq![line] + text_lines(rest, 0),
        text_lines(line + seq!['\r', '\n'] + rest, 0) == seq![line] + text_lines(rest, 0),
        line.len() > 0 ==> text_lines(line, 0) == seq![line],
        text_lines(Seq::empty(), 0) == Seq::<Seq<char>>::empty(),
        line.len() > 0 ==> shown_code(line) == seq![' ', ' ', ' ', ' '] + line,
{
    let short = line + seq!['\n'] + rest;
    assert(short =~= line + (seq!['\n'] + rest));
    lemma_line_is_whole(line, seq!['\n'] + rest, 0);
    assert(short.subrange(0, line.len() as int) =~= line);
    lemma_lines_shift(line + seq!['\n'], rest, 0);
    assert(without_return(line) == line);

    let returned = line + seq!['\r'];
    let long = line + seq!['\r', '\n'] + rest;
    assert(long =~= returned + (seq!['\n'] + rest));
    lemma_line_is_whole(returned, seq!['\n'] + rest, 0);
    assert(long.subrange(0, returned.len() as int) =~= returned);
    assert(without_return(returned) =~= line);
    lemma_lines_shift(line + seq!['\r', '\n'], rest, 0);

    if line.len() > 0 {
        lemma_line_is_whole(line, Seq::empty(), 0);
        assert(line + Seq::<char>::empty() =~= line);
        assert(line.skip(0) =~= line);
        reveal_strlit("    ");
        assert("    "@ + line =~= seq![' ', ' ', ' ', ' '] + line);
        let lines = indented(text_lines(line, 0));
        assert(lines =~= seq!["    "@ + line]);
        assert(joined(lines.drop_last(), "\n"@) =~= Seq::<char>::empty());
    }
}

proof fn lemma_joined_in_front(first: Seq<char>, parts: Seq<Seq<char>>, separator: Seq<char>)
    requires
        parts.len() > 0,
    ensures
        joined(seq![first] + parts, separator) == first + separator + joined(parts, separator),
    decreases parts.len(),
{
    let all = seq![first] + parts;
    if parts.len() == 1 {
        assert(all.drop_last() =~= seq![first]);
        assert(joined(all.drop_last(), separator) == first);
        assert(joined(parts, separator) == parts[0]);
    } else {
        lemma_joined_in_front(first, parts.drop_last(), separator);
        assert(all.drop_last() =~= seq![first] + parts.drop_last());
        assert(joined(all, separator) =~= first + separator + joined(parts, separator));
    }
}

/// Each line of code is indented by four spaces, and a newline stands between each two of them.
pub proof fn law_code_is_shown_line_by_line(line: Seq<char>, rest: Seq<char>)
    requires
        rest.len() > 0,
        forall|k: int| 0 <= k < line.len() ==> #[trigger] line[k] != '\n',
        line.len() > 0 ==> line.last() != '\r',
    ensures
        shown_code(line + seq!['\n'] + rest) == seq![' ', ' ', ' ', ' '] + line + seq!['\n'] + shown_code(
            rest,
        ),
{
    law_code_is_cut_at_newlines(line, rest);
    reveal_strlit("    ");
    reveal_strlit("\n");
    assert("    "@ =~= seq![' ', ' ', ' ', ' ']);
    assert("\n"@ =~= seq!['\n']);
    let lines = text_lines(rest, 0);
    assert(indented(seq![line] + lines) =~= seq!["    "@ + line] + indented(lines));
    lemma_joined_in_front("    "@ + line, indented(lines), "\n"@);
}

} // verus!
