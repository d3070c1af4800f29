//! Rendering the output of a process for the terminal, byte by byte.

use crate::config::OutputBodyStyle;
use crate::output::{
    dim_on, dim_start, format_output_prefix_with_style, hash_color, label_color, output_prefix,
    style_off, style_reset, text_hash,
};
use vstd::prelude::*;
use vstd::utf8::{decode_utf8, encode_scalar, encode_utf8, valid_utf8};

verus! {

/// Where in an escape sequence the output is.
#[derive(Debug, Clone, Copy, PartialEq, Eq, Structural)]
pub enum AnsiEscapeState {
    Ground,
    AfterEsc,
    InCsi,
}

/// What is kept of the output between two bytes.
#[derive(Debug)]
pub struct OutputRenderState {
    pub at_line_start: bool,
    pub last_was_carriage_return: bool,
    pub ansi_escape_state: AnsiEscapeState,
    pub utf8_buffer: Vec<u8>,
    pub body_style: OutputBodyStyle,
    pub colorize: bool,
    pub dim_active: bool,
    pub rendered_line: String,
}

/// What is kept of the output between two bytes.
pub struct RenderModel {
    pub at_line_start: bool,
    pub after_return: bool,
    pub escape: AnsiEscapeState,
    pub pending: Seq<u8>,
    pub style: OutputBodyStyle,
    pub colorize: bool,
    pub dim_active: bool,
    pub line: Seq<char>,
}

/// Nothing has been seen of the output.
pub open spec fn fresh_model() -> RenderModel {
    RenderModel {
        at_line_start: true,
        after_return: false,
        escape: AnsiEscapeState::Ground,
        pending: Seq::empty(),
        style: OutputBodyStyle::Plain,
        colorize: false,
        dim_active: false,
        line: Seq::empty(),
    }
}

/// Bytes that are not the encoding of a text, but begin one.
pub open spec fn is_incomplete_utf8(bytes: Seq<u8>) -> bool {
    !valid_utf8(bytes) && exists|more: Seq<u8>| #[trigger] valid_utf8(bytes + more)
}

/// What `String::from_utf8_lossy` makes of bytes.
pub uninterp spec fn utf8_lossy(bytes: Seq<u8>) -> Seq<char>;

/// How bytes read as UTF-8.
#[derive(Debug)]
pub enum Utf8Text {
    Complete(String),
    Incomplete,
    Invalid,
}

/// `std::str::from_utf8`: the text that the bytes encode; where they do not, whether the end of
/// the input was reached unexpectedly, so that more bytes can still complete the text.
#[verifier::external_body]
pub(crate) fn read_utf8(bytes: &[u8]) -> (text: Utf8Text)
    ensures
        match text {
            Utf8Text::Complete(text) => valid_utf8(bytes@) && text@ == decode_utf8(bytes@),
            Utf8Text::Incomplete => is_incomplete_utf8(bytes@),
            Utf8Text::Invalid => !valid_utf8(bytes@) && !is_incomplete_utf8(bytes@),
        },
{
    match std::str::from_utf8(bytes) {
        Ok(text) => Utf8Text::Complete(text.to_owned()),
        Err(error) if error.error_len().is_none() => Utf8Text::Incomplete,
        Err(_) => Utf8Text::Invalid,
    }
}

/// `String::from_utf8_lossy`: the text of the bytes, with a replacement character for what is not
/// UTF-8. Bytes that encode a text give that text.
#[verifier::external_body]
pub(crate) fn read_utf8_lossy(bytes: &[u8]) -> (text: String)
    ensures
        text@ == utf8_lossy(bytes@),
        valid_utf8(bytes@) ==> text@ == decode_utf8(bytes@),
{
    String::from_utf8_lossy(bytes).into_owned()
}

/// The text of what is pending.
pub open spec fn pending_text(pending: Seq<u8>) -> Seq<char> {
    if pending.len() == 0 {
        Seq::empty()
    } else {
        utf8_lossy(pending)
    }
}

/// Whether a byte is an ASCII control character.
pub open spec fn is_control(byte: u8) -> bool {
    byte < 0x20 || byte == 0x7f
}

/// What a byte of output shows, and what is kept afterwards.
///
/// Escape sequences pass through; where the body is dim, dimming is turned on again after each
/// sequence that sets styles. The bytes of a character are held back until it is complete.
pub open spec fn byte_rendered(m: RenderModel, byte: u8, colorize: bool, style: OutputBodyStyle) -> (
    RenderModel,
    Seq<char>,
) {
    if byte == 0x1b {
        (
            RenderModel { escape: AnsiEscapeState::AfterEsc, pending: Seq::empty(), ..m },
            pending_text(m.pending).push(byte as char),
        )
    } else if m.escape == AnsiEscapeState::AfterEsc {
        (
            RenderModel {
                escape: if byte == 0x5b {
                    AnsiEscapeState::InCsi
                } else {
                    AnsiEscapeState::Ground
                },
                ..m
            },
            seq![byte as char],
        )
    } else if m.escape == AnsiEscapeState::InCsi {
        (
            RenderModel {
                escape: if 0x40 <= byte <= 0x7e {
                    AnsiEscapeState::Ground
                } else {
                    AnsiEscapeState::InCsi
                },
                ..m
            },
            if byte == 0x6d && style == OutputBodyStyle::Dim {
                seq![byte as char] + dim_on(colorize)
            } else {
                seq![byte as char]
            },
        )
    } else if is_control(byte) {
        (
            RenderModel { pending: Seq::empty(), ..m },
            pending_text(m.pending).push(byte as char),
        )
    } else {
        let bytes = m.pending.push(byte);
        if valid_utf8(bytes) {
            (RenderModel { pending: Seq::empty(), ..m }, decode_utf8(bytes))
        } else if is_incomplete_utf8(bytes) {
            (RenderModel { pending: bytes, ..m }, Seq::empty())
        } else {
            (RenderModel { pending: Seq::empty(), ..m }, utf8_lossy(bytes))
        }
    }
}

/// The record that ends a line, and what is kept afterwards.
pub open spec fn flushed(m: RenderModel, newline: bool) -> (RenderModel, Option<Seq<u8>>) {
    let line = m.line + pending_text(m.pending);
    if line.len() == 0 && !newline {
        (RenderModel { pending: Seq::empty(), line, ..m }, None)
    } else {
        let shown = if line.len() > 0 && m.dim_active {
            line + style_off(m.colorize)
        } else {
            line
        };
        (
            RenderModel {
                pending: Seq::empty(),
                line: Seq::empty(),
                dim_active: m.dim_active && line.len() == 0,
                at_line_start: true,
                ..m
            },
            Some(
                encode_utf8(shown) + if newline {
                    seq![0x0au8]
                } else {
                    Seq::empty()
                },
            ),
        )
    }
}

/// What a line begins with.
pub open spec fn line_start(label: Seq<char>, colorize: bool, style: OutputBodyStyle) -> Seq<char> {
    output_prefix(label, label_color(label, colorize), style) + if style == OutputBodyStyle::Dim {
        dim_on(colorize)
    } else {
        Seq::empty()
    }
}

/// The record that a byte of output completes, if any, and what is kept afterwards.
///
/// A carriage return ends a line as a newline does; a newline right behind it adds nothing. Any
/// other byte is added to the line, which begins with its prefix.
pub open spec fn byte_prepared(
    m: RenderModel,
    label: Seq<char>,
    byte: u8,
    colorize: bool,
    style: OutputBodyStyle,
) -> (RenderModel, Option<Seq<u8>>) {
    if byte == 0x0d {
        let (after, record) = flushed(RenderModel { style, colorize, ..m }, true);
        (RenderModel { after_return: true, ..after }, record)
    } else if byte == 0x0a {
        if m.after_return {
            (RenderModel { style, colorize, after_return: false, ..m }, None)
        } else {
            flushed(RenderModel { style, colorize, ..m }, true)
        }
    } else {
        let begun = if m.at_line_start {
            RenderModel {
                after_return: false,
                at_line_start: false,
                line: m.line + line_start(label, colorize, style),
                dim_active: if style == OutputBodyStyle::Dim {
                    colorize
                } else {
                    m.dim_active
                },
                ..m
            }
        } else {
            RenderModel { after_return: false, ..m }
        };
        let (after, text) = byte_rendered(begun, byte, colorize, style);
        (RenderModel { line: after.line + text, ..after }, None)
    }
}

/// The records that bytes of output complete, and what is kept afterwards.
pub open spec fn bytes_prepared(
    m: RenderModel,
    label: Seq<char>,
    bytes: Seq<u8>,
    colorize: bool,
    style: OutputBodyStyle,
) -> (RenderModel, Seq<Seq<u8>>)
    decreases bytes.len(),
{
    if bytes.len() == 0 {
        (m, Seq::empty())
    } else {
        let (before, records) = bytes_prepared(m, label, bytes.drop_last(), colorize, style);
        let (after, record) = byte_prepared(before, label, bytes.last(), colorize, style);
        (after, with_record(records, record))
    }
}

/// The records with one more, if there is one.
pub open spec fn with_record(records: Seq<Seq<u8>>, record: Option<Seq<u8>>) -> Seq<Seq<u8>> {
    match record {
        Some(record) => records.push(record),
        None => records,
    }
}

/// The records of output that is complete.
pub open spec fn captured(
    label: Seq<char>,
    bytes: Seq<u8>,
    colorize: bool,
    style: OutputBodyStyle,
) -> Seq<Seq<u8>> {
    let (last, records) = bytes_prepared(fresh_model(), label, bytes, colorize, style);
    with_record(records, flushed(last, false).1)
}

/// The contents of a list of records.
pub open spec fn records_of(records: Seq<Vec<u8>>) -> Seq<Seq<u8>> {
    Seq::new(records.len(), |i: int| records[i]@)
}

/// Adds bytes behind others.
fn extend(target: &mut Vec<u8>, bytes: &[u8])
    ensures
        final(target)@ == old(target)@ + bytes@,
{
    let ghost before = target@;
    let mut i: usize = 0;
    assert(before + bytes@.take(0) =~= before);
    while i < bytes.len()
        invariant
            i <= bytes@.len(),
            target@ == before + bytes@.take(i as int),
        decreases bytes@.len() - i,
    {
        target.push(bytes[i]);
        assert(before + bytes@.take(i + 1) =~= (before + bytes@.take(i as int)).push(
            bytes@[i as int],
        ));
        i = i + 1;
    }
    assert(bytes@.take(i as int) =~= bytes@);
}

impl OutputRenderState {
    /// What is kept of the output.
    pub open spec fn view(&self) -> RenderModel {
        RenderModel {
            at_line_start: self.at_line_start,
            after_return: self.last_was_carriage_return,
            escape: self.ansi_escape_state,
            pending: self.utf8_buffer@,
            style: self.body_style,
            colorize: self.colorize,
            dim_active: self.dim_active,
            line: self.rendered_line@,
        }
    }

    /// Nothing has been seen of the output.
    pub fn new() -> (state: Self)
        ensures
            state@ == fresh_model(),
    {
        let state = OutputRenderState {
            at_line_start: true,
            last_was_carriage_return: false,
            ansi_escape_state: AnsiEscapeState::Ground,
            utf8_buffer: Vec::new(),
            body_style: OutputBodyStyle::Plain,
            colorize: false,
            dim_active: false,
            rendered_line: String::new(),
        };
        assert(state@.line =~= Seq::empty());
        state
    }
}

impl Default for OutputRenderState {
    fn default() -> (state: Self)
        ensures
            state@ == fresh_model(),
    {
        OutputRenderState::new()
    }
}

fn take_utf8_buffer_lossy(state: &mut OutputRenderState) -> (text: String)
    ensures
        text@ == pending_text(old(state)@.pending),
        final(state)@ == (RenderModel { pending: Seq::empty(), ..old(state)@ }),
{
    if state.utf8_buffer.is_empty() {
        assert(state@.pending =~= Seq::empty());
        let text = String::new();
        assert(text@ =~= Seq::empty());
        return text;
    }
    let text = read_utf8_lossy(state.utf8_buffer.as_slice());
    state.utf8_buffer.clear();
    text
}

fn take_complete_utf8(state: &mut OutputRenderState) -> (text: String)
    requires
        old(state)@.pending.len() > 0,
    ensures
        ({
            let bytes = old(state)@.pending;
            let taken = RenderModel { pending: Seq::empty(), ..old(state)@ };
            if valid_utf8(bytes) {
                text@ == decode_utf8(bytes) && final(state)@ == taken
            } else if is_incomplete_utf8(bytes) {
                text@ == Seq::<char>::empty() && final(state)@ == old(state)@
            } else {
                text@ == utf8_lossy(bytes) && final(state)@ == taken
            }
        }),
{
    match read_utf8(state.utf8_buffer.as_slice()) {
        Utf8Text::Complete(text) => {
            state.utf8_buffer.clear();
            text
        },
        Utf8Text::Incomplete => {
            let text = String::new();
            assert(text@ =~= Seq::empty());
            text
        },
        Utf8Text::Invalid => take_utf8_buffer_lossy(state),
    }
}

/// What a byte of output shows.
pub fn render_output_byte(
    byte: u8,
    colorize: bool,
    body_style: OutputBodyStyle,
    render_state: &mut OutputRenderState,
) -> (text: String)
    ensures
        (final(render_state)@, text@) == byte_rendered(old(render_state)@, byte, colorize, body_style),
{
    if byte == 0x1b {
        let mut text = take_utf8_buffer_lossy(render_state);
        render_state.ansi_escape_state = AnsiEscapeState::AfterEsc;
        text.push(byte as char);
        return text;
    }
    match render_state.ansi_escape_state {
        AnsiEscapeState::AfterEsc => {
            if byte == 0x5b {
                render_state.ansi_escape_state = AnsiEscapeState::InCsi;
            } else {
                render_state.ansi_escape_state = AnsiEscapeState::Ground;
            }
            let mut text = String::new();
            text.push(byte as char);
            assert(text@ =~= seq![byte as char]);
            return text;
        },
        AnsiEscapeState::InCsi => {
            if 0x40 <= byte && byte <= 0x7e {
                render_state.ansi_escape_state = AnsiEscapeState::Ground;
            }
            let mut text = String::new();
            text.push(byte as char);
            assert(text@ =~= seq![byte as char]);
            if byte == 0x6d {
                if let OutputBodyStyle::Dim = body_style {
                    text.append(dim_start(colorize));
                }
            }
            return text;
        },
        AnsiEscapeState::Ground => {},
    }
    if byte < 0x20 || byte == 0x7f {
        let mut text = take_utf8_buffer_lossy(render_state);
        text.push(byte as char);
        return text;
    }
    render_state.utf8_buffer.push(byte);
    take_complete_utf8(render_state)
}

/// The record that ends a line.
pub fn prepare_flush_rendered_output(render_state: &mut OutputRenderState, add_newline: bool) -> (record:
    Option<Vec<u8>>)
    ensures
        ({
            let (after, bytes) = flushed(old(render_state)@, add_newline);
            &&& final(render_state)@ == after
            &&& match record {
                Some(record) => bytes == Some(record@),
                None => bytes is None,
            }
        }),
{
    let pending = take_utf8_buffer_lossy(render_state);
    render_state.rendered_line.append(pending.as_str());
    let ghost line = render_state.rendered_line@;
    assert(encode_utf8(line).len() == 0 <==> line.len() == 0) by {
        lemma_encoding_is_empty(line);
    }
    let is_empty = render_state.rendered_line.as_str().is_empty();
    if is_empty && !add_newline {
        return None;
    }
    let mut record: Vec<u8> = Vec::new();
    if !is_empty {
        if render_state.dim_active {
            render_state.rendered_line.append(style_reset(render_state.colorize));
            render_state.dim_active = false;
        }
        extend(&mut record, render_state.rendered_line.as_str().as_bytes());
        render_state.rendered_line = String::new();
    }
    assert(render_state@.line =~= Seq::empty());
    let ghost text = record@;
    if add_newline {
        record.push(0x0a);
    }
    proof {
        if line.len() == 0 {
            assert(line =~= Seq::empty());
            assert(encode_utf8(line) =~= Seq::empty());
        }
        let shown = if line.len() > 0 && old(render_state)@.dim_active {
            line + style_off(old(render_state)@.colorize)
        } else {
            line
        };
        assert(text =~= encode_utf8(shown));
        if add_newline {
            assert(record@ =~= encode_utf8(shown) + seq![0x0au8]);
        } else {
            assert(record@ =~= encode_utf8(shown) + Seq::<u8>::empty());
        }
    }
    render_state.at_line_start = true;
    Some(record)
}

proof fn lemma_encoding_is_empty(text: Seq<char>)
    ensures
        encode_utf8(text).len() == 0 <==> text.len() == 0,
{
}

/// The record that a byte of output completes, if any.
pub fn prepare_output_byte(
    source_label: &str,
    byte: u8,
    colorize: bool,
    body_style: OutputBodyStyle,
    render_state: &mut OutputRenderState,
) -> (record: Option<Vec<u8>>)
    ensures
        ({
            let (after, bytes) = byte_prepared(
                old(render_state)@,
                source_label@,
                byte,
                colorize,
                body_style,
            );
            &&& final(render_state)@ == after
            &&& match record {
                Some(record) => bytes == Some(record@),
                None => bytes is None,
            }
        }),
{
    if byte == 0x0d {
        render_state.body_style = body_style;
        render_state.colorize = colorize;
        let record = prepare_flush_rendered_output(render_state, true);
        render_state.last_was_carriage_return = true;
        return record;
    }
    if byte == 0x0a {
        render_state.body_style = body_style;
        render_state.colorize = colorize;
        if render_state.last_was_carriage_return {
            render_state.last_was_carriage_return = false;
            return None;
        }
        return prepare_flush_rendered_output(render_state, true);
    }
    render_state.last_was_carriage_return = false;
    if render_state.at_line_start {
        let ghost begun = render_state.rendered_line@;
        let prefix = format_output_prefix_with_style(source_label, colorize, body_style);
        render_state.rendered_line.append(prefix.as_str());
        if let OutputBodyStyle::Dim = body_style {
            render_state.rendered_line.append(dim_start(colorize));
            render_state.dim_active = colorize;
        }
        render_state.at_line_start = false;
        assert(render_state.rendered_line@ =~= begun + line_start(source_label@, colorize, body_style));
    }
    let text = render_output_byte(byte, colorize, body_style, render_state);
    render_state.rendered_line.append(text.as_str());
    None
}

/// The records of output that is complete.
pub fn render_captured_output(
    source_label: &str,
    bytes: &[u8],
    colorize: bool,
    body_style: OutputBodyStyle,
) -> (records: Vec<Vec<u8>>)
    ensures
        records_of(records@) == captured(source_label@, bytes@, colorize, body_style),
{
    let mut state = OutputRenderState::new();
    let mut records: Vec<Vec<u8>> = Vec::new();
    let mut i: usize = 0;
    assert(records_of(records@) =~= Seq::empty());
    while i < bytes.len()
        invariant
            i <= bytes@.len(),
            (state@, records_of(records@)) == bytes_prepared(
                fresh_model(),
                source_label@,
                bytes@.take(i as int),
                colorize,
                body_style,
            ),
        decreases bytes@.len() - i,
    {
        proof {
            let part = bytes@.take(i + 1);
            assert(part.drop_last() =~= bytes@.take(i as int));
            assert(part.last() == bytes@[i as int]);
        }
        let ghost before = records_of(records@);
        match prepare_output_byte(source_label, bytes[i], colorize, body_style, &mut state) {
            Some(record) => {
                records.push(record);
                assert(records_of(records@) =~= before.push(record@));
            },
            None => {},
        }
        i = i + 1;
    }
    assert(bytes@.take(i as int) =~= bytes@);
    let ghost before = records_of(records@);
    match prepare_flush_rendered_output(&mut state, false) {
        Some(record) => {
            records.push(record);
            assert(records_of(records@) =~= before.push(record@));
        },
        None => {},
    }
    records
}

/// A newline right behind a carriage return ends no second line.
pub proof fn law_return_and_newline_end_one_line(
    m: RenderModel,
    label: Seq<char>,
    colorize: bool,
    style: OutputBodyStyle,
)
    ensures
        ({
            let (returned, first) = byte_prepared(m, label, 0x0d, colorize, style);
            let (_, second) = byte_prepared(returned, label, 0x0a, colorize, style);
            first is Some && second is None
        }),
{
}

/// A carriage return shows as a newline does: both end the line with the same record.
pub proof fn law_returns_show_as_newlines(
    m: RenderModel,
    label: Seq<char>,
    colorize: bool,
    style: OutputBodyStyle,
)
    requires
        !m.after_return,
    ensures
        byte_prepared(m, label, 0x0d, colorize, style).1 == byte_prepared(
            m,
            label,
            0x0a,
            colorize,
            style,
        ).1,
{
}

/// What bytes of output show, one after the other.
pub open spec fn bytes_rendered(m: RenderModel, bytes: Seq<u8>, colorize: bool, style: OutputBodyStyle) -> (
    RenderModel,
    Seq<char>,
)
    decreases bytes.len(),
{
    if bytes.len() == 0 {
        (m, Seq::empty())
    } else {
        let (before, text) = bytes_rendered(m, bytes.drop_last(), colorize, style);
        let (after, more) = byte_rendered(before, bytes.last(), colorize, style);
        (after, text + more)
    }
}

/// Whether a text holds no ASCII control character.
pub open spec fn is_printable(text: Seq<char>) -> bool {
    forall|i: int|
        0 <= i < text.len() ==> '\u{20}' <= #[trigger] text[i] && text[i] != '\u{7f}'
}

proof fn lemma_bytes_rendered_concat(
    m: RenderModel,
    a: Seq<u8>,
    b: Seq<u8>,
    colorize: bool,
    style: OutputBodyStyle,
)
    ensures
        ({
            let (between, first) = bytes_rendered(m, a, colorize, style);
            let (after, second) = bytes_rendered(between, b, colorize, style);
            bytes_rendered(m, a + b, colorize, style) == (after, first + second)
        }),
    decreases b.len(),
{
    let (between, first) = bytes_rendered(m, a, colorize, style);
    if b.len() == 0 {
        assert(a + b =~= a);
        assert(first + Seq::<char>::empty() =~= first);
    } else {
        lemma_bytes_rendered_concat(m, a, b.drop_last(), colorize, style);
        assert((a + b).drop_last() =~= a + b.drop_last());
        assert((a + b).last() == b.last());
        let (before, text) = bytes_rendered(between, b.drop_last(), colorize, style);
        let (after, more) = byte_rendered(before, b.last(), colorize, style);
        assert(first + (text + more) =~= (first + text) + more);
    }
}

/// The beginning of the encoding of a character is not the encoding of a text.
proof fn lemma_partial_scalar(c: char, n: int)
    requires
        0 < n < encode_scalar(c as u32).len(),
    ensures
        is_incomplete_utf8(encode_scalar(c as u32).take(n)),
{
    let whole = encode_scalar(c as u32);
    let part = whole.take(n);
    let text = seq![c];
    assert(text.drop_first() =~= Seq::empty());
    assert(encode_utf8(text) =~= whole) by {
        assert(encode_utf8(text.drop_first()) =~= Seq::<u8>::empty());
    }
    vstd::utf8::encode_utf8_first_scalar(text);
    vstd::utf8::encode_utf8_valid_utf8(text);
    assert(part + whole.skip(n) =~= whole);
    assert(valid_utf8(part + whole.skip(n)));
    assert(part[0] == whole[0]);
    assert(!vstd::utf8::valid_first_scalar(part));
}

proof fn lemma_scalar_bytes(c: char, k: int)
    requires
        '\u{20}' <= c && c != '\u{7f}',
        0 <= k < encode_scalar(c as u32).len(),
    ensures
        !is_control(encode_scalar(c as u32)[k]),
        encode_scalar(c as u32)[k] != 0x1b,
{
    let whole = encode_scalar(c as u32);
    let text = seq![c];
    assert(text.drop_first() =~= Seq::empty());
    assert(encode_utf8(text) =~= whole) by {
        assert(encode_utf8(text.drop_first()) =~= Seq::<u8>::empty());
    }
    vstd::utf8::encode_utf8_first_scalar(text);
    if whole.len() == 1 {
        assert(vstd::utf8::decode_first_scalar(whole) == c as u32);
        let b = whole[0];
        assert((b & 0x7F) <= b) by (bit_vector);
        assert(b <= 0x7f ==> (b & 0x7F) == b) by (bit_vector);
    }
}

proof fn lemma_char_rendered(m: RenderModel, c: char, n: int, colorize: bool, style: OutputBodyStyle)
    requires
        m.escape == AnsiEscapeState::Ground,
        m.pending.len() == 0,
        '\u{20}' <= c && c != '\u{7f}',
        0 <= n <= encode_scalar(c as u32).len(),
    ensures
        ({
            let whole = encode_scalar(c as u32);
            bytes_rendered(m, whole.take(n), colorize, style) == if n < whole.len() {
                (RenderModel { pending: whole.take(n), ..m }, Seq::<char>::empty())
            } else {
                (RenderModel { pending: Seq::empty(), ..m }, seq![c])
            }
        }),
    decreases n,
{
    let whole = encode_scalar(c as u32);
    if n == 0 {
        assert(whole.take(0) =~= Seq::empty());
        assert(m.pending =~= Seq::empty());
    } else {
        lemma_char_rendered(m, c, n - 1, colorize, style);
        let part = whole.take(n);
        assert(part.drop_last() =~= whole.take(n - 1));
        assert(part.last() == whole[n - 1]);
        lemma_scalar_bytes(c, n - 1);
        let before = RenderModel { pending: whole.take(n - 1), ..m };
        assert(before.pending.push(whole[n - 1]) =~= part);
        if n < whole.len() {
            lemma_partial_scalar(c, n);
            assert(Seq::<char>::empty() + Seq::<char>::empty() =~= Seq::<char>::empty());
        } else {
            assert(part =~= whole);
            let text = seq![c];
            assert(text.drop_first() =~= Seq::empty());
            assert(encode_utf8(text) =~= whole) by {
                assert(encode_utf8(text.drop_first()) =~= Seq::<u8>::empty());
            }
            vstd::utf8::encode_utf8_valid_utf8(text);
            vstd::utf8::encode_utf8_decode_utf8(text);
            assert(Seq::<char>::empty() + seq![c] =~= seq![c]);
        }
    }
}

/// Characters survive: the bytes of a text without control characters show that text, whatever
/// number of bytes each character takes.
pub proof fn law_characters_survive(
    m: RenderModel,
    text: Seq<char>,
    colorize: bool,
    style: OutputBodyStyle,
)
    requires
        m.escape == AnsiEscapeState::Ground,
        m.pending.len() == 0,
        is_printable(text),
    ensures
        bytes_rendered(m, encode_utf8(text), colorize, style) == (m, text),
    decreases text.len(),
{
    assert(m.pending =~= Seq::empty());
    if text.len() == 0 {
        assert(text =~= Seq::empty());
        assert(encode_utf8(text) =~= Seq::empty());
    } else {
        let c = text[0];
        let rest = text.drop_first();
        let whole = encode_scalar(c as u32);
        assert(encode_utf8(text) == whole + encode_utf8(rest));
        assert(whole.take(whole.len() as int) =~= whole);
        vstd::utf8::char_is_scalar(c);
        lemma_char_rendered(m, c, whole.len() as int, colorize, style);
        assert forall|i: int| 0 <= i < rest.len() implies '\u{20}' <= #[trigger] rest[i] && rest[i]
            != '\u{7f}' by {
            assert(rest[i] == text[i + 1]);
        }
        law_characters_survive(m, rest, colorize, style);
        lemma_bytes_rendered_concat(m, whole, encode_utf8(rest), colorize, style);
        assert(seq![c] + rest =~= text);
    }
}

/// Whether what is kept of a line begins with its prefix, where the line has begun at all.
pub open spec fn line_is_begun(
    m: RenderModel,
    label: Seq<char>,
    colorize: bool,
    style: OutputBodyStyle,
) -> bool {
    if m.at_line_start {
        m.line.len() == 0 && m.pending.len() == 0
    } else {
        line_start(label, colorize, style).is_prefix_of(m.line)
    }
}

/// Whether a record is a whole line: a line that begins with its prefix or is empty, and a
/// newline.
pub open spec fn is_whole_line(
    record: Seq<u8>,
    label: Seq<char>,
    colorize: bool,
    style: OutputBodyStyle,
) -> bool {
    exists|line: Seq<char>|
        record == #[trigger] encode_utf8(line).push(0x0au8) && (line.len() == 0 || line_start(
            label,
            colorize,
            style,
        ).is_prefix_of(line))
}

proof fn lemma_whole_line(
    m: RenderModel,
    label: Seq<char>,
    byte: u8,
    colorize: bool,
    style: OutputBodyStyle,
)
    requires
        line_is_begun(m, label, colorize, style),
    ensures
        line_is_begun(byte_prepared(m, label, byte, colorize, style).0, label, colorize, style),
        byte_prepared(m, label, byte, colorize, style).1 matches Some(record) ==> is_whole_line(
            record,
            label,
            colorize,
            style,
        ),
{
    let start = line_start(label, colorize, style);
    if byte == 0x0d || byte == 0x0a {
        let line = m.line + pending_text(m.pending);
        let shown = if line.len() > 0 && m.dim_active {
            line + style_off(colorize)
        } else {
            line
        };
        if m.at_line_start {
            assert(line =~= Seq::empty());
        } else {
            assert(start.is_prefix_of(shown)) by {
                assert(shown.take(start.len() as int) =~= m.line.take(start.len() as int));
            }
        }
        assert(encode_utf8(shown) + seq![0x0au8] =~= encode_utf8(shown).push(0x0au8));
    } else {
        let base = if m.at_line_start {
            m.line + start
        } else {
            m.line
        };
        assert(start.is_prefix_of(base)) by {
            if m.at_line_start {
                assert(base =~= start);
                assert(start.take(start.len() as int) =~= start);
            }
        }
        let after = byte_prepared(m, label, byte, colorize, style).0;
        assert(base.is_prefix_of(after.line)) by {
            assert(after.line.take(base.len() as int) =~= base);
        }
        assert(after.line.take(start.len() as int) =~= base.take(start.len() as int));
    }
}

/// Output is shown line by line: every record that is handed out while the output goes on is a
/// whole line, so that no prefix stands within a line.
pub proof fn law_output_is_shown_in_whole_lines(
    label: Seq<char>,
    bytes: Seq<u8>,
    colorize: bool,
    style: OutputBodyStyle,
)
    ensures
        ({
            let (m, records) = bytes_prepared(fresh_model(), label, bytes, colorize, style);
            &&& line_is_begun(m, label, colorize, style)
            &&& forall|i: int|
                0 <= i < records.len() ==> is_whole_line(
                    #[trigger] records[i],
                    label,
                    colorize,
                    style,
                )
        }),
    decreases bytes.len(),
{
    if bytes.len() > 0 {
        law_output_is_shown_in_whole_lines(label, bytes.drop_last(), colorize, style);
        let (before, _) = bytes_prepared(fresh_model(), label, bytes.drop_last(), colorize, style);
        lemma_whole_line(before, label, bytes.last(), colorize, style);
    }
}

proof fn lemma_no_controls(text: Seq<char>)
    requires
        is_printable(text),
    ensures
        forall|i: int| 0 <= i < encode_utf8(text).len() ==> !is_control(#[trigger] encode_utf8(text)[i]),
    decreases text.len(),
{
    let bytes = encode_utf8(text);
    if text.len() > 0 {
        let rest = text.drop_first();
        let whole = encode_scalar(text[0] as u32);
        assert(bytes == whole + encode_utf8(rest));
        assert forall|i: int| 0 <= i < rest.len() implies '\u{20}' <= #[trigger] rest[i] && rest[i]
            != '\u{7f}' by {
            assert(rest[i] == text[i + 1]);
        }
        lemma_no_controls(rest);
        assert forall|i: int| 0 <= i < bytes.len() implies !is_control(#[trigger] bytes[i]) by {
            if i < whole.len() {
                lemma_scalar_bytes(text[0], i);
            } else {
                assert(bytes[i] == encode_utf8(rest)[i - whole.len()]);
            }
        }
    }
}

proof fn lemma_rendered_line(
    m: RenderModel,
    line: Seq<char>,
    byte: u8,
    colorize: bool,
    style: OutputBodyStyle,
)
    ensures
        ({
            let (after, text) = byte_rendered(m, byte, colorize, style);
            &&& byte_rendered(RenderModel { line, ..m }, byte, colorize, style) == (
                RenderModel { line, ..after },
                text,
            )
            &&& after.line == m.line
            &&& after.at_line_start == m.at_line_start
            &&& after.after_return == m.after_return
        }),
{
}

proof fn lemma_prepared_byte(
    m: RenderModel,
    line: Seq<char>,
    label: Seq<char>,
    byte: u8,
    colorize: bool,
    style: OutputBodyStyle,
)
    requires
        !m.at_line_start,
        !m.after_return,
        byte != 0x0a,
        byte != 0x0d,
    ensures
        ({
            let (after, text) = byte_rendered(m, byte, colorize, style);
            byte_prepared(RenderModel { line, ..m }, label, byte, colorize, style) == (
                RenderModel { line: line + text, ..after },
                None::<Seq<u8>>,
            )
        }),
{
    lemma_rendered_line(m, line, byte, colorize, style);
    let begun = RenderModel { line, ..m };
    assert(RenderModel { after_return: false, ..begun } == begun);
}

proof fn lemma_prepared_plain(
    m: RenderModel,
    label: Seq<char>,
    bytes: Seq<u8>,
    colorize: bool,
    style: OutputBodyStyle,
)
    requires
        !m.at_line_start,
        !m.after_return,
        forall|i: int| 0 <= i < bytes.len() ==> #[trigger] bytes[i] != 0x0a && bytes[i] != 0x0d,
    ensures
        ({
            let (shown, text) = bytes_rendered(m, bytes, colorize, style);
            bytes_prepared(m, label, bytes, colorize, style) == (
                RenderModel { line: m.line + text, ..shown },
                Seq::<Seq<u8>>::empty(),
            ) && shown.line == m.line && !shown.at_line_start && !shown.after_return
        }),
    decreases bytes.len(),
{
    if bytes.len() == 0 {
        assert(m.line + Seq::<char>::empty() =~= m.line);
    } else {
        let part = bytes.drop_last();
        assert forall|i: int| 0 <= i < part.len() implies #[trigger] part[i] != 0x0a && part[i] != 0x0d by {
            assert(part[i] == bytes[i]);
        }
        lemma_prepared_plain(m, label, part, colorize, style);
        assert(bytes.last() == bytes[bytes.len() - 1]);
        let (before, text) = bytes_rendered(m, part, colorize, style);
        let (after, more) = byte_rendered(before, bytes.last(), colorize, style);
        lemma_prepared_byte(before, m.line + text, label, bytes.last(), colorize, style);
        lemma_rendered_line(before, m.line, bytes.last(), colorize, style);
        assert(m.line + text + more =~= m.line + (text + more));
        assert(bytes_rendered(m, bytes, colorize, style) == (after, text + more));
    }
}

/// Whether a line is about to begin, and nothing is held back.
pub open spec fn is_at_rest(m: RenderModel) -> bool {
    &&& m.at_line_start
    &&& m.line.len() == 0
    &&& m.escape == AnsiEscapeState::Ground
    &&& m.pending.len() == 0
    &&& !m.dim_active
}

proof fn lemma_prepared_from_start(
    m: RenderModel,
    label: Seq<char>,
    bytes: Seq<u8>,
    colorize: bool,
    style: OutputBodyStyle,
)
    requires
        is_at_rest(m),
        bytes.len() > 0,
        forall|i: int| 0 <= i < bytes.len() ==> #[trigger] bytes[i] != 0x0a && bytes[i] != 0x0d,
    ensures
        bytes_prepared(m, label, bytes, colorize, style) == bytes_prepared(
            RenderModel {
                at_line_start: false,
                after_return: false,
                line: line_start(label, colorize, style),
                dim_active: style == OutputBodyStyle::Dim && colorize,
                ..m
            },
            label,
            bytes,
            colorize,
            style,
        ),
    decreases bytes.len(),
{
    let begun = RenderModel {
        at_line_start: false,
        after_return: false,
        line: line_start(label, colorize, style),
        dim_active: style == OutputBodyStyle::Dim && colorize,
        ..m
    };
    let part = bytes.drop_last();
    assert(bytes.last() == bytes[bytes.len() - 1]);
    if part.len() > 0 {
        assert forall|i: int| 0 <= i < part.len() implies #[trigger] part[i] != 0x0a && part[i] != 0x0d by {
            assert(part[i] == bytes[i]);
        }
        lemma_prepared_from_start(m, label, part, colorize, style);
    } else {
        assert(m.line + line_start(label, colorize, style) =~= line_start(label, colorize, style));
        assert(bytes_prepared(m, label, part, colorize, style).0 == m);
        assert(bytes_prepared(begun, label, part, colorize, style).0 == begun);
    }
}

/// A line of text is shown as it is behind the prefix of its label, with a newline, as soon as it
/// is ended: by a newline, or a carriage return. Where the body is dim and colors are on, dimming is
/// turned on before the text and off behind it. Then the next line is about to begin.
pub proof fn law_lines_are_shown_behind_their_label(
    m: RenderModel,
    label: Seq<char>,
    text: Seq<char>,
    end: u8,
    colorize: bool,
    style: OutputBodyStyle,
)
    requires
        is_at_rest(m),
        is_printable(text),
        text.len() > 0,
        end == 0x0a || end == 0x0d,
    ensures
        ({
            let (after, records) = bytes_prepared(
                m,
                label,
                encode_utf8(text).push(end),
                colorize,
                style,
            );
            let color = if colorize {
                Some(hash_color(text_hash(label)))
            } else {
                None
            };
            let body = if style == OutputBodyStyle::Dim && colorize {
                "\u{1b}[2m"@ + text + "\u{1b}[0m"@
            } else {
                text
            };
            &&& records == seq![encode_utf8(output_prefix(label, color, style) + body) + seq![0x0au8]]
            &&& is_at_rest(after)
            &&& after.after_return == (end == 0x0d)
        }),
{
    let bytes = encode_utf8(text);
    vstd::utf8::encode_utf8_first_scalar(text);
    assert(bytes.len() > 0);
    lemma_no_controls(text);
    assert forall|i: int| 0 <= i < bytes.len() implies #[trigger] bytes[i] != 0x0a && bytes[i] != 0x0d by {
        assert(!is_control(bytes[i]));
    }
    let start = line_start(label, colorize, style);
    let begun = RenderModel {
        at_line_start: false,
        after_return: false,
        line: start,
        dim_active: style == OutputBodyStyle::Dim && colorize,
        ..m
    };
    lemma_prepared_from_start(m, label, bytes, colorize, style);
    lemma_prepared_plain(begun, label, bytes, colorize, style);
    law_characters_survive(begun, text, colorize, style);
    let (kept, none) = bytes_prepared(m, label, bytes, colorize, style);
    assert(kept == RenderModel { line: start + text, ..begun });
    assert(bytes.push(end).drop_last() =~= bytes);
    let prefix = output_prefix(label, label_color(label, colorize), style);
    let line = start + text + pending_text(kept.pending);
    assert(line =~= start + text);
    let dim = style == OutputBodyStyle::Dim && colorize;
    reveal_strlit("");
    if dim {
        assert(start + text + style_off(true) =~= prefix + ("\u{1b}[2m"@ + text + "\u{1b}[0m"@));
    } else {
        assert(start =~= prefix);
        assert(start + text =~= prefix + text);
    }
    let (after, records) = bytes_prepared(m, label, bytes.push(end), colorize, style);
    assert(none.push(records[0]) =~= records);
}

/// An empty line is shown as a newline alone, and what is left at the end of the output behind its
/// label without one.
pub proof fn law_empty_lines_and_last_lines_are_shown(
    m: RenderModel,
    label: Seq<char>,
    text: Seq<char>,
    colorize: bool,
    style: OutputBodyStyle,
)
    requires
        is_at_rest(m),
        !m.after_return,
        is_printable(text),
    ensures
        byte_prepared(m, label, 0x0a, colorize, style).1 == Some(seq![0x0au8]),
        text.len() > 0 && (!colorize || style == OutputBodyStyle::Plain) ==> flushed(
            bytes_prepared(m, label, encode_utf8(text), colorize, style).0,
            false,
        ).1 == Some(
            encode_utf8(output_prefix(label, label_color(label, colorize), style) + text),
        ),
        flushed(m, false).1 is None,
{
    assert(m.line + pending_text(m.pending) =~= Seq::empty());
    let none = Seq::<char>::empty();
    assert(encode_utf8(none) =~= Seq::<u8>::empty());
    assert(Seq::<u8>::empty() + seq![0x0au8] =~= seq![0x0au8]);
    if text.len() > 0 && (!colorize || style == OutputBodyStyle::Plain) {
        let bytes = encode_utf8(text);
        vstd::utf8::encode_utf8_first_scalar(text);
        assert(bytes.len() > 0);
        lemma_no_controls(text);
        assert forall|i: int| 0 <= i < bytes.len() implies #[trigger] bytes[i] != 0x0a && bytes[i]
            != 0x0d by {
            assert(!is_control(bytes[i]));
        }
        let start = line_start(label, colorize, style);
        let begun = RenderModel {
            at_line_start: false,
            after_return: false,
            line: start,
            dim_active: style == OutputBodyStyle::Dim && colorize,
            ..m
        };
        lemma_prepared_from_start(m, label, bytes, colorize, style);
        lemma_prepared_plain(begun, label, bytes, colorize, style);
        law_characters_survive(begun, text, colorize, style);
        let kept = bytes_prepared(m, label, bytes, colorize, style).0;
        reveal_strlit("");
        assert(start =~= output_prefix(label, label_color(label, colorize), style));
        assert(start + text + pending_text(kept.pending) =~= start + text);
        assert(encode_utf8(start + text) + Seq::<u8>::empty() =~= encode_utf8(start + text));
    }
}

/// Escape sequences pass through byte by byte. Where the body is dim, dimming is turned on again
/// behind a sequence that sets styles, and behind no other.
pub proof fn law_escape_sequences_pass_through(m: RenderModel, byte: u8, colorize: bool)
    requires
        m.pending.len() == 0,
    ensures
        byte_rendered(m, 0x1b, colorize, OutputBodyStyle::Dim).1 == seq!['\u{1b}'],
        byte_rendered(m, 0x1b, colorize, OutputBodyStyle::Dim).0.escape == AnsiEscapeState::AfterEsc,
        m.escape == AnsiEscapeState::AfterEsc && byte != 0x1b ==> byte_rendered(
            m,
            byte,
            colorize,
            OutputBodyStyle::Dim,
        ).1 == seq![byte as char],
        m.escape == AnsiEscapeState::AfterEsc ==> byte_rendered(
            m,
            0x5b,
            colorize,
            OutputBodyStyle::Dim,
        ).0.escape == AnsiEscapeState::InCsi,
        m.escape == AnsiEscapeState::InCsi && byte != 0x1b ==> byte_rendered(
            m,
            byte,
            colorize,
            OutputBodyStyle::Plain,
        ).1 == seq![byte as char],
        m.escape == AnsiEscapeState::InCsi && byte != 0x1b && byte != 0x6d ==> byte_rendered(
            m,
            byte,
            colorize,
            OutputBodyStyle::Dim,
        ).1 == seq![byte as char],
        m.escape == AnsiEscapeState::InCsi ==> byte_rendered(m, 0x6d, true, OutputBodyStyle::Dim).1
            == seq!['m', '\u{1b}', '[', '2', 'm'],
        m.escape == AnsiEscapeState::InCsi && byte != 0x1b ==> (byte_rendered(
            m,
            byte,
            colorize,
            OutputBodyStyle::Dim,
        ).0.escape == AnsiEscapeState::Ground) == (0x40 <= byte <= 0x7e),
{
    reveal_strlit("\u{1b}[2m");
    assert(pending_text(m.pending) =~= Seq::empty());
    assert(Seq::<char>::empty().push('\u{1b}') =~= seq!['\u{1b}']);
    assert(seq!['m'] + "\u{1b}[2m"@ =~= seq!['m', '\u{1b}', '[', '2', 'm']);
}

/// Before anything has come a line is about to begin, and a newline that comes first ends a line.
pub proof fn law_output_begins_at_rest()
    ensures
        is_at_rest(fresh_model()),
        !fresh_model().after_return,
{
}

/// Once a line has been shown nothing of it is left, and dimming is off again.
pub proof fn law_shown_lines_leave_nothing_behind(m: RenderModel, newline: bool)
    requires
        m.line.len() > 0,
    ensures
        flushed(m, newline).1 is Some,
        flushed(m, newline).0.line.len() == 0 && flushed(m, newline).0.pending.len() == 0,
        !flushed(m, newline).0.dim_active && flushed(m, newline).0.at_line_start,
{
}

/// Of output that is complete each line is shown behind its label: one that is ended with a newline,
/// and what is left at the end as it is. Where there is no output nothing is shown.
pub proof fn law_captured_output_is_shown(label: Seq<char>, text: Seq<char>)
    requires
        is_printable(text),
        text.len() > 0,
    ensures
        ({
            let shown = encode_utf8(output_prefix(label, None, OutputBodyStyle::Plain) + text);
            let ended = captured(label, encode_utf8(text).push(0x0a), false, OutputBodyStyle::Plain);
            let left = captured(label, encode_utf8(text), false, OutputBodyStyle::Plain);
            &&& ended == seq![shown + seq![0x0au8]]
            &&& left.len() > 0 && left.last() == shown
        }),
        captured(label, Seq::empty(), false, OutputBodyStyle::Plain).len() == 0,
{
    let style = OutputBodyStyle::Plain;
    let m = fresh_model();
    law_lines_are_shown_behind_their_label(m, label, text, 0x0a, false, style);
    law_empty_lines_and_last_lines_are_shown(m, label, text, false, style);
    let (after, records) = bytes_prepared(m, label, encode_utf8(text).push(0x0a), false, style);
    assert(after.line + pending_text(after.pending) =~= Seq::empty());
    assert(flushed(after, false).1 is None);
    assert(m.line + pending_text(m.pending) =~= Seq::empty());
}

} // verus!
