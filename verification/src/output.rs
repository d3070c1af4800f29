//! Labels and styles of terminal output.

use crate::config::OutputBodyStyle;
use crate::text::{chars_of, decimal, decimal_text, same_text};
use std::hash::{BuildHasher, BuildHasherDefault, DefaultHasher};
use vstd::prelude::*;

verus! {

/// A text from place `i` on with a space for each pair of colons.
pub open spec fn without_colons(text: Seq<char>, i: int) -> Seq<char>
    decreases text.len() - i,
{
    if i < 0 || i >= text.len() {
        Seq::empty()
    } else if i + 1 < text.len() && text[i] == ':' && text[i + 1] == ':' {
        seq![' '] + without_colons(text, i + 2)
    } else {
        seq![text[i]] + without_colons(text, i + 1)
    }
}

/// The label of a module path: a space stands for each pair of colons.
pub open spec fn source_label(path: Seq<char>) -> Seq<char> {
    without_colons(path, 0)
}

/// The label of the supervisor's own log lines: every one starts with the supervisor's name.
pub open spec fn internal_label(path: Seq<char>) -> Seq<char> {
    let label = source_label(path);
    if label == "devloop"@ || "devloop "@.is_prefix_of(label) {
        label
    } else {
        "devloop "@ + label
    }
}

/// The label of a module path: a space stands for each pair of colons.
pub fn normalize_source_label(path: &str) -> (label: String)
    ensures
        label@ == source_label(path@),
{
    let chars = chars_of(path);
    let mut label = String::new();
    let mut i: usize = 0;
    assert(label@ + without_colons(path@, 0) =~= without_colons(path@, 0));
    while i < chars.len()
        invariant
            i <= chars@.len(),
            chars@ == path@,
            label@ + without_colons(path@, i as int) == source_label(path@),
        decreases chars@.len() - i,
    {
        let ghost done = label@;
        if i + 1 < chars.len() && chars[i] == ':' && chars[i + 1] == ':' {
            label.push(' ');
            assert(label@ + without_colons(path@, i + 2) =~= done + (seq![' '] + without_colons(
                path@,
                i + 2,
            )));
            i = i + 2;
        } else {
            label.push(chars[i]);
            assert(label@ + without_colons(path@, i + 1) =~= done + (seq![chars@[i as int]]
                + without_colons(path@, i + 1)));
            i = i + 1;
        }
    }
    assert(label@ + Seq::<char>::empty() =~= label@);
    label
}

/// Whether a text begins with another.
pub fn begins_with(text: &str, head: &str) -> (result: bool)
    ensures
        result == head@.is_prefix_of(text@),
{
    let chars = chars_of(text);
    let first = chars_of(head);
    if first.len() > chars.len() {
        return false;
    }
    let mut i: usize = 0;
    while i < first.len()
        invariant
            i <= first@.len() <= chars@.len(),
            chars@ == text@,
            first@ == head@,
            forall|k: int| 0 <= k < i ==> first@[k] == chars@[k],
        decreases first@.len() - i,
    {
        if first[i] != chars[i] {
            assert(head@[i as int] != text@.take(head@.len() as int)[i as int]);
            return false;
        }
        i = i + 1;
    }
    assert(head@ =~= text@.take(head@.len() as int));
    true
}

/// The label of the supervisor's own log lines.
pub fn normalize_internal_log_label(path: &str) -> (label: String)
    ensures
        label@ == internal_label(path@),
{
    let label = normalize_source_label(path);
    if same_text(label.as_str(), "devloop") || begins_with(label.as_str(), "devloop ") {
        label
    } else {
        "devloop ".to_owned().concat(label.as_str())
    }
}

/// What `std::hash::BuildHasher::hash_one` makes of a text with
/// `std::hash::BuildHasherDefault<std::hash::DefaultHasher>`.
pub uninterp spec fn text_hash(text: Seq<char>) -> u64;

/// `std::hash::BuildHasher::hash_one` with a default `std::hash::DefaultHasher`: the same text
/// always has the same hash.
#[verifier::external_body]
fn hash_text(text: &str) -> (hash: u64)
    ensures
        hash == text_hash(text@),
{
    BuildHasherDefault::<DefaultHasher>::default().hash_one(text)
}

/// The color at a place of the palette. Bright white is not among them.
pub open spec fn palette_color(place: int) -> u8 {
    if place == 0 {
        31
    } else if place == 1 {
        32
    } else if place == 2 {
        33
    } else if place == 3 {
        34
    } else if place == 4 {
        36
    } else {
        37
    }
}

/// The color code of a hash.
pub open spec fn hash_color(hash: u64) -> u8 {
    palette_color((hash as usize) as int % 6)
}

/// The color code of a hash.
pub fn color_of_hash(hash: u64) -> (code: u8)
    ensures
        code == hash_color(hash),
{
    let place: usize = (hash as usize) % 6;
    match place {
        0 => 31,
        1 => 32,
        2 => 33,
        3 => 34,
        4 => 36,
        _ => 37,
    }
}

/// The color code of a source: the same source always has the same one.
pub fn output_color_code(process_name: &str) -> (code: u8)
    ensures
        code == hash_color(text_hash(process_name@)),
{
    color_of_hash(hash_text(process_name))
}

/// The prefix of a line of output.
pub open spec fn output_prefix(label: Seq<char>, color: Option<u8>, style: OutputBodyStyle) -> Seq<char> {
    match color {
        None => "["@ + label + "] "@,
        Some(code) => (if style == OutputBodyStyle::Dim {
            "\u{1b}[2;1;"@
        } else {
            "\u{1b}[1;"@
        }) + decimal(code as nat) + "m["@ + label + "]\u{1b}[0m "@,
    }
}

/// The color of a label, where output has colors.
pub open spec fn label_color(label: Seq<char>, colorize: bool) -> Option<u8> {
    if colorize {
        Some(hash_color(text_hash(label)))
    } else {
        None
    }
}

/// The prefix of a line of output in a color.
pub fn prefix_in_color(label: &str, color: Option<u8>, style: OutputBodyStyle) -> (prefix: String)
    ensures
        prefix@ == output_prefix(label@, color, style),
{
    match color {
        None => "[".to_owned().concat(label).concat("] "),
        Some(code) => {
            let start = match style {
                OutputBodyStyle::Dim => "\u{1b}[2;1;",
                OutputBodyStyle::Plain => "\u{1b}[1;",
            };
            start.to_owned().concat(decimal_text(code as u64).as_str()).concat("m[").concat(
                label,
            ).concat("]\u{1b}[0m ")
        },
    }
}

/// The prefix of a line of output.
pub fn format_output_prefix(source_label: &str, colorize: bool) -> (prefix: String)
    ensures
        prefix@ == output_prefix(
            source_label@,
            label_color(source_label@, colorize),
            OutputBodyStyle::Plain,
        ),
{
    format_output_prefix_with_style(source_label, colorize, OutputBodyStyle::Plain)
}

/// The prefix of a line of output whose body has a style.
pub fn format_output_prefix_with_style(
    source_label: &str,
    colorize: bool,
    body_style: OutputBodyStyle,
) -> (prefix: String)
    ensures
        prefix@ == output_prefix(source_label@, label_color(source_label@, colorize), body_style),
{
    let color = if colorize {
        Some(output_color_code(source_label))
    } else {
        None
    };
    prefix_in_color(source_label, color, body_style)
}

/// The prefix of one of the supervisor's own log lines.
pub fn format_tracing_prefix(target: &str, colorize: bool) -> (prefix: String)
    ensures
        prefix@ == output_prefix(
            internal_label(target@),
            label_color(internal_label(target@), colorize),
            OutputBodyStyle::Plain,
        ),
{
    let label = normalize_internal_log_label(target);
    format_output_prefix(label.as_str(), colorize)
}

/// Whether output has colors: on a terminal, unless the environment asks for none.
pub fn should_colorize_output(is_terminal: bool, no_color_is_set: bool) -> (colorize: bool)
    ensures
        colorize == (is_terminal && !no_color_is_set),
{
    is_terminal && !no_color_is_set
}

/// What turns dimming on.
pub open spec fn dim_on(colorize: bool) -> Seq<char> {
    if colorize {
        "\u{1b}[2m"@
    } else {
        ""@
    }
}

/// What turns every style off.
pub open spec fn style_off(colorize: bool) -> Seq<char> {
    if colorize {
        "\u{1b}[0m"@
    } else {
        ""@
    }
}

/// What turns dimming on.
pub fn dim_start(colorize: bool) -> (text: &'static str)
    ensures
        text@ == dim_on(colorize),
{
    if colorize {
        "\u{1b}[2m"
    } else {
        ""
    }
}

/// What turns every style off.
pub fn style_reset(colorize: bool) -> (text: &'static str)
    ensures
        text@ == style_off(colorize),
{
    if colorize {
        "\u{1b}[0m"
    } else {
        ""
    }
}

/// A text in a style.
pub open spec fn styled(text: Seq<char>, style: OutputBodyStyle, colorize: bool) -> Seq<char> {
    if colorize && style == OutputBodyStyle::Dim {
        dim_on(true) + text + style_off(true)
    } else {
        text
    }
}

/// A text in a style.
pub fn style_output_text(text: &str, body_style: OutputBodyStyle, colorize: bool) -> (result: String)
    ensures
        result@ == styled(text@, body_style, colorize),
{
    if !colorize {
        return text.to_owned();
    }
    match body_style {
        OutputBodyStyle::Plain => text.to_owned(),
        OutputBodyStyle::Dim => dim_start(true).to_owned().concat(text).concat(style_reset(true)),
    }
}

/// A line of output with its prefix.
pub fn format_output_line(
    source_label: &str,
    line: &str,
    colorize: bool,
    body_style: OutputBodyStyle,
) -> (text: String)
    ensures
        text@ == output_prefix(source_label@, label_color(source_label@, colorize), body_style)
            + styled(line@, body_style, colorize),
{
    let prefix = format_output_prefix_with_style(source_label, colorize, body_style);
    prefix.concat(style_output_text(line, body_style, colorize).as_str())
}

/// Whether a control sequence begins at `i`.
pub open spec fn csi_begins(bytes: Seq<u8>, i: int) -> bool {
    0 <= i && i + 1 < bytes.len() && bytes[i] == 0x1b && bytes[i + 1] == 0x5b
}

/// The place behind the byte that ends a control sequence, from `i` on.
pub open spec fn csi_end(bytes: Seq<u8>, i: int) -> int
    decreases bytes.len() - i,
{
    if i < 0 || i >= bytes.len() {
        i
    } else if 0x40 <= bytes[i] <= 0x7e {
        i + 1
    } else {
        csi_end(bytes, i + 1)
    }
}

/// The bytes from `i` on without control sequences.
pub open spec fn stripped_from(bytes: Seq<u8>, i: int) -> Seq<u8>
    decreases bytes.len() - i,
{
    if i < 0 || i >= bytes.len() {
        Seq::empty()
    } else if csi_begins(bytes, i) {
        proof {
            lemma_csi_end(bytes, i + 2);
        }
        stripped_from(bytes, csi_end(bytes, i + 2))
    } else {
        seq![bytes[i]] + stripped_from(bytes, i + 1)
    }
}

/// A control sequence ends where it begins or later.
pub proof fn lemma_csi_end(bytes: Seq<u8>, i: int)
    ensures
        i <= csi_end(bytes, i),
        i <= bytes.len() ==> csi_end(bytes, i) <= bytes.len(),
    decreases bytes.len() - i,
{
    if 0 <= i < bytes.len() && !(0x40 <= bytes[i] <= 0x7e) {
        lemma_csi_end(bytes, i + 1);
    }
}

/// The bytes without control sequences.
pub fn strip_ansi_csi_sequences(bytes: &[u8]) -> (stripped: Vec<u8>)
    ensures
        stripped@ == stripped_from(bytes@, 0),
{
    let mut stripped: Vec<u8> = Vec::new();
    let mut index: usize = 0;
    assert(stripped@ + stripped_from(bytes@, 0) =~= stripped_from(bytes@, 0));
    while index < bytes.len()
        invariant
            index <= bytes@.len(),
            stripped@ + stripped_from(bytes@, index as int) == stripped_from(bytes@, 0),
        decreases bytes@.len() - index,
    {
        if bytes[index] == 0x1b && index + 1 < bytes.len() && bytes[index + 1] == 0x5b {
            let ghost start = index as int;
            let mut end: usize = index + 2;
            let mut open = true;
            while open && end < bytes.len()
                invariant
                    start + 2 <= end <= bytes@.len(),
                    open ==> csi_end(bytes@, start + 2) == csi_end(bytes@, end as int),
                    !open ==> csi_end(bytes@, start + 2) == end,
                decreases bytes@.len() - end + (if open { 1int } else { 0int }),
            {
                let byte = bytes[end];
                end = end + 1;
                if 0x40 <= byte && byte <= 0x7e {
                    open = false;
                }
            }
            assert(csi_begins(bytes@, start));
            assert(csi_end(bytes@, start + 2) == end);
            index = end;
        } else {
            let ghost done = stripped@;
            stripped.push(bytes[index]);
            assert(stripped@ + stripped_from(bytes@, index + 1) =~= done + (seq![bytes@[index as int]]
                + stripped_from(bytes@, index + 1)));
            index = index + 1;
        }
    }
    assert(stripped@ + Seq::<u8>::empty() =~= stripped@);
    stripped
}

proof fn lemma_plain_bytes(bytes: Seq<u8>, i: int)
    requires
        0 <= i <= bytes.len(),
        forall|k: int| !#[trigger] csi_begins(bytes, k),
    ensures
        stripped_from(bytes, i) == bytes.skip(i),
    decreases bytes.len() - i,
{
    if i < bytes.len() {
        lemma_plain_bytes(bytes, i + 1);
        assert(!csi_begins(bytes, i));
        assert(bytes.skip(i) =~= seq![bytes[i]] + bytes.skip(i + 1));
    } else {
        assert(bytes.skip(i) =~= Seq::<u8>::empty());
    }
}

/// Bytes in which no control sequence begins stay as they are.
pub proof fn law_stripping_keeps_plain_bytes(bytes: Seq<u8>)
    requires
        forall|k: int| !#[trigger] csi_begins(bytes, k),
    ensures
        stripped_from(bytes, 0) == bytes,
{
    lemma_plain_bytes(bytes, 0);
    assert(bytes.skip(0) =~= bytes);
}

/// Stripping never adds a byte.
pub proof fn law_stripping_shortens(bytes: Seq<u8>, i: int)
    requires
        0 <= i <= bytes.len(),
    ensures
        stripped_from(bytes, i).len() <= bytes.len() - i,
    decreases bytes.len() - i,
{
    if i < bytes.len() {
        if csi_begins(bytes, i) {
            lemma_csi_end(bytes, i + 2);
            law_stripping_shortens(bytes, csi_end(bytes, i + 2));
        } else {
            law_stripping_shortens(bytes, i + 1);
        }
    }
}

/// The supervisor's own log lines are all labeled with its name first.
pub proof fn law_internal_labels_name_the_supervisor(path: Seq<char>)
    ensures
        "devloop"@.is_prefix_of(internal_label(path)),
{
    reveal_strlit("devloop");
    reveal_strlit("devloop ");
    let label = source_label(path);
    assert("devloop"@ =~= "devloop "@.take(7));
    if label == "devloop"@ {
        assert("devloop"@ =~= internal_label(path).take(7));
    } else if "devloop "@.is_prefix_of(label) {
        assert("devloop"@ =~= internal_label(path).take(7));
    } else {
        assert("devloop"@ =~= ("devloop "@ + label).take(7));
    }
}

/// A pair of colons reads as a space, and what stands on either side is read by itself; text
/// without colons stays.
pub proof fn law_colons_read_as_spaces(plain: Seq<char>, rest: Seq<char>)
    requires
        forall|i: int| 0 <= i < plain.len() ==> #[trigger] plain[i] != ':',
    ensures
        source_label(plain) == plain,
        source_label(plain + seq![':', ':'] + rest) == plain + seq![' '] + source_label(rest),
{
    lemma_plain_label(plain, 0);
    assert(plain.skip(0) =~= plain);
    let tail = seq![':', ':'] + rest;
    let whole = plain + seq![':', ':'] + rest;
    assert(whole =~= plain + tail);
    lemma_label_concat(plain, tail, 0);
    assert(plain.skip(0) =~= plain);
    lemma_label_skip(tail, 2, 0);
    assert(tail.skip(2) =~= rest);
    assert(tail[0] == ':' && tail[1] == ':');
    assert(without_colons(tail, 0) == seq![' '] + without_colons(tail, 2));
    assert(plain + (seq![' '] + source_label(rest)) =~= plain + seq![' '] + source_label(rest));
}

proof fn lemma_plain_label(plain: Seq<char>, i: int)
    requires
        forall|k: int| 0 <= k < plain.len() ==> #[trigger] plain[k] != ':',
        0 <= i <= plain.len(),
    ensures
        without_colons(plain, i) == plain.skip(i),
    decreases plain.len() - i,
{
    if i < plain.len() {
        lemma_plain_label(plain, i + 1);
        assert(plain[i] != ':');
        assert(seq![plain[i]] + plain.skip(i + 1) =~= plain.skip(i));
    } else {
        assert(plain.skip(i) =~= Seq::empty());
    }
}

proof fn lemma_label_concat(plain: Seq<char>, tail: Seq<char>, i: int)
    requires
        forall|k: int| 0 <= k < plain.len() ==> #[trigger] plain[k] != ':',
        0 <= i <= plain.len(),
    ensures
        without_colons(plain + tail, i) == plain.skip(i) + without_colons(tail, 0),
    decreases plain.len() - i,
{
    let whole = plain + tail;
    if i < plain.len() {
        lemma_label_concat(plain, tail, i + 1);
        assert(whole[i] == plain[i]);
        assert(seq![plain[i]] + (plain.skip(i + 1) + without_colons(tail, 0)) =~= plain.skip(i)
            + without_colons(tail, 0));
    } else {
        lemma_label_skip(whole, plain.len() as int, 0);
        assert(whole.skip(plain.len() as int) =~= tail);
        assert(plain.skip(i) + without_colons(tail, 0) =~= without_colons(tail, 0));
    }
}

proof fn lemma_label_skip(text: Seq<char>, from: int, i: int)
    requires
        0 <= from <= text.len(),
        0 <= i,
    ensures
        without_colons(text.skip(from), i) == without_colons(text, i + from),
    decreases text.len() - i,
{
    let rest = text.skip(from);
    if i < rest.len() {
        lemma_label_skip(text, from, i + 1);
        if i + 1 < rest.len() {
            lemma_label_skip(text, from, i + 2);
        }
    }
}

/// The supervisor's own modules keep their label, which already begins with its name; any other
/// source is put behind that name.
pub proof fn law_other_sources_stand_behind_the_supervisor(module: Seq<char>)
    ensures
        internal_label("devloop"@) == "devloop"@,
        internal_label("devloop::"@ + module) == "devloop "@ + source_label(module),
        ({
            let label = source_label(module);
            label != "devloop"@ && !("devloop "@.is_prefix_of(label)) ==> internal_label(module)
                == "devloop "@ + label
        }),
{
    reveal_strlit("devloop");
    reveal_strlit("devloop::");
    reveal_strlit("devloop ");
    let name = "devloop"@;
    assert forall|i: int| 0 <= i < name.len() implies #[trigger] name[i] != ':' by {}
    law_colons_read_as_spaces(name, module);
    assert("devloop::"@ + module =~= name + seq![':', ':'] + module);
    assert(name + seq![' '] =~= "devloop "@);
    let label = "devloop "@ + source_label(module);
    assert(label.take(8) =~= "devloop "@);
}

/// Without colors a label stands between brackets; with colors the same text stands between the
/// sequence of its color, bold and where the body is dim dimmed, and a reset.
pub proof fn law_prefixes_hold_their_label(label: Seq<char>, code: u8, style: OutputBodyStyle)
    ensures
        output_prefix(label, None, style) == seq!['['] + label + seq![']', ' '],
        output_prefix(label, Some(code), OutputBodyStyle::Plain) == seq!['\u{1b}', '[', '1', ';']
            + decimal(code as nat) + seq!['m', '['] + label + seq![']', '\u{1b}', '[', '0', 'm', ' '],
        output_prefix(label, Some(code), OutputBodyStyle::Dim) == seq!['\u{1b}', '[', '2', ';', '1', ';']
            + decimal(code as nat) + seq!['m', '['] + label + seq![']', '\u{1b}', '[', '0', 'm', ' '],
        label_color(label, false) is None,
        label_color(label, true) is Some,
{
    reveal_strlit("[");
    reveal_strlit("] ");
    reveal_strlit("\u{1b}[1;");
    reveal_strlit("\u{1b}[2;1;");
    reveal_strlit("m[");
    reveal_strlit("]\u{1b}[0m ");
    assert("["@ =~= seq!['[']);
    assert("] "@ =~= seq![']', ' ']);
    assert("\u{1b}[1;"@ =~= seq!['\u{1b}', '[', '1', ';']);
    assert("\u{1b}[2;1;"@ =~= seq!['\u{1b}', '[', '2', ';', '1', ';']);
    assert("m["@ =~= seq!['m', '[']);
    assert("]\u{1b}[0m "@ =~= seq![']', '\u{1b}', '[', '0', 'm', ' ']);
}

/// Every label has one of six colors, each of them for its part of the hashes, and none is magenta.
pub proof fn law_colors_are_those_of_the_palette(hash: u64)
    requires
        hash <= u32::MAX,
    ensures
        hash % 6 == 0 ==> hash_color(hash) == 31,
        hash % 6 == 1 ==> hash_color(hash) == 32,
        hash % 6 == 2 ==> hash_color(hash) == 33,
        hash % 6 == 3 ==> hash_color(hash) == 34,
        hash % 6 == 4 ==> hash_color(hash) == 36,
        hash % 6 == 5 ==> hash_color(hash) == 37,
{
}

/// A style changes nothing but what stands around a text, and only where the body is dim and colors
/// are on.
pub proof fn law_styles_stand_around_the_text(text: Seq<char>, style: OutputBodyStyle)
    ensures
        styled(text, style, false) == text,
        styled(text, OutputBodyStyle::Plain, true) == text,
        styled(text, OutputBodyStyle::Dim, true) == seq!['\u{1b}', '[', '2', 'm'] + text + seq![
            '\u{1b}',
            '[',
            '0',
            'm',
        ],
        dim_on(true) == seq!['\u{1b}', '[', '2', 'm'],
        style_off(true) == seq!['\u{1b}', '[', '0', 'm'],
        dim_on(false) == Seq::<char>::empty(),
        style_off(false) == Seq::<char>::empty(),
{
    reveal_strlit("\u{1b}[2m");
    reveal_strlit("\u{1b}[0m");
    reveal_strlit("");
    assert("\u{1b}[2m"@ =~= seq!['\u{1b}', '[', '2', 'm']);
    assert("\u{1b}[0m"@ =~= seq!['\u{1b}', '[', '0', 'm']);
    assert(""@ =~= Seq::<char>::empty());
}

proof fn lemma_stripped_skip(bytes: Seq<u8>, from: int, i: int)
    requires
        0 <= from <= bytes.len(),
        0 <= i,
    ensures
        stripped_from(bytes.skip(from), i) == stripped_from(bytes, i + from),
    decreases bytes.len() - i,
{
    let rest = bytes.skip(from);
    if i < rest.len() {
        assert(csi_begins(rest, i) == csi_begins(bytes, i + from));
        if csi_begins(rest, i) {
            lemma_csi_end(rest, i + 2);
            lemma_csi_end_skip(bytes, from, i + 2);
            lemma_stripped_skip(bytes, from, csi_end(rest, i + 2));
        } else {
            lemma_stripped_skip(bytes, from, i + 1);
        }
    }
}

proof fn lemma_csi_end_skip(bytes: Seq<u8>, from: int, i: int)
    requires
        0 <= from <= bytes.len(),
        0 <= i,
    ensures
        csi_end(bytes.skip(from), i) + from == csi_end(bytes, i + from),
    decreases bytes.len() - i,
{
    if i < bytes.skip(from).len() && !(0x40 <= bytes.skip(from)[i] <= 0x7e) {
        lemma_csi_end_skip(bytes, from, i + 1);
    }
}

proof fn lemma_csi_to(bytes: Seq<u8>, i: int, end: int)
    requires
        0 <= i <= end <= bytes.len(),
        forall|k: int| i <= k < end ==> !(0x40 <= #[trigger] bytes[k] <= 0x7e),
    ensures
        csi_end(bytes, i) == csi_end(bytes, end),
    decreases end - i,
{
    if i < end {
        lemma_csi_to(bytes, i + 1, end);
    }
}

proof fn lemma_plain_front(plain: Seq<u8>, rest: Seq<u8>)
    requires
        forall|k: int| 0 <= k < plain.len() ==> #[trigger] plain[k] != 0x1b,
    ensures
        stripped_from(plain + rest, 0) == plain + stripped_from(rest, 0),
    decreases plain.len(),
{
    let whole = plain + rest;
    if plain.len() == 0 {
        assert(whole =~= rest);
        assert(plain + stripped_from(rest, 0) =~= stripped_from(rest, 0));
    } else {
        assert(whole[0] == plain[0]);
        assert(whole.skip(1) =~= plain.skip(1) + rest);
        lemma_plain_front(plain.skip(1), rest);
        lemma_stripped_skip(whole, 1, 0);
        assert(seq![plain[0]] + (plain.skip(1) + stripped_from(rest, 0)) =~= plain + stripped_from(
            rest,
            0,
        ));
    }
}

/// A control sequence is taken out wherever it stands, up to the byte that ends it, and what stands
/// around it is kept; one that is not ended is taken out up to the end. An escape that begins no
/// control sequence is kept.
pub proof fn law_control_sequences_are_taken_out(
    plain: Seq<u8>,
    inner: Seq<u8>,
    last: u8,
    rest: Seq<u8>,
    other: u8,
)
    requires
        forall|k: int| 0 <= k < plain.len() ==> #[trigger] plain[k] != 0x1b,
        forall|k: int| 0 <= k < inner.len() ==> #[trigger] inner[k] < 0x40 || inner[k] > 0x7e,
        0x40 <= last <= 0x7e,
        other != 0x5b,
    ensures
        stripped_from(plain + seq![0x1bu8, 0x5bu8] + inner + seq![last] + rest, 0) == plain
            + stripped_from(rest, 0),
        stripped_from(plain + seq![0x1bu8, 0x5bu8] + inner, 0) == plain,
        stripped_from(plain + seq![0x1bu8, other] + rest, 0) == plain + seq![0x1bu8] + stripped_from(
            seq![other] + rest,
            0,
        ),
{
    let tail = seq![0x1bu8, 0x5bu8] + inner + seq![last] + rest;
    assert(plain + seq![0x1bu8, 0x5bu8] + inner + seq![last] + rest =~= plain + tail);
    lemma_plain_front(plain, tail);
    let end = 2 + inner.len() as int;
    assert(csi_begins(tail, 0));
    assert forall|k: int| 2 <= k < end implies !(0x40 <= #[trigger] tail[k] <= 0x7e) by {
        assert(tail[k] == inner[k - 2]);
    }
    lemma_csi_to(tail, 2, end);
    assert(tail[end] == last);
    assert(csi_end(tail, 2) == end + 1);
    assert(tail.skip(end + 1) =~= rest);
    lemma_stripped_skip(tail, end + 1, 0);
    let open = seq![0x1bu8, 0x5bu8] + inner;
    assert(plain + seq![0x1bu8, 0x5bu8] + inner =~= plain + open);
    lemma_plain_front(plain, open);
    assert(csi_begins(open, 0));
    assert forall|k: int| 2 <= k < end implies !(0x40 <= #[trigger] open[k] <= 0x7e) by {
        assert(open[k] == inner[k - 2]);
    }
    lemma_csi_to(open, 2, end);
    assert(stripped_from(open, csi_end(open, 2)) =~= Seq::empty());
    assert(plain + Seq::<u8>::empty() =~= plain);
    let kept = seq![0x1bu8, other] + rest;
    assert(plain + seq![0x1bu8, other] + rest =~= plain + kept);
    lemma_plain_front(plain, kept);
    assert(!csi_begins(kept, 0));
    assert(kept[0] == 0x1b);
    assert(kept.skip(1) =~= seq![other] + rest);
    lemma_stripped_skip(kept, 1, 0);
    assert(plain + (seq![0x1bu8] + stripped_from(seq![other] + rest, 0)) =~= plain + seq![0x1bu8]
        + stripped_from(seq![other] + rest, 0));
}

} // verus!
