//! Log messages in a box.

use crate::config::LogStyle;
use crate::text::texts;
use unicode_width::UnicodeWidthStr;
use vstd::prelude::*;

verus! {

/// How many columns `unicode_width::UnicodeWidthStr::width` gives a text.
pub uninterp spec fn display_width(text: Seq<char>) -> usize;

/// `unicode_width::UnicodeWidthStr::width`: how many columns a text takes.
#[verifier::external_body]
fn width_of(text: &str) -> (width: usize)
    ensures
        width == display_width(text@),
{
    UnicodeWidthStr::width(text)
}

/// A character, a number of times.
pub open spec fn repeated(c: char, n: nat) -> Seq<char> {
    Seq::new(n, |i: int| c)
}

/// A character, a number of times.
pub fn repeat(c: char, n: usize) -> (text: String)
    ensures
        text@ == repeated(c, n as nat),
{
    let mut text = String::new();
    let mut i: usize = 0;
    assert(text@ =~= repeated(c, 0));
    while i < n
        invariant
            i <= n,
            text@ == repeated(c, i as nat),
        decreases n - i,
    {
        text.push(c);
        assert(repeated(c, i as nat).push(c) =~= repeated(c, (i + 1) as nat));
        i = i + 1;
    }
    text
}

/// The upper and the lower edge of a box around a text of a width.
pub open spec fn box_edge(width: nat) -> Seq<char> {
    "+"@ + repeated('-', width + 4) + "+"@
}

/// The middle of a box around a text.
pub open spec fn box_middle(message: Seq<char>) -> Seq<char> {
    "|  "@ + message + "  |"@
}

/// The lines of a box around a text of a width.
pub fn box_lines(message: &str, width: usize) -> (lines: [String; 3])
    requires
        width + 4 <= usize::MAX,
    ensures
        lines@[0]@ == box_edge(width as nat),
        lines@[1]@ == box_middle(message@),
        lines@[2]@ == box_edge(width as nat),
{
    let edge = "+".to_owned().concat(repeat('-', width + 4).as_str()).concat("+");
    let middle = "|  ".to_owned().concat(message).concat("  |");
    [edge.clone(), middle, edge]
}

/// The lines of a box around a message.
pub fn boxed_banner_lines(message: &str) -> (lines: [String; 3])
    requires
        display_width(message@) + 4 <= usize::MAX,
    ensures
        lines@[0]@ == box_edge(display_width(message@) as nat),
        lines@[1]@ == box_middle(message@),
        lines@[2]@ == box_edge(display_width(message@) as nat),
{
    box_lines(message, width_of(message))
}

/// The lines that a message is logged in: the message itself, or a box around it; nothing where
/// the box is too wide to be drawn.
pub fn workflow_log_lines(style: LogStyle, message: &str) -> (lines: Option<Vec<String>>)
    ensures
        match style {
            LogStyle::Plain => lines matches Some(list) && texts(list@) == seq![message@],
            LogStyle::Boxed => if display_width(message@) + 4 <= usize::MAX {
                lines matches Some(list) && texts(list@) == seq![
                    box_edge(display_width(message@) as nat),
                    box_middle(message@),
                    box_edge(display_width(message@) as nat),
                ]
            } else {
                lines is None
            },
        },
{
    let mut list: Vec<String> = Vec::new();
    match style {
        LogStyle::Plain => {
            list.push(message.to_owned());
            assert(texts(list@) =~= seq![message@]);
        },
        LogStyle::Boxed => {
            if width_of(message) > usize::MAX - 4 {
                return None;
            }
            let lines = boxed_banner_lines(message);
            list.push(lines[0].clone());
            list.push(lines[1].clone());
            list.push(lines[2].clone());
            assert(texts(list@) =~= seq![
                box_edge(display_width(message@) as nat),
                box_middle(message@),
                box_edge(display_width(message@) as nat),
            ]);
        },
    }
    Some(list)
}

/// The edges of a box are as long as the frame of its middle and the width of its text together.
pub proof fn law_boxes_fit_their_text(message: Seq<char>, width: nat)
    ensures
        box_edge(width).len() == width + 6,
        box_middle(message).len() == message.len() + 6,
{
    reveal_strlit("+");
    reveal_strlit("|  ");
    reveal_strlit("  |");
}

/// A box has a corner at either end of its edges and lines between them, and the message between
/// its sides with two spaces around it.
pub proof fn law_boxes_are_drawn_around_the_message(message: Seq<char>, width: nat)
    ensures
        box_edge(width)[0] == '+' && box_edge(width)[width as int + 5] == '+',
        forall|i: int| 1 <= i < width + 5 ==> #[trigger] box_edge(width)[i] == '-',
        box_middle(message) == seq!['|', ' ', ' '] + message + seq![' ', ' ', '|'],
{
    reveal_strlit("+");
    reveal_strlit("|  ");
    reveal_strlit("  |");
    assert("|  "@ =~= seq!['|', ' ', ' ']);
    assert("  |"@ =~= seq![' ', ' ', '|']);
    let edge = box_edge(width);
    assert forall|i: int| 1 <= i < width + 5 implies #[trigger] edge[i] == '-' by {}
}

} // verus!
