//! Cutting output into lines.

use vstd::prelude::*;

verus! {

/// What is kept of the output between two bytes.
pub struct LineModel {
    pub line: Seq<u8>,
    pub after_return: bool,
}

/// Nothing has been seen of the output.
pub open spec fn no_line() -> LineModel {
    LineModel { line: Seq::empty(), after_return: false }
}

/// The line that a byte ends, if any, and what is kept afterwards.
///
/// A carriage return ends a line as a newline does; a newline right behind it ends none.
pub open spec fn line_step(m: LineModel, byte: u8) -> (LineModel, Option<Seq<u8>>) {
    if byte == 0x0d {
        (LineModel { line: Seq::empty(), after_return: true }, Some(m.line))
    } else if byte == 0x0a {
        if m.after_return {
            (LineModel { after_return: false, ..m }, None)
        } else {
            (LineModel { line: Seq::empty(), after_return: false }, Some(m.line))
        }
    } else {
        (LineModel { line: m.line.push(byte), after_return: false }, None)
    }
}

/// The lines that bytes end, and what is kept afterwards.
pub open spec fn lines_step(m: LineModel, bytes: Seq<u8>) -> (LineModel, Seq<Seq<u8>>)
    decreases bytes.len(),
{
    if bytes.len() == 0 {
        (m, Seq::empty())
    } else {
        let (before, lines) = lines_step(m, bytes.drop_last());
        let (after, line) = line_step(before, bytes.last());
        (
            after,
            match line {
                Some(line) => lines.push(line),
                None => lines,
            },
        )
    }
}

/// The lines of output that is complete: those that are ended, and what is left where it is not
/// empty.
pub open spec fn lines_of(bytes: Seq<u8>) -> Seq<Seq<u8>> {
    let (last, lines) = lines_step(no_line(), bytes);
    if last.line.len() > 0 {
        lines.push(last.line)
    } else {
        lines
    }
}

/// Cuts output into lines, byte by byte.
#[derive(Debug)]
pub struct LineSplitter {
    line: Vec<u8>,
    last_was_carriage_return: bool,
}

impl LineSplitter {
    /// What is kept of the output.
    pub closed spec fn view(&self) -> LineModel {
        LineModel { line: self.line@, after_return: self.last_was_carriage_return }
    }

    /// Nothing has been seen of the output.
    pub fn new() -> (splitter: Self)
        ensures
            splitter@ == no_line(),
    {
        LineSplitter { line: Vec::new(), last_was_carriage_return: false }
    }

    /// Takes in a byte, and returns the line that it ends.
    pub fn push(&mut self, byte: u8) -> (line: Option<Vec<u8>>)
        ensures
            ({
                let (after, ended) = line_step(old(self)@, byte);
                &&& final(self)@ == after
                &&& match line {
                    Some(line) => ended == Some(line@),
                    None => ended is None,
                }
            }),
    {
        if byte == 0x0d {
            self.last_was_carriage_return = true;
            return Some(self.take());
        }
        if byte == 0x0a {
            let ended = !self.last_was_carriage_return;
            self.last_was_carriage_return = false;
            if ended {
                return Some(self.take());
            }
            return None;
        }
        self.last_was_carriage_return = false;
        self.line.push(byte);
        None
    }

    fn take(&mut self) -> (line: Vec<u8>)
        ensures
            line@ == old(self)@.line,
            final(self)@ == (LineModel { line: Seq::empty(), ..old(self)@ }),
    {
        let mut line: Vec<u8> = Vec::new();
        std::mem::swap(&mut self.line, &mut line);
        assert(self@.line =~= Seq::empty());
        line
    }

    /// The line that is left when the output ends.
    pub fn finish(self) -> (line: Option<Vec<u8>>)
        ensures
            match line {
                Some(line) => self@.line.len() > 0 && line@ == self@.line,
                None => self@.line.len() == 0,
            },
    {
        if self.line.len() > 0 {
            Some(self.line)
        } else {
            None
        }
    }
}

/// The bytes of the lines, one after the other.
pub open spec fn flat(lines: Seq<Seq<u8>>) -> Seq<u8>
    decreases lines.len(),
{
    if lines.len() == 0 {
        Seq::empty()
    } else {
        flat(lines.drop_last()) + lines.last()
    }
}

/// The bytes without carriage returns and newlines.
pub open spec fn without_line_ends(bytes: Seq<u8>) -> Seq<u8>
    decreases bytes.len(),
{
    if bytes.len() == 0 {
        Seq::empty()
    } else {
        let before = without_line_ends(bytes.drop_last());
        if bytes.last() == 0x0d || bytes.last() == 0x0a {
            before
        } else {
            before.push(bytes.last())
        }
    }
}

spec fn after_return_is_empty(m: LineModel) -> bool {
    m.after_return ==> m.line.len() == 0
}

proof fn lemma_lines_keep_bytes(bytes: Seq<u8>)
    ensures
        ({
            let (last, lines) = lines_step(no_line(), bytes);
            flat(lines) + last.line == without_line_ends(bytes) && after_return_is_empty(last)
        }),
    decreases bytes.len(),
{
    if bytes.len() == 0 {
        assert(flat(Seq::empty()) + Seq::<u8>::empty() =~= Seq::<u8>::empty());
    } else {
        lemma_lines_keep_bytes(bytes.drop_last());
        let (before, lines) = lines_step(no_line(), bytes.drop_last());
        let (after, line) = line_step(before, bytes.last());
        match line {
            Some(line) => {
                assert(lines.push(line).drop_last() =~= lines);
                assert(flat(lines.push(line)) + after.line =~= flat(lines) + before.line);
            },
            None => {
                if bytes.last() != 0x0a {
                    assert(flat(lines) + after.line =~= (flat(lines) + before.line).push(bytes.last()));
                }
            },
        }
    }
}

/// Cutting output into lines loses nothing but the line ends.
pub proof fn law_lines_keep_all_but_line_ends(bytes: Seq<u8>)
    ensures
        flat(lines_of(bytes)) == without_line_ends(bytes),
{
    lemma_lines_keep_bytes(bytes);
    let (last, lines) = lines_step(no_line(), bytes);
    if last.line.len() > 0 {
        assert(lines.push(last.line).drop_last() =~= lines);
    } else {
        assert(flat(lines) + last.line =~= flat(lines));
    }
}

/// A carriage return and a newline right behind it end one line.
pub proof fn law_return_and_newline_end_one_line(m: LineModel)
    ensures
        ({
            let (returned, first) = line_step(m, 0x0d);
            let (after, second) = line_step(returned, 0x0a);
            &&& first == Some(m.line)
            &&& second is None
            &&& after == no_line()
        }),
{
}

proof fn lemma_lines_concat(m: LineModel, a: Seq<u8>, b: Seq<u8>)
    ensures
        lines_step(m, a + b) == (
            lines_step(lines_step(m, a).0, b).0,
            lines_step(m, a).1 + lines_step(lines_step(m, a).0, b).1,
        ),
    decreases b.len(),
{
    let (middle, first) = lines_step(m, a);
    if b.len() == 0 {
        assert(a + b =~= a);
        assert(first + Seq::<Seq<u8>>::empty() =~= first);
    } else {
        lemma_lines_concat(m, a, b.drop_last());
        assert((a + b).drop_last() =~= a + b.drop_last());
        assert((a + b).last() == b.last());
        let (before, lines) = lines_step(middle, b.drop_last());
        if let Some(line) = line_step(before, b.last()).1 {
            assert((first + lines).push(line) =~= first + lines.push(line));
        }
    }
}

proof fn lemma_plain_bytes(m: LineModel, plain: Seq<u8>)
    requires
        forall|i: int| 0 <= i < plain.len() ==> #[trigger] plain[i] != 0x0d && plain[i] != 0x0a,
        plain.len() > 0 || !m.after_return,
    ensures
        lines_step(m, plain) == (
            LineModel { line: m.line + plain, after_return: false },
            Seq::<Seq<u8>>::empty(),
        ),
    decreases plain.len(),
{
    if plain.len() == 0 {
        assert(m.line + plain =~= m.line);
    } else {
        let part = plain.drop_last();
        assert(plain.last() == plain[plain.len() - 1]);
        if part.len() > 0 {
            assert forall|i: int| 0 <= i < part.len() implies #[trigger] part[i] != 0x0d && part[i]
                != 0x0a by {
                assert(part[i] == plain[i]);
            }
            lemma_plain_bytes(m, part);
        } else {
            assert(lines_step(m, part) == (m, Seq::<Seq<u8>>::empty()));
            assert(m.line + part =~= m.line);
        }
        assert((m.line + part).push(plain.last()) =~= m.line + plain);
    }
}

/// What is left of output behind a line does not depend on the line.
proof fn lemma_lines_from(m: LineModel, rest: Seq<u8>)
    requires
        m.line.len() == 0,
        m.after_return ==> rest.len() == 0 || rest[0] != 0x0a,
    ensures
        lines_step(m, rest).1 == lines_step(no_line(), rest).1,
        lines_step(m, rest).0.line == lines_step(no_line(), rest).0.line,
        rest.len() > 0 ==> lines_step(m, rest).0 == lines_step(no_line(), rest).0,
    decreases rest.len(),
{
    assert(m.line =~= Seq::empty());
    if rest.len() > 0 {
        let part = rest.drop_last();
        if part.len() > 0 {
            assert(part[0] == rest[0]);
        }
        lemma_lines_from(m, part);
        if part.len() == 0 {
            assert(rest.last() == rest[0]);
        }
    }
}

/// A newline, a carriage return, or a carriage return with a newline behind it ends the line before
/// it, and what follows is cut as if it stood alone. What is not ended is a line where it is not
/// empty.
pub proof fn law_line_ends_cut_output(plain: Seq<u8>, rest: Seq<u8>)
    requires
        forall|i: int| 0 <= i < plain.len() ==> #[trigger] plain[i] != 0x0d && plain[i] != 0x0a,
    ensures
        lines_of(plain.push(0x0a) + rest) == seq![plain] + lines_of(rest),
        lines_of(plain.push(0x0d).push(0x0a) + rest) == seq![plain] + lines_of(rest),
        rest.len() == 0 || rest[0] != 0x0a ==> lines_of(plain.push(0x0d) + rest) == seq![plain]
            + lines_of(rest),
        lines_of(plain) == if plain.len() > 0 {
            seq![plain]
        } else {
            Seq::<Seq<u8>>::empty()
        },
{
    let start = no_line();
    lemma_plain_bytes(start, plain);
    assert(start.line + plain =~= plain);
    let kept = LineModel { line: plain, after_return: false };
    let newline = plain.push(0x0a);
    assert(newline.drop_last() =~= plain);
    assert(lines_step(start, newline).1 =~= seq![plain]);
    lemma_lines_concat(start, newline, rest);
    lemma_lines_from(lines_step(start, newline).0, rest);
    let carriage = plain.push(0x0d);
    assert(carriage.drop_last() =~= plain);
    assert(lines_step(start, carriage).1 =~= seq![plain]);
    let both = carriage.push(0x0a);
    assert(both.drop_last() =~= carriage);
    assert(lines_step(start, both).1 =~= seq![plain]);
    lemma_lines_concat(start, both, rest);
    lemma_lines_from(lines_step(start, both).0, rest);
    if rest.len() == 0 || rest[0] != 0x0a {
        lemma_lines_concat(start, carriage, rest);
        lemma_lines_from(lines_step(start, carriage).0, rest);
    }
    let (last, lines) = lines_step(start, rest);
    if last.line.len() > 0 {
        assert((seq![plain] + lines).push(last.line) =~= seq![plain] + lines.push(last.line));
    }
    assert(lines_step(start, plain).1 =~= Seq::<Seq<u8>>::empty());
    assert(Seq::<Seq<u8>>::empty().push(plain) =~= seq![plain]);
}

} // verus!
