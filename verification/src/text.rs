//! Character-level operations on strings.

use vstd::prelude::*;

verus! {

/// `String::push`: the given character is appended to the end of the string.
pub assume_specification[ std::string::String::push ](s: &mut std::string::String, c: char)
    ensures
        final(s)@ == old(s)@.push(c),
;

/// The characters of `s`, in order.
pub fn chars_of(s: &str) -> (chars: Vec<char>)
    ensures
        chars@ == s@,
{
    let mut chars: Vec<char> = Vec::new();
    for c in it: s.chars()
        invariant
            chars@ == s@.take(it.index() as int),
            it.seq() == s@,
    {
        chars.push(c);
        assert(s@.take(it.index() as int + 1) =~= s@.take(it.index() as int).push(c));
    }
    assert(s@.take(s@.len() as int) =~= s@);
    chars
}

/// The characters `chars[from..to]` as a string.
pub fn string_of(chars: &Vec<char>, from: usize, to: usize) -> (text: String)
    requires
        from <= to <= chars@.len(),
    ensures
        text@ == chars@.subrange(from as int, to as int),
{
    let mut text = String::new();
    let mut i: usize = from;
    while i < to
        invariant
            from <= i <= to <= chars@.len(),
            text@ == chars@.subrange(from as int, i as int),
        decreases to - i,
    {
        text.push(chars[i]);
        assert(chars@.subrange(from as int, i + 1) =~= chars@.subrange(from as int, i as int).push(chars@[i as int]));
        i = i + 1;
    }
    text
}

/// Whether two strings hold the same characters.
pub fn same_text(a: &str, b: &str) -> (same: bool)
    ensures
        same == (a@ == b@),
{
    let a_chars = chars_of(a);
    let b_chars = chars_of(b);
    if a_chars.len() != b_chars.len() {
        return false;
    }
    let mut i: usize = 0;
    while i < a_chars.len()
        invariant
            i <= a_chars@.len() == b_chars@.len(),
            a_chars@ == a@,
            b_chars@ == b@,
            forall|k: int| 0 <= k < i ==> a_chars@[k] == b_chars@[k],
        decreases a_chars@.len() - i,
    {
        if a_chars[i] != b_chars[i] {
            return false;
        }
        i = i + 1;
    }
    assert(a@ =~= b@);
    true
}

/// What a list of strings holds.
pub open spec fn texts(list: Seq<String>) -> Seq<Seq<char>> {
    Seq::new(list.len(), |i: int| list[i]@)
}

/// The parts, one after the other, with `separator` between each two.
pub open spec fn joined(parts: Seq<Seq<char>>, separator: Seq<char>) -> Seq<char>
    decreases parts.len(),
{
    if parts.len() == 0 {
        Seq::empty()
    } else if parts.len() == 1 {
        parts[0]
    } else {
        joined(parts.drop_last(), separator) + separator + parts.last()
    }
}

/// Whether a list holds a text.
pub fn contains_text(list: &Vec<String>, text: &str) -> (found: bool)
    ensures
        found == texts(list@).contains(text@),
{
    let mut i: usize = 0;
    while i < list.len()
        invariant
            i <= list@.len(),
            forall|k: int| 0 <= k < i ==> list@[k]@ != text@,
        decreases list@.len() - i,
    {
        if same_text(list[i].as_str(), text) {
            assert(texts(list@)[i as int] == text@);
            return true;
        }
        i = i + 1;
    }
    false
}

/// A second list with the same texts.
pub fn copy_texts(list: &Vec<String>) -> (copy: Vec<String>)
    ensures
        texts(copy@) == texts(list@),
{
    let mut copy: Vec<String> = Vec::new();
    let mut i: usize = 0;
    while i < list.len()
        invariant
            i <= list@.len(),
            copy@.len() == i,
            forall|k: int| 0 <= k < i ==> copy@[k]@ == list@[k]@,
        decreases list@.len() - i,
    {
        copy.push(list[i].clone());
        i = i + 1;
    }
    assert(texts(copy@) =~= texts(list@));
    copy
}

/// The texts of a list, one after the other, with `separator` between each two.
pub fn join_texts(list: &Vec<String>, separator: &str) -> (text: String)
    ensures
        text@ == joined(texts(list@), separator@),
{
    let mut text = String::new();
    let mut i: usize = 0;
    while i < list.len()
        invariant
            i <= list@.len(),
            text@ == joined(texts(list@).take(i as int), separator@),
        decreases list@.len() - i,
    {
        proof {
            let part = texts(list@).take(i + 1);
            assert(part.drop_last() =~= texts(list@).take(i as int));
            assert(part.last() == list@[i as int]@);
            assert(Seq::<char>::empty() + list@[i as int]@ =~= list@[i as int]@);
        }
        if i > 0 {
            text.append(separator);
        }
        text.append(list[i].as_str());
        i = i + 1;
    }
    assert(texts(list@).take(i as int) =~= texts(list@));
    text
}

/// The decimal digit of a number below ten.
pub open spec fn digit(n: nat) -> char {
    (('0' as u32) + n) as char
}

/// A number in decimal.
pub open spec fn decimal(n: nat) -> Seq<char>
    decreases n,
{
    if n < 10 {
        seq![digit(n)]
    } else {
        decimal(n / 10).push(digit(n % 10))
    }
}

/// Different numbers differ in decimal.
pub proof fn lemma_decimal_injective(a: nat, b: nat)
    requires
        a != b,
    ensures
        decimal(a) != decimal(b),
    decreases a + b,
{
    lemma_decimal_length(a);
    lemma_decimal_length(b);
    if decimal(a) == decimal(b) {
        assert(decimal(a).last() == digit(a % 10) && decimal(b).last() == digit(b % 10));
        assert(a % 10 == b % 10);
        if a >= 10 && b >= 10 {
            assert(decimal(a).drop_last() =~= decimal(a / 10));
            assert(decimal(b).drop_last() =~= decimal(b / 10));
            lemma_decimal_injective(a / 10, b / 10);
        }
    }
}

proof fn lemma_decimal_length(n: nat)
    ensures
        decimal(n).len() >= 1,
        n >= 10 ==> decimal(n).len() >= 2,
    decreases n,
{
    if n >= 10 {
        lemma_decimal_length(n / 10);
    }
}

/// A number in decimal.
pub fn decimal_text(n: u64) -> (text: String)
    ensures
        text@ == decimal(n as nat),
    decreases n,
{
    let mut text = if n < 10 {
        String::new()
    } else {
        decimal_text(n / 10)
    };
    let c = match n % 10 {
        0 => '0',
        1 => '1',
        2 => '2',
        3 => '3',
        4 => '4',
        5 => '5',
        6 => '6',
        7 => '7',
        8 => '8',
        _ => '9',
    };
    assert(c == digit((n % 10) as nat));
    text.push(c);
    if n < 10 {
        assert(text@ =~= seq![c]);
    }
    text
}

/// The characters with the Unicode property White_Space.
pub open spec fn is_white_space(c: char) -> bool {
    ||| '\u{9}' <= c <= '\u{d}'
    ||| c == '\u{20}' || c == '\u{85}' || c == '\u{a0}' || c == '\u{1680}'
    ||| '\u{2000}' <= c <= '\u{200a}'
    ||| c == '\u{2028}' || c == '\u{2029}' || c == '\u{202f}' || c == '\u{205f}' || c == '\u{3000}'
}

/// Whether a character is white space.
pub fn white_space(c: char) -> (white: bool)
    ensures
        white == is_white_space(c),
{
    ('\u{9}' <= c && c <= '\u{d}') || c == '\u{20}' || c == '\u{85}' || c == '\u{a0}' || c == '\u{1680}'
        || ('\u{2000}' <= c && c <= '\u{200a}') || c == '\u{2028}' || c == '\u{2029}' || c == '\u{202f}'
        || c == '\u{205f}' || c == '\u{3000}'
}

/// The first place from `i` on that holds no white space, or the end.
pub open spec fn after_white_space(text: Seq<char>, i: int) -> int
    decreases text.len() - i,
{
    if 0 <= i < text.len() && is_white_space(text[i]) {
        after_white_space(text, i + 1)
    } else {
        i
    }
}

/// A text without the white space at its end.
pub open spec fn trimmed_end(text: Seq<char>) -> Seq<char>
    decreases text.len(),
{
    if text.len() > 0 && is_white_space(text.last()) {
        trimmed_end(text.drop_last())
    } else {
        text
    }
}

/// A text without the white space at its beginning and its end.
pub open spec fn trimmed(text: Seq<char>) -> Seq<char> {
    trimmed_end(text.skip(after_white_space(text, 0)))
}

/// White space ends within a text.
pub proof fn lemma_after_white_space(text: Seq<char>, i: int)
    requires
        0 <= i,
    ensures
        i <= after_white_space(text, i),
        i <= text.len() ==> after_white_space(text, i) <= text.len(),
        after_white_space(text, i) < text.len() ==> !is_white_space(text[after_white_space(text, i)]),
    decreases text.len() - i,
{
    if i < text.len() && is_white_space(text[i]) {
        lemma_after_white_space(text, i + 1);
    }
}

/// A text without the white space at its end.
pub fn trim_end(text: &str) -> (result: String)
    ensures
        result@ == trimmed_end(text@),
{
    let chars = chars_of(text);
    let mut n: usize = chars.len();
    assert(text@.take(n as int) =~= text@);
    while n > 0 && white_space(chars[n - 1])
        invariant
            n <= chars@.len(),
            chars@ == text@,
            trimmed_end(text@) == trimmed_end(text@.take(n as int)),
        decreases n,
    {
        assert(text@.take(n as int).drop_last() =~= text@.take(n - 1));
        n = n - 1;
    }
    assert(text@.take(n as int) =~= text@.subrange(0, n as int));
    string_of(&chars, 0, n)
}

/// A text without the white space at its beginning and its end.
pub fn trim(text: &str) -> (result: String)
    ensures
        result@ == trimmed(text@),
{
    let chars = chars_of(text);
    let mut i: usize = 0;
    while i < chars.len() && white_space(chars[i])
        invariant
            i <= chars@.len(),
            chars@ == text@,
            after_white_space(text@, 0) == after_white_space(text@, i as int),
        decreases chars@.len() - i,
    {
        i = i + 1;
    }
    let rest = string_of(&chars, i, chars.len());
    assert(rest@ =~= text@.skip(i as int));
    trim_end(rest.as_str())
}

/// White space is what Unicode has as such: the tab and the line ends of ASCII, the space, and the
/// spaces and separators beyond; nothing else is.
pub proof fn law_white_space_is_that_of_unicode(c: char)
    ensures
        is_white_space(c) == (c == '\t' || c == '\n' || c == '\u{b}' || c == '\u{c}' || c == '\r' || c
            == ' ' || c == '\u{85}' || c == '\u{a0}' || c == '\u{1680}' || c == '\u{2000}' || c
            == '\u{2001}' || c == '\u{2002}' || c == '\u{2003}' || c == '\u{2004}' || c == '\u{2005}'
            || c == '\u{2006}' || c == '\u{2007}' || c == '\u{2008}' || c == '\u{2009}' || c
            == '\u{200a}' || c == '\u{2028}' || c == '\u{2029}' || c == '\u{202f}' || c == '\u{205f}'
            || c == '\u{3000}'),
{
}

/// Trimming takes away the white space on either side of a text, and nothing of the text.
pub proof fn law_trimming_keeps_what_stands_between(before: Seq<char>, text: Seq<char>, behind: Seq<char>)
    requires
        forall|i: int| 0 <= i < before.len() ==> is_white_space(#[trigger] before[i]),
        forall|i: int| 0 <= i < behind.len() ==> is_white_space(#[trigger] behind[i]),
        text.len() > 0 ==> !is_white_space(text[0]) && !is_white_space(text[text.len() - 1]),
    ensures
        trimmed(before + text + behind) == text,
        trimmed_end(text + behind) == text,
{
    let whole = before + text + behind;
    lemma_trimmed_end(text, behind);
    let n = before.len() as int;
    if text.len() > 0 {
        assert forall|k: int| 0 <= k < n implies is_white_space(#[trigger] whole[k]) by {
            assert(whole[k] == before[k]);
        }
        assert(whole[n] == text[0]);
        lemma_white_run(whole, 0, n);
        assert(whole.skip(n) =~= text + behind);
    } else {
        assert forall|k: int| 0 <= k < whole.len() implies is_white_space(#[trigger] whole[k]) by {
            if k < n {
                assert(whole[k] == before[k]);
            } else {
                assert(whole[k] == behind[k - n]);
            }
        }
        lemma_white_run(whole, 0, whole.len() as int);
        assert(whole.skip(whole.len() as int) =~= Seq::empty());
        assert(text =~= Seq::empty());
    }
}

proof fn lemma_white_run(text: Seq<char>, from: int, to: int)
    requires
        0 <= from <= to <= text.len(),
        forall|k: int| from <= k < to ==> is_white_space(#[trigger] text[k]),
        to == text.len() || !is_white_space(text[to]),
    ensures
        after_white_space(text, from) == to,
    decreases to - from,
{
    if from < to {
        lemma_white_run(text, from + 1, to);
    }
}

proof fn lemma_trimmed_end(text: Seq<char>, behind: Seq<char>)
    requires
        forall|i: int| 0 <= i < behind.len() ==> is_white_space(#[trigger] behind[i]),
        text.len() > 0 ==> !is_white_space(text[text.len() - 1]),
    ensures
        trimmed_end(text + behind) == text,
    decreases behind.len(),
{
    let whole = text + behind;
    if behind.len() > 0 {
        assert(whole.last() == behind[behind.len() - 1]);
        assert(whole.drop_last() =~= text + behind.drop_last());
        lemma_trimmed_end(text, behind.drop_last());
    } else {
        assert(whole =~= text);
    }
}

/// The number that digits stand for.
pub open spec fn digits_value(text: Seq<char>) -> int
    decreases text.len(),
{
    if text.len() == 0 {
        0
    } else {
        10 * digits_value(text.drop_last()) + (text.last() as u32 as int - 48)
    }
}

/// A number in decimal is made of digits that stand for it, and no zero stands before another digit.
pub proof fn law_decimals_stand_for_their_number(n: nat)
    ensures
        digits_value(decimal(n)) == n,
        forall|i: int| 0 <= i < decimal(n).len() ==> '0' <= #[trigger] decimal(n)[i] <= '9',
        decimal(n).len() > 1 ==> decimal(n)[0] != '0',
    decreases n,
{
    lemma_decimal_length(n);
    assert(digits_value(Seq::empty()) == 0);
    if n < 10 {
        assert(decimal(n).drop_last() =~= Seq::empty());
    } else {
        law_decimals_stand_for_their_number(n / 10);
        let before = decimal(n / 10);
        assert(decimal(n).drop_last() =~= before);
        assert(decimal(n)[0] == before[0]);
        if before.len() == 1 {
            assert(before.drop_last() =~= Seq::empty());
            assert(digits_value(before) == before[0] as u32 as int - 48);
        }
    }
}

/// Texts are joined in order with the separator between each two and nowhere else.
pub proof fn law_joining_separates_each_two(parts: Seq<Seq<char>>, last: Seq<char>, separator: Seq<char>)
    ensures
        joined(Seq::empty(), separator) == Seq::<char>::empty(),
        joined(seq![last], separator) == last,
        parts.len() > 0 ==> joined(parts.push(last), separator) == joined(parts, separator) + separator
            + last,
{
    assert(parts.push(last).drop_last() =~= parts);
}

} // verus!
