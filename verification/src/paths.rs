//! Unix paths as text.

use crate::text::{chars_of, joined, join_texts, same_text, string_of, texts};
use vstd::prelude::*;

verus! {

/// Whether a path starts at the root directory.
pub open spec fn absolute(path: Seq<char>) -> bool {
    path.len() > 0 && path[0] == '/'
}

/// The path `path` seen from `base`.
pub open spec fn path_join(base: Seq<char>, path: Seq<char>) -> Seq<char> {
    if absolute(path) || base.len() == 0 {
        path
    } else if base.last() == '/' {
        base + path
    } else {
        base.push('/') + path
    }
}

/// The first place from `i` on that holds a separator, or the end.
pub open spec fn piece_end(path: Seq<char>, i: int) -> int
    decreases path.len() - i,
{
    if 0 <= i < path.len() && path[i] != '/' {
        piece_end(path, i + 1)
    } else {
        i
    }
}

/// Whether what stands between two separators is a component: it is not empty, and a dot alone
/// counts at the beginning only.
pub open spec fn is_component(path: Seq<char>, from: int, to: int) -> bool {
    from < to && !(to == from + 1 && path[from] == '.' && from > 0)
}

/// Where the components from place `i` on begin and end.
pub open spec fn spans_from(path: Seq<char>, i: int) -> Seq<(int, int)>
    decreases path.len() - i,
    when 0 <= i
{
    let end = piece_end(path, i);
    let here: Seq<(int, int)> = if is_component(path, i, end) {
        seq![(i, end)]
    } else {
        Seq::empty()
    };
    if i < path.len() && end < path.len() {
        proof {
            lemma_piece_end(path, i);
        }
        here + spans_from(path, end + 1)
    } else {
        here
    }
}

/// Where the components of a path begin and end; the root directory is the first one of an
/// absolute path.
pub open spec fn spans(path: Seq<char>) -> Seq<(int, int)> {
    if absolute(path) {
        seq![(0int, 1int)] + spans_from(path, 0)
    } else {
        spans_from(path, 0)
    }
}

/// The components of a path.
pub open spec fn components(path: Seq<char>) -> Seq<Seq<char>> {
    Seq::new(spans(path).len(), |i: int| path.subrange(spans(path)[i].0, spans(path)[i].1))
}

/// Whether `base` leads to `path`: its components are the first ones of `path`.
pub open spec fn starts_with(path: Seq<char>, base: Seq<char>) -> bool {
    components(base).is_prefix_of(components(path))
}

/// What is left of a path without its first `n` components.
pub open spec fn path_rest(path: Seq<char>, n: int) -> Seq<char> {
    if n < spans(path).len() {
        path.subrange(spans(path)[n].0, spans(path).last().1)
    } else {
        Seq::empty()
    }
}

/// What is left of a path below `base`.
pub open spec fn below(path: Seq<char>, base: Seq<char>) -> Option<Seq<char>> {
    if starts_with(path, base) {
        Some(path_rest(path, components(base).len() as int))
    } else {
        None
    }
}

/// The name of the file that a path leads to.
pub open spec fn name_of_file(path: Seq<char>) -> Option<Seq<char>> {
    let parts = components(path);
    if parts.len() > 0 && parts.last() != seq!['/'] && parts.last() != seq!['.'] && parts.last()
        != seq!['.', '.'] {
        Some(parts.last())
    } else {
        None
    }
}

/// The directory that a path stands in.
pub open spec fn directory_of(path: Seq<char>) -> Option<Seq<char>> {
    let n = spans(path).len();
    if n == 0 || components(path).last() == seq!['/'] {
        None
    } else if n == 1 {
        Some(Seq::empty())
    } else {
        Some(path.subrange(spans(path)[0].0, spans(path)[n - 2].1))
    }
}

/// The path written with its components and single separators.
pub open spec fn normalized(path: Seq<char>) -> Seq<char> {
    joined(components(path), seq!['/'])
}

/// Where a piece of a path ends.
pub proof fn lemma_piece_end(path: Seq<char>, i: int)
    requires
        0 <= i,
    ensures
        i <= piece_end(path, i),
        i <= path.len() ==> piece_end(path, i) <= path.len(),
        piece_end(path, i) < path.len() ==> path[piece_end(path, i)] == '/',
        forall|k: int| i <= k < piece_end(path, i) ==> path[k] != '/',
    decreases path.len() - i,
{
    if i < path.len() && path[i] != '/' {
        lemma_piece_end(path, i + 1);
    }
}

/// What the components of a path are: they stand in order and do not overlap.
proof fn lemma_spans_from(path: Seq<char>, i: int)
    requires
        0 <= i <= path.len(),
    ensures
        forall|k: int|
            0 <= k < spans_from(path, i).len() ==> i <= (#[trigger] spans_from(path, i)[k]).0
                < spans_from(path, i)[k].1 <= path.len(),
        forall|k: int, l: int|
            0 <= k < l < spans_from(path, i).len() ==> (#[trigger] spans_from(path, i)[k]).1
                <= (#[trigger] spans_from(path, i)[l]).0,
    decreases path.len() - i,
{
    let end = piece_end(path, i);
    lemma_piece_end(path, i);
    if i < path.len() && end < path.len() {
        lemma_spans_from(path, end + 1);
        let here: Seq<(int, int)> = if is_component(path, i, end) {
            seq![(i, end)]
        } else {
            Seq::empty()
        };
        let rest = spans_from(path, end + 1);
        assert(spans_from(path, i) == here + rest);
        assert forall|k: int| 0 <= k < spans_from(path, i).len() implies i <= (
        #[trigger] spans_from(path, i)[k]).0 < spans_from(path, i)[k].1 <= path.len() by {
            if k >= here.len() {
                assert(spans_from(path, i)[k] == rest[k - here.len()]);
            }
        }
        assert forall|k: int, l: int| 0 <= k < l < spans_from(path, i).len() implies (
        #[trigger] spans_from(path, i)[k]).1 <= (#[trigger] spans_from(path, i)[l]).0 by {
            assert(spans_from(path, i)[l] == rest[l - here.len()]);
            if k >= here.len() {
                assert(spans_from(path, i)[k] == rest[k - here.len()]);
            }
        }
    }
}

proof fn lemma_spans(path: Seq<char>)
    ensures
        forall|k: int|
            0 <= k < spans(path).len() ==> 0 <= (#[trigger] spans(path)[k]).0 < spans(path)[k].1
                <= path.len(),
        forall|k: int, l: int|
            0 <= k < l < spans(path).len() ==> (#[trigger] spans(path)[k]).1 <= (
            #[trigger] spans(path)[l]).0,
{
    lemma_spans_from(path, 0);
    if absolute(path) {
        let rest = spans_from(path, 0);
        assert(piece_end(path, 0) == 0);
        assert forall|k: int| 0 <= k < rest.len() implies 1 <= (#[trigger] rest[k]).0 by {
            if path.len() > 0 {
                lemma_spans_from(path, 1);
                assert(rest =~= spans_from(path, 1));
            }
        }
        assert forall|k: int| 0 <= k < spans(path).len() implies 0 <= (#[trigger] spans(path)[k]).0
            < spans(path)[k].1 <= path.len() by {
            if k > 0 {
                assert(spans(path)[k] == rest[k - 1]);
            }
        }
        assert forall|k: int, l: int| 0 <= k < l < spans(path).len() implies (
        #[trigger] spans(path)[k]).1 <= (#[trigger] spans(path)[l]).0 by {
            assert(spans(path)[l] == rest[l - 1]);
            if k > 0 {
                assert(spans(path)[k] == rest[k - 1]);
            }
        }
    }
}

/// Whether a path starts at the root directory.
pub fn is_absolute(path: &str) -> (result: bool)
    ensures
        result == absolute(path@),
{
    let chars = chars_of(path);
    chars.len() > 0 && chars[0] == '/'
}

/// The path `path` seen from `base`.
pub fn join(base: &str, path: &str) -> (result: String)
    ensures
        result@ == path_join(base@, path@),
{
    let chars = chars_of(base);
    if is_absolute(path) || chars.len() == 0 {
        return path.to_owned();
    }
    let mut result = base.to_owned();
    if chars[chars.len() - 1] != '/' {
        result.push('/');
    }
    result.append(path);
    result
}

/// The path `path`, from `base` where it is not absolute.
pub fn absolutize(base: &str, path: &str) -> (result: String)
    ensures
        result@ == path_join(base@, path@),
{
    if is_absolute(path) {
        path.to_owned()
    } else {
        join(base, path)
    }
}

spec fn int_spans(list: Seq<(usize, usize)>) -> Seq<(int, int)> {
    Seq::new(list.len(), |i: int| (list[i].0 as int, list[i].1 as int))
}

/// Where the components of a path begin and end.
fn find_spans(path: &Vec<char>) -> (list: Vec<(usize, usize)>)
    ensures
        int_spans(list@) == spans(path@),
{
    let mut list: Vec<(usize, usize)> = Vec::new();
    if path.len() > 0 && path[0] == '/' {
        list.push((0, 1));
    }
    let ghost head = int_spans(list@);
    assert(head + spans_from(path@, 0) =~= spans(path@));
    let mut i: usize = 0;
    loop
        invariant
            i <= path@.len(),
            int_spans(list@) + spans_from(path@, i as int) == spans(path@),
        decreases path@.len() - i,
    {
        let mut end: usize = i;
        while end < path.len() && path[end] != '/'
            invariant
                i <= end <= path@.len(),
                piece_end(path@, i as int) == piece_end(path@, end as int),
            decreases path@.len() - end,
        {
            end = end + 1;
        }
        let ghost before = int_spans(list@);
        let ghost here: Seq<(int, int)> = if is_component(path@, i as int, end as int) {
            seq![(i as int, end as int)]
        } else {
            Seq::empty()
        };
        if i < end && !(end == i + 1 && path[i] == '.' && i > 0) {
            list.push((i, end));
        }
        assert(int_spans(list@) =~= before + here);
        if end >= path.len() {
            assert(int_spans(list@) =~= spans(path@));
            return list;
        }
        assert(spans_from(path@, i as int) == here + spans_from(path@, end as int + 1));
        assert(before + (here + spans_from(path@, end as int + 1)) =~= int_spans(list@) + spans_from(
            path@,
            end as int + 1,
        ));
        i = end + 1;
    }
}

/// The components of a path.
pub fn components_of(path: &str) -> (parts: Vec<String>)
    ensures
        texts(parts@) == components(path@),
{
    let chars = chars_of(path);
    let list = find_spans(&chars);
    let mut parts: Vec<String> = Vec::new();
    let mut i: usize = 0;
    while i < list.len()
        invariant
            i <= list@.len(),
            chars@ == path@,
            int_spans(list@) == spans(path@),
            parts@.len() == i,
            forall|k: int| 0 <= k < i ==> (#[trigger] parts@[k])@ == components(path@)[k],
        decreases list@.len() - i,
    {
        proof {
            lemma_spans(path@);
            assert(spans(path@)[i as int] == int_spans(list@)[i as int]);
        }
        parts.push(string_of(&chars, list[i].0, list[i].1));
        i = i + 1;
    }
    assert(list@.len() == int_spans(list@).len());
    assert(texts(parts@) =~= components(path@));
    parts
}

/// What is left of a path below `base`, `None` where `base` does not lead to it.
pub fn strip_prefix(path: &str, base: &str) -> (rest: Option<String>)
    ensures
        match rest {
            Some(text) => below(path@, base@) == Some(text@),
            None => below(path@, base@) is None,
        },
{
    let parts = components_of(path);
    let first = components_of(base);
    proof {
        assert(texts(parts@).len() == parts@.len());
        assert(texts(first@).len() == first@.len());
    }
    if first.len() > parts.len() {
        return None;
    }
    let mut i: usize = 0;
    while i < first.len()
        invariant
            i <= first@.len() <= parts@.len(),
            texts(parts@) == components(path@),
            texts(first@) == components(base@),
            forall|k: int| 0 <= k < i ==> components(base@)[k] == components(path@)[k],
        decreases first@.len() - i,
    {
        proof {
            assert(texts(parts@)[i as int] == parts@[i as int]@);
            assert(texts(first@)[i as int] == first@[i as int]@);
        }
        if !same_text(first[i].as_str(), parts[i].as_str()) {
            assert(components(base@)[i as int] != components(path@)[i as int]);
            return None;
        }
        i = i + 1;
    }
    assert(components(base@) =~= components(path@).take(components(base@).len() as int));
    let chars = chars_of(path);
    let list = find_spans(&chars);
    let n: usize = first.len();
    proof {
        lemma_spans(path@);
        assert(int_spans(list@).len() == list@.len());
    }
    if n < list.len() {
        proof {
            let last = list@.len() - 1;
            assert(int_spans(list@)[n as int] == spans(path@)[n as int]);
            assert(int_spans(list@)[last] == spans(path@)[last]);
            if n < last {
                assert(spans(path@)[n as int].1 <= spans(path@)[last].0);
            }
        }
        Some(string_of(&chars, list[n].0, list[list.len() - 1].1))
    } else {
        Some(String::new())
    }
}

/// The name of the file that a path leads to.
pub fn file_name(path: &str) -> (name: Option<String>)
    ensures
        match name {
            Some(text) => name_of_file(path@) == Some(text@),
            None => name_of_file(path@) is None,
        },
{
    let parts = components_of(path);
    proof {
        assert(texts(parts@).len() == parts@.len());
        reveal_strlit("/");
        reveal_strlit(".");
        reveal_strlit("..");
        assert("/"@ =~= seq!['/']);
        assert("."@ =~= seq!['.']);
        assert(".."@ =~= seq!['.', '.']);
    }
    if parts.len() == 0 {
        return None;
    }
    let last = &parts[parts.len() - 1];
    assert(texts(parts@).last() == last@);
    if same_text(last.as_str(), "/") || same_text(last.as_str(), ".") || same_text(last.as_str(), "..") {
        None
    } else {
        Some(last.clone())
    }
}

/// The directory that a path stands in.
pub fn parent(path: &str) -> (directory: Option<String>)
    ensures
        match directory {
            Some(text) => directory_of(path@) == Some(text@),
            None => directory_of(path@) is None,
        },
{
    let parts = components_of(path);
    let chars = chars_of(path);
    let list = find_spans(&chars);
    proof {
        assert(texts(parts@).len() == parts@.len());
        assert(int_spans(list@).len() == list@.len());
        reveal_strlit("/");
        assert("/"@ =~= seq!['/']);
    }
    let n: usize = parts.len();
    if n == 0 {
        return None;
    }
    assert(texts(parts@).last() == parts@[n - 1]@);
    if same_text(parts[n - 1].as_str(), "/") {
        return None;
    }
    if n == 1 {
        return Some(String::new());
    }
    proof {
        lemma_spans(path@);
        assert(int_spans(list@)[0] == spans(path@)[0]);
        assert(int_spans(list@)[n - 2] == spans(path@)[n - 2]);
        if n > 2 {
            assert(spans(path@)[0].1 <= spans(path@)[n - 2].0);
        }
    }
    Some(string_of(&chars, list[0].0, list[n - 2].1))
}

/// The path written with its components and single separators.
pub fn normalize_path(path: &str) -> (text: String)
    ensures
        text@ == normalized(path@),
{
    proof {
        reveal_strlit("/");
        assert("/"@ =~= seq!['/']);
    }
    join_texts(&components_of(path), "/")
}

/// Whether two paths have the same components.
pub fn same_path(a: &str, b: &str) -> (same: bool)
    ensures
        same == (components(a@) == components(b@)),
{
    let left = components_of(a);
    let right = components_of(b);
    proof {
        assert(texts(left@).len() == left@.len());
        assert(texts(right@).len() == right@.len());
    }
    if left.len() != right.len() {
        return false;
    }
    let mut i: usize = 0;
    while i < left.len()
        invariant
            i <= left@.len() == right@.len(),
            texts(left@) == components(a@),
            texts(right@) == components(b@),
            forall|k: int| 0 <= k < i ==> components(a@)[k] == components(b@)[k],
        decreases left@.len() - i,
    {
        proof {
            assert(texts(left@)[i as int] == left@[i as int]@);
            assert(texts(right@)[i as int] == right@[i as int]@);
        }
        if !same_text(left[i].as_str(), right[i].as_str()) {
            assert(components(a@)[i as int] != components(b@)[i as int]);
            return false;
        }
        i = i + 1;
    }
    assert(components(a@) =~= components(b@));
    true
}

/// Whether the first component of a path is a dot.
pub open spec fn begins_with_dot(path: Seq<char>) -> bool {
    components(path).len() > 0 && components(path)[0] == seq!['.']
}

/// The components of a path stay where they are when more follows behind a separator.
proof fn lemma_spans_of_head(head: Seq<char>, tail: Seq<char>, i: int)
    requires
        0 <= i <= head.len(),
    ensures
        spans_from(head.push('/') + tail, i) == spans_from(head, i) + spans_from(
            head.push('/') + tail,
            head.len() as int + 1,
        ),
    decreases head.len() - i,
{
    let whole = head.push('/') + tail;
    let end = piece_end(head, i);
    lemma_piece_end(head, i);
    lemma_piece_end(whole, i);
    lemma_end_of_head(head, tail, i);
    let rest = spans_from(whole, head.len() as int + 1);
    if end < head.len() {
        lemma_spans_of_head(head, tail, end + 1);
    }
    assert(spans_from(whole, i) =~= spans_from(head, i) + rest);
}

/// A piece of a path ends where it did when more follows behind a separator.
proof fn lemma_end_of_head(head: Seq<char>, tail: Seq<char>, i: int)
    requires
        0 <= i <= head.len(),
    ensures
        piece_end(head.push('/') + tail, i) == piece_end(head, i),
    decreases head.len() - i,
{
    let whole = head.push('/') + tail;
    if i < head.len() {
        assert(whole[i] == head[i]);
        if head[i] != '/' {
            lemma_end_of_head(head, tail, i + 1);
        }
    } else {
        assert(whole[i] == '/');
    }
}

/// A piece of a path ends as far on as it did when more stands before it.
proof fn lemma_end_of_tail(whole: Seq<char>, tail: Seq<char>, p: int, i: int)
    requires
        0 <= p <= whole.len(),
        tail == whole.skip(p),
        0 <= i,
    ensures
        piece_end(whole, p + i) == p + piece_end(tail, i),
    decreases tail.len() - i,
{
    if i < tail.len() {
        assert(whole[p + i] == tail[i]);
        if tail[i] != '/' {
            lemma_end_of_tail(whole, tail, p, i + 1);
        }
    }
}

/// Places that are moved on by `p`.
spec fn moved(list: Seq<(int, int)>, p: int) -> Seq<(int, int)> {
    Seq::new(list.len(), |k: int| (list[k].0 + p, list[k].1 + p))
}

/// The components of a path move on when more stands before them, except a dot at the beginning,
/// which counts there only.
proof fn lemma_spans_of_tail(whole: Seq<char>, tail: Seq<char>, p: int, i: int)
    requires
        0 < p <= whole.len(),
        tail == whole.skip(p),
        0 <= i <= tail.len(),
        i > 0 || !(piece_end(tail, 0) == 1 && tail[0] == '.'),
    ensures
        spans_from(whole, p + i) == moved(spans_from(tail, i), p),
    decreases tail.len() - i,
{
    lemma_end_of_tail(whole, tail, p, i);
    lemma_piece_end(tail, i);
    let end = piece_end(tail, i);
    if i < end {
        assert(whole[p + i] == tail[i]);
    }
    assert(is_component(whole, p + i, p + end) == is_component(tail, i, end));
    if end < tail.len() {
        lemma_spans_of_tail(whole, tail, p, end + 1);
    }
    assert(spans_from(whole, p + i) =~= moved(spans_from(tail, i), p));
}

/// What stands behind the last component of a path adds none.
proof fn lemma_spans_of_take(path: Seq<char>, i: int, e: int)
    requires
        0 <= i <= e <= path.len(),
        spans_from(path, i).len() > 0,
        spans_from(path, i).last().1 == e,
    ensures
        spans_from(path.take(e), i) == spans_from(path, i),
    decreases path.len() - i,
{
    let taken = path.take(e);
    let end = piece_end(path, i);
    lemma_piece_end(path, i);
    lemma_spans_from(path, i);
    if end < path.len() {
        lemma_spans_from(path, end + 1);
        let rest = spans_from(path, end + 1);
        if rest.len() > 0 {
            assert(rest.last() == spans_from(path, i).last());
            assert(end + 1 <= e);
        } else {
            assert(end == e);
        }
    }
    assert(end <= e);
    lemma_end_of_take(path, e, i);
    if end < e {
        assert(taken[end] == path[end]);
        if spans_from(path, end + 1).len() > 0 {
            lemma_spans_of_take(path, end + 1, e);
        }
    }
    if i < end {
        assert(taken[i] == path[i]);
    }
    assert(spans_from(taken, i) =~= spans_from(path, i));
}

/// A piece that ends before a path is cut off ends there still.
proof fn lemma_end_of_take(path: Seq<char>, e: int, i: int)
    requires
        0 <= i <= e <= path.len(),
        piece_end(path, i) <= e,
    ensures
        piece_end(path.take(e), i) == piece_end(path, i),
    decreases e - i,
{
    lemma_piece_end(path, i);
    if i < e {
        assert(path.take(e)[i] == path[i]);
        if path[i] != '/' {
            lemma_end_of_take(path, e, i + 1);
        }
    }
}

/// Where the first component of a relative path stands.
proof fn lemma_first_span(path: Seq<char>)
    requires
        path.len() > 0,
        !absolute(path),
    ensures
        0 < piece_end(path, 0) <= path.len(),
        spans(path).len() > 0,
        spans(path)[0] == (0int, piece_end(path, 0)),
        begins_with_dot(path) == (piece_end(path, 0) == 1 && path[0] == '.'),
{
    lemma_piece_end(path, 0);
    assert(piece_end(path, 0) == piece_end(path, 1));
    lemma_piece_end(path, 1);
    assert(is_component(path, 0, piece_end(path, 0)));
    let first = components(path)[0];
    assert(first == path.subrange(0, piece_end(path, 0)));
    assert(first[0] == path[0]);
    if piece_end(path, 0) == 1 && path[0] == '.' {
        assert(first =~= seq!['.']);
    }
}

/// Where the components of a joined path stand.
proof fn lemma_spans_of_join(base: Seq<char>, path: Seq<char>) -> (p: int)
    requires
        base.len() > 0,
        !absolute(path),
        !begins_with_dot(path),
    ensures
        base.len() <= p <= path_join(base, path).len(),
        path_join(base, path).skip(p) == path,
        path_join(base, path).take(base.len() as int) == base,
        spans(path_join(base, path)) == spans(base) + moved(spans(path), p),
{
    let whole = path_join(base, path);
    let head = if base.last() == '/' {
        base.drop_last()
    } else {
        base
    };
    let p = head.len() as int + 1;
    assert(whole =~= head.push('/') + path);
    assert(whole.skip(p) =~= path);
    assert(whole.take(base.len() as int) =~= base);
    lemma_spans_of_head(head, path, 0);
    if path.len() > 0 {
        lemma_first_span(path);
    } else {
        assert(piece_end(path, 0) == 0);
    }
    lemma_spans_of_tail(whole, path, p, 0);
    if base.last() == '/' {
        assert(base =~= head.push('/') + Seq::<char>::empty());
        lemma_spans_of_head(head, Seq::empty(), 0);
        assert(spans_from(base, p) =~= Seq::empty());
        assert(spans_from(head, 0) + Seq::<(int, int)>::empty() =~= spans_from(head, 0));
    }
    assert(whole[0] == base[0]);
    assert(spans(whole) =~= spans(base) + moved(spans(path), p));
    p
}

/// The components of a joined path.
proof fn lemma_components_of_join(base: Seq<char>, path: Seq<char>)
    requires
        base.len() > 0,
        !absolute(path),
        !begins_with_dot(path),
    ensures
        components(path_join(base, path)) == components(base) + components(path),
{
    let whole = path_join(base, path);
    let p = lemma_spans_of_join(base, path);
    lemma_spans(base);
    lemma_spans(path);
    let first = spans(base);
    let behind = spans(path);
    assert forall|k: int| 0 <= k < spans(whole).len() implies #[trigger] components(whole)[k] == (
    components(base) + components(path))[k] by {
        if k < first.len() {
            let (from, to) = first[k];
            assert(spans(whole)[k] == first[k]);
            assert(whole.subrange(from, to) =~= whole.take(base.len() as int).subrange(from, to));
        } else {
            let (from, to) = behind[k - first.len()];
            assert(spans(whole)[k] == (from + p, to + p));
            assert(whole.subrange(from + p, to + p) =~= whole.skip(p).subrange(from, to));
        }
    }
    assert(components(whole) =~= components(base) + components(path));
}

/// What stands behind the last component of a path does not matter.
proof fn lemma_components_of_take(path: Seq<char>)
    requires
        path.len() > 0,
        !absolute(path),
    ensures
        spans(path).len() > 0,
        0 < spans(path).last().1 <= path.len(),
        components(path.take(spans(path).last().1)) == components(path),
{
    lemma_first_span(path);
    lemma_spans(path);
    let behind = spans(path);
    let e = behind.last().1;
    let rest = path.take(e);
    lemma_spans_of_take(path, 0, e);
    assert(rest[0] == path[0]);
    assert forall|k: int| 0 <= k < behind.len() implies #[trigger] components(rest)[k] == components(
        path,
    )[k] by {
        let (from, to) = behind[k];
        assert(to <= e) by {
            if k < behind.len() - 1 {
                assert(behind[k].1 <= behind[behind.len() - 1].0);
            }
        }
        assert(rest.subrange(from, to) =~= path.subrange(from, to));
    }
    assert(components(rest) =~= components(path));
}

/// A relative path that is joined to a directory stands below it: its components follow those of
/// the directory, and seen from the directory it is that path again, but for separators and dots
/// at its end. Left out is a path that begins with a dot, since the dot is lost behind a
/// directory.
pub proof fn law_joined_paths_stand_below_their_base(base: Seq<char>, path: Seq<char>)
    requires
        base.len() > 0,
        !absolute(path),
        !begins_with_dot(path),
    ensures
        components(path_join(base, path)) == components(base) + components(path),
        starts_with(path_join(base, path), base),
        below(path_join(base, path), base) is Some,
        components(below(path_join(base, path), base)->0) == components(path),
        normalized(below(path_join(base, path), base)->0) == normalized(path),
{
    let whole = path_join(base, path);
    lemma_components_of_join(base, path);
    assert(components(whole).take(components(base).len() as int) =~= components(base));
    let n = components(base).len() as int;
    let rest = path_rest(whole, n);
    let p = lemma_spans_of_join(base, path);
    let behind = spans(path);
    if path.len() > 0 {
        lemma_first_span(path);
        lemma_components_of_take(path);
        let e = behind.last().1;
        assert(spans(whole)[n] == moved(behind, p)[0]);
        assert(spans(whole).last() == moved(behind, p).last());
        assert(rest =~= whole.skip(p).take(e));
    } else {
        assert(piece_end(path, 0) == 0);
        assert(behind =~= Seq::empty());
        assert(rest =~= path);
    }
}

/// A name without separators is a path of one component, and the root directory is one.
pub proof fn law_names_are_one_component(name: Seq<char>)
    requires
        name.len() > 0,
        forall|i: int| 0 <= i < name.len() ==> #[trigger] name[i] != '/',
    ensures
        components(name) == seq![name],
        !absolute(name),
        spans(name) == seq![(0int, name.len() as int)],
        components(seq!['/']) == seq![seq!['/']],
{
    lemma_end_at(name, 0, name.len() as int);
    assert(spans_from(name, 0) =~= seq![(0int, name.len() as int)]);
    assert(name.subrange(0, name.len() as int) =~= name);
    assert(components(name) =~= seq![name]);
    let root = seq!['/'];
    assert(piece_end(root, 0) == 0);
    assert(piece_end(root, 1) == 1);
    assert(spans_from(root, 1) =~= Seq::empty());
    assert(spans_from(root, 0) =~= Seq::empty());
    assert(spans(root) =~= seq![(0int, 1int)]);
    assert(root.subrange(0, 1) =~= root);
    assert(components(root) =~= seq![root]);
}

proof fn lemma_end_at(path: Seq<char>, i: int, to: int)
    requires
        0 <= i <= to <= path.len(),
        forall|k: int| i <= k < to ==> #[trigger] path[k] != '/',
        to == path.len() || path[to] == '/',
    ensures
        piece_end(path, i) == to,
    decreases to - i,
{
    if i < to {
        lemma_end_at(path, i + 1, to);
    }
}

/// A path that is joined to a directory is an absolute path as it is, and any other behind the
/// directory with one separator between them.
pub proof fn law_joining_puts_one_separator(base: Seq<char>, path: Seq<char>)
    ensures
        path.len() > 0 && path[0] == '/' ==> path_join(base, path) == path,
        base.len() == 0 ==> path_join(base, path) == path,
        base.len() > 0 && base[base.len() - 1] != '/' && (path.len() == 0 || path[0] != '/')
            ==> path_join(base, path) == base + seq!['/'] + path,
        base.len() > 0 && base[base.len() - 1] == '/' && (path.len() == 0 || path[0] != '/')
            ==> path_join(base, path) == base + path,
{
    assert(base.push('/') =~= base + seq!['/']);
}

/// A path that is not empty has a component.
pub proof fn lemma_has_components(path: Seq<char>)
    requires
        path.len() > 0,
    ensures
        components(path).len() > 0,
{
    if !absolute(path) {
        lemma_first_span(path);
    }
}

/// Whether a directory is written to its end: not with a separator or a lone dot behind it.
pub open spec fn is_written_out(base: Seq<char>) -> bool {
    base == seq!['/'] || (base.len() > 0 && base[base.len() - 1] != '/' && !(base.len() > 1
        && base[base.len() - 1] == '.' && base[base.len() - 2] == '/'))
}

proof fn lemma_last_span(path: Seq<char>, i: int)
    requires
        0 <= i < path.len(),
        path[path.len() - 1] != '/',
        !(path.len() > 1 && path[path.len() - 1] == '.' && path[path.len() - 2] == '/'),
        i == 0 || path[i - 1] == '/',
    ensures
        spans_from(path, i).len() > 0,
        spans_from(path, i).last().1 == path.len(),
    decreases path.len() - i,
{
    lemma_piece_end(path, i);
    let end = piece_end(path, i);
    if end < path.len() {
        assert(end + 1 < path.len());
        lemma_last_span(path, end + 1);
        let rest = spans_from(path, end + 1);
        assert(spans_from(path, i).last() == rest.last());
    } else {
        assert(end > i);
        assert(is_component(path, i, end));
    }
}

/// A file in a directory has its own name, and the directory is the one that it stands in.
pub proof fn law_files_have_their_name_and_directory(base: Seq<char>, name: Seq<char>)
    requires
        is_written_out(base),
        name.len() > 0,
        forall|i: int| 0 <= i < name.len() ==> #[trigger] name[i] != '/',
        name != seq!['.'],
        name != seq!['.', '.'],
    ensures
        name_of_file(path_join(base, name)) == Some(name),
        directory_of(path_join(base, name)) == Some(base),
        name_of_file(name) == Some(name),
        directory_of(name) == Some(Seq::<char>::empty()),
{
    law_names_are_one_component(name);
    assert(!begins_with_dot(name)) by {
        assert(components(name)[0] == name);
    }
    let whole = path_join(base, name);
    lemma_components_of_join(base, name);
    assert(components(whole).last() == name);
    assert(name != seq!['/']) by {
        assert(name[0] != '/');
    }
    let p = lemma_spans_of_join(base, name);
    if base == seq!['/'] {
        assert(piece_end(base, 0) == 0);
        assert(piece_end(base, 1) == 1);
        assert(spans_from(base, 1) =~= Seq::empty());
        assert(spans_from(base, 0) =~= Seq::empty());
        assert(spans(base) =~= seq![(0int, 1int)]);
    } else {
        lemma_last_span(base, 0);
        if absolute(base) {
            assert(spans(base).last() == spans_from(base, 0).last());
        } else {
            lemma_first_span(base);
        }
    }
    assert(spans(base).len() > 0 && spans(base).last().1 == base.len() && spans(base)[0].0 == 0);
    let n = spans(whole).len();
    assert(spans(whole)[n - 2] == spans(base).last());
    assert(spans(whole)[0] == spans(base)[0]);
    assert(whole.subrange(0, base.len() as int) =~= whole.take(base.len() as int));
    assert(components(name).last() == name);
    assert(spans(name).len() == 1);
}

/// A changed file is told with single separators: the path of its directory, told so, a separator,
/// and its name.
pub proof fn law_paths_are_told_with_single_separators(base: Seq<char>, name: Seq<char>)
    requires
        base.len() > 0,
        base[0] != '/',
        name.len() > 0,
        forall|i: int| 0 <= i < name.len() ==> #[trigger] name[i] != '/',
        name != seq!['.'],
    ensures
        normalized(name) == name,
        normalized(path_join(base, name)) == normalized(base) + seq!['/'] + name,
{
    law_names_are_one_component(name);
    assert(!begins_with_dot(name)) by {
        assert(components(name)[0] == name);
    }
    lemma_components_of_join(base, name);
    lemma_has_components(base);
    let parts = components(base) + seq![name];
    assert(parts =~= components(base).push(name));
    assert(parts.drop_last() =~= components(base));
    assert(parts.last() == name);
}

} // verus!
