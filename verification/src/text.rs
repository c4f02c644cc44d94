//! Texts as sequences of characters: the step between `str`, `String` and `Vec<char>`.

use vstd::prelude::*;

verus! {

/// `String::push` adds one character at the end of a text.
pub assume_specification[ String::push ](text: &mut String, c: char)
    ensures
        final(text)@ == old(text)@.push(c),
;

/// A text, if there is one, by its view.
pub open spec fn text_view(text: Option<String>) -> Option<Seq<char>> {
    match text {
        Some(text) => Some(text@),
        None => None,
    }
}

/// The characters of a text, in order.
pub fn chars_of(text: &str) -> (chars: Vec<char>)
    ensures
        chars@ == text@,
{
    let mut chars: Vec<char> = Vec::new();
    for c in it: text.chars()
        invariant
            it.seq() == text@,
            chars@ == text@.take(it.index() as int),
    {
        chars.push(c);
    }
    chars
}

/// The text made of the given characters.
pub fn text_of(chars: &Vec<char>) -> (text: String)
    ensures
        text@ == chars@,
{
    let mut text = String::new();
    for i in 0..chars.len()
        invariant
            text@ == chars@.take(i as int),
    {
        text.push(chars[i]);
    }
    text
}

/// The characters from index `from` up to, and not with, index `to`.
pub fn part(chars: &Vec<char>, from: usize, to: usize) -> (r: Vec<char>)
    requires
        from <= to <= chars@.len(),
    ensures
        r@ == chars@.subrange(from as int, to as int),
{
    let mut r: Vec<char> = Vec::new();
    for i in from..to
        invariant
            from <= to <= chars@.len(),
            r@ == chars@.subrange(from as int, i as int),
    {
        r.push(chars[i]);
    }
    r
}

/// Adds the characters of `more` at the end of `chars`.
pub fn extend(chars: &mut Vec<char>, more: &Vec<char>)
    ensures
        final(chars)@ == old(chars)@ + more@,
{
    let ghost before = chars@;
    for i in 0..more.len()
        invariant
            chars@ == before + more@.take(i as int),
    {
        chars.push(more[i]);
    }
    proof {
        assert(more@.take(more@.len() as int) == more@);
    }
}

/// Which characters part a text into segments.
#[derive(Clone, Copy, PartialEq, Eq, Structural, Debug)]
pub enum Separators {
    /// `/` alone.
    Slash,
    /// `\\` alone.
    Backslash,
    /// `/` and `\\`.
    Both,
}

/// `c` parts segments.
pub open spec fn separates(set: Separators, c: char) -> bool {
    match set {
        Separators::Slash => c == '/',
        Separators::Backslash => c == '\\',
        Separators::Both => c == '/' || c == '\\',
    }
}

/// The segments of a text: every separator opens a new one, every other character goes on
/// with the last one. There is always at least one segment, and segments may be empty.
pub open spec fn split(text: Seq<char>, set: Separators) -> Seq<Seq<char>>
    decreases text.len(),
{
    if text.len() == 0 {
        seq![Seq::<char>::empty()]
    } else {
        let before = split(text.drop_last(), set);
        if separates(set, text.last()) {
            before.push(Seq::<char>::empty())
        } else {
            before.drop_last().push(before.last().push(text.last()))
        }
    }
}

/// The texts of `parts` in order, with `between` between every two of them.
pub open spec fn join(parts: Seq<Seq<char>>, between: char) -> Seq<char>
    decreases parts.len(),
{
    if parts.len() == 0 {
        Seq::<char>::empty()
    } else if parts.len() == 1 {
        parts[0]
    } else {
        join(parts.drop_last(), between).push(between) + parts.last()
    }
}

/// The index of the first separator at or after `from`, or the length of the text.
pub open spec fn next_separator(text: Seq<char>, from: int, set: Separators) -> int
    decreases text.len() - from,
{
    if from >= text.len() {
        text.len() as int
    } else if separates(set, text[from]) {
        from
    } else {
        next_separator(text, from + 1, set)
    }
}

/// The index of the last separator before `end`, or -1.
pub open spec fn last_separator(text: Seq<char>, end: int, set: Separators) -> int
    decreases end,
{
    if end <= 0 {
        -1
    } else if separates(set, text[end - 1]) {
        end - 1
    } else {
        last_separator(text, end - 1, set)
    }
}

/// The texts that a list of character vectors holds.
pub open spec fn texts(list: Seq<Vec<char>>) -> Seq<Seq<char>> {
    Seq::new(list.len(), |i: int| list[i]@)
}

/// Whether `c` parts segments.
pub fn is_separator(set: Separators, c: char) -> (r: bool)
    ensures
        r == separates(set, c),
{
    match set {
        Separators::Slash => c == '/',
        Separators::Backslash => c == '\\',
        Separators::Both => c == '/' || c == '\\',
    }
}

/// The index of the first separator at or after `from`, or the length of the text.
pub fn find_separator(text: &Vec<char>, from: usize, set: Separators) -> (r: usize)
    requires
        from <= text@.len(),
    ensures
        r == next_separator(text@, from as int, set),
        from <= r <= text@.len(),
{
    let mut i: usize = from;
    while i < text.len()
        invariant
            from <= i <= text@.len(),
            next_separator(text@, from as int, set) == next_separator(text@, i as int, set),
        decreases text@.len() - i,
    {
        if is_separator(set, text[i]) {
            return i;
        }
        i += 1;
    }
    i
}

/// The segments of a text.
pub fn segments(text: &Vec<char>, set: Separators) -> (r: Vec<Vec<char>>)
    ensures
        texts(r@) == split(text@, set),
{
    let mut done: Vec<Vec<char>> = Vec::new();
    let mut open: Vec<char> = Vec::new();
    for i in 0..text.len()
        invariant
            texts(done@).push(open@) == split(text@.take(i as int), set),
    {
        let c = text[i];
        proof {
            assert(text@.take(i + 1).drop_last() == text@.take(i as int));
            assert(texts(done@).push(open@).drop_last() == texts(done@));
        }
        if is_separator(set, c) {
            let ghost before = texts(done@).push(open@);
            done.push(open);
            proof {
                assert(texts(done@) == before);
            }
            open = Vec::new();
        } else {
            open.push(c);
        }
    }
    proof {
        assert(text@.take(text@.len() as int) == text@);
    }
    let ghost before = texts(done@).push(open@);
    done.push(open);
    proof {
        assert(texts(done@) == before);
    }
    done
}

/// The texts of `parts` in order, with `between` between every two of them.
pub fn joined(parts: &Vec<Vec<char>>, between: char) -> (r: Vec<char>)
    ensures
        r@ == join(texts(parts@), between),
{
    let mut r: Vec<char> = Vec::new();
    for i in 0..parts.len()
        invariant
            r@ == join(texts(parts@).take(i as int), between),
    {
        proof {
            assert(texts(parts@).take(i + 1).drop_last() == texts(parts@).take(i as int));
        }
        if i > 0 {
            r.push(between);
        }
        extend(&mut r, &parts[i]);
    }
    proof {
        assert(texts(parts@).take(parts@.len() as int) == texts(parts@));
    }
    r
}

} // verus!
