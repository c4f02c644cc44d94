//! The full form of a Windows path: absolute, with `.` and `..` resolved and with single
//! backslashes.
//!
//! Windows makes a path full without looking at the disk, yet not by the text alone: a
//! relative path depends on the current directory, and trailing dots and spaces, device names
//! and overlong paths are treated differently by different versions. The paths on which
//! nothing but the text counts are the settled ones. They are resolved here; of the others
//! the operating system has the last word.

use vstd::prelude::*;

use crate::text::{chars_of, extend, is_separator, joined, part, segments, text_of, Separators};
use crate::text::{join, separates, split, text_view, texts};
use crate::windows_path::{dot, dot_dot, drive_at, prefix_kind, separator_at};
use crate::windows_path::{
    is_dot, is_dot_dot, is_drive_at, is_separator_at, read_prefix, PrefixKind,
};

verus! {

/// The longest path that Windows takes, in units of UTF-16: it allows 32767, and one of these
/// is the zero that ends a text.
pub const LONGEST: usize = 32766;

/// The units of UTF-16 that a character takes.
pub open spec fn char_units(c: char) -> nat {
    if c as u32 <= 0xffff {
        1
    } else {
        2
    }
}

/// The units of UTF-16 that a text takes.
pub open spec fn units(text: Seq<char>) -> nat
    decreases text.len(),
{
    if text.len() == 0 {
        0
    } else {
        units(text.drop_last()) + char_units(text.last())
    }
}

/// `c` is the letter `lower`, in either case.
pub open spec fn same_letter(c: char, lower: char) -> bool {
    c == lower || ('A' <= c <= 'Z' && c as u32 + 32 == lower as u32)
}

/// `text` is the word `lower`, in any case.
pub open spec fn same_word(text: Seq<char>, lower: Seq<char>) -> bool {
    text.len() == lower.len() && forall|i: int|
        0 <= i < text.len() ==> same_letter(#[trigger] text[i], lower[i])
}

/// `c` can end the part of a name that tells devices from files.
pub open spec fn ends_stem(c: char) -> bool {
    c == '.' || c == ':' || c == ' '
}

/// Where the part of a name that tells devices from files ends, looking from `from` on.
pub open spec fn stem_end(name: Seq<char>, from: int) -> int
    decreases name.len() - from,
{
    if from >= name.len() {
        name.len() as int
    } else if ends_stem(name[from]) {
        from
    } else {
        stem_end(name, from + 1)
    }
}

/// `c` is one of the digits that number a port.
pub open spec fn port_digit(c: char) -> bool {
    '0' <= c <= '9' || c == '\u{b9}' || c == '\u{b2}' || c == '\u{b3}'
}

/// The name is, or was in some version of Windows, that of a device.
pub open spec fn device_name(name: Seq<char>) -> bool {
    let stem = name.take(stem_end(name, 0));
    ||| same_word(stem, "con"@)
    ||| same_word(stem, "prn"@)
    ||| same_word(stem, "aux"@)
    ||| same_word(stem, "nul"@)
    ||| same_word(stem, "conin$"@)
    ||| same_word(stem, "conout$"@)
    ||| stem.len() == 4 && port_digit(stem[3]) && (same_word(stem.take(3), "com"@) || same_word(
        stem.take(3),
        "lpt"@,
    ))
}

/// A segment that every version of Windows treats alike: an empty one, `.`, `..`, or a name
/// that ends in neither a dot nor a space and is not that of a device.
pub open spec fn plain_segment(segment: Seq<char>) -> bool {
    ||| segment.len() == 0
    ||| segment == dot()
    ||| segment == dot_dot()
    ||| segment.last() != '.' && segment.last() != ' ' && !device_name(segment)
}

/// A path from the root of a drive on, made of plain segments.
pub open spec fn plain_path(path: Seq<char>) -> bool {
    &&& units(path) <= LONGEST
    &&& drive_at(path, 0)
    &&& separator_at(path, 2)
    &&& !path.contains('\0')
    &&& forall|i: int|
        0 <= i < split(path.skip(3), Separators::Both).len() ==> plain_segment(
            #[trigger] split(path.skip(3), Separators::Both)[i],
        )
}

/// The full form of the path depends on its text alone.
pub open spec fn settled(path: Seq<char>) -> bool {
    prefix_kind(path) == PrefixKind::Verbatim || plain_path(path)
}

/// The names that are left of a list of segments where `..` takes away the name before it.
pub open spec fn resolved_names(list: Seq<Seq<char>>) -> Seq<Seq<char>>
    decreases list.len(),
{
    if list.len() == 0 {
        Seq::empty()
    } else {
        let before = resolved_names(list.drop_last());
        if list.last().len() == 0 || list.last() == dot() {
            before
        } else if list.last() == dot_dot() {
            if before.len() > 0 {
                before.drop_last()
            } else {
                before
            }
        } else {
            before.push(list.last())
        }
    }
}

/// The full form of a settled path. A verbatim path is full as it is. Another one is its
/// drive and the names that are left of it; a separator at its end is kept, except that the
/// root of the drive has just one.
pub open spec fn full_form(path: Seq<char>) -> Seq<char> {
    if prefix_kind(path) == PrefixKind::Verbatim {
        path
    } else {
        let names = resolved_names(split(path.skip(3), Separators::Both));
        let full = path.take(2).push('\\') + join(names, '\\');
        if names.len() > 0 && separates(Separators::Both, path.last()) {
            full.push('\\')
        } else {
            full
        }
    }
}

/// A part of a text takes no more units than the text.
proof fn units_of_take(text: Seq<char>, n: int)
    requires
        0 <= n <= text.len(),
    ensures
        units(text.take(n)) <= units(text),
    decreases text.len(),
{
    if n < text.len() {
        units_of_take(text.drop_last(), n);
        assert(text.drop_last().take(n) == text.take(n));
    } else {
        assert(text.take(n) == text);
    }
}

/// Whether a path is no longer than Windows takes.
fn is_short(path: &Vec<char>) -> (r: bool)
    ensures
        r == (units(path@) <= LONGEST),
{
    let mut n: usize = 0;
    for i in 0..path.len()
        invariant
            n == units(path@.take(i as int)),
            n <= LONGEST,
    {
        proof {
            assert(path@.take(i + 1).drop_last() == path@.take(i as int));
            units_of_take(path@, i + 1);
        }
        n = n + if path[i] as u32 <= 0xffff {
            1
        } else {
            2
        };
        if n > LONGEST {
            return false;
        }
    }
    proof {
        assert(path@.take(path@.len() as int) == path@);
    }
    true
}

fn is_word(text: &Vec<char>, len: usize, lower: &str) -> (r: bool)
    requires
        len <= text@.len(),
    ensures
        r == same_word(text@.take(len as int), lower@),
{
    let word = chars_of(lower);
    if len != word.len() {
        return false;
    }
    for i in 0..len
        invariant
            len == word@.len(),
            len <= text@.len(),
            word@ == lower@,
            forall|j: int| 0 <= j < i ==> same_letter(text@[j], #[trigger] word@[j]),
    {
        let c = text[i];
        let w = word[i];
        if !(c == w || ('A' <= c && c <= 'Z' && c as u32 + 32 == w as u32)) {
            proof {
                assert(!same_letter(text@.take(len as int)[i as int], lower@[i as int]));
            }
            return false;
        }
    }
    proof {
        assert forall|j: int| 0 <= j < len implies same_letter(
            #[trigger] text@.take(len as int)[j],
            lower@[j],
        ) by {
            assert(same_letter(text@[j], word@[j]));
        }
    }
    true
}

fn find_stem_end(name: &Vec<char>) -> (r: usize)
    ensures
        r == stem_end(name@, 0),
        r <= name@.len(),
{
    let mut i: usize = 0;
    while i < name.len()
        invariant
            i <= name@.len(),
            stem_end(name@, 0) == stem_end(name@, i as int),
        decreases name@.len() - i,
    {
        let c = name[i];
        if c == '.' || c == ':' || c == ' ' {
            return i;
        }
        i += 1;
    }
    i
}

fn is_device_name(name: &Vec<char>) -> (r: bool)
    ensures
        r == device_name(name@),
{
    let len = find_stem_end(name);
    if is_word(name, len, "con") || is_word(name, len, "prn") || is_word(name, len, "aux")
        || is_word(name, len, "nul") || is_word(name, len, "conin$") || is_word(
        name,
        len,
        "conout$",
    ) {
        return true;
    }
    if len != 4 {
        return false;
    }
    proof {
        assert(name@.take(4).take(3) == name@.take(3));
    }
    let c = name[3];
    (('0' <= c && c <= '9') || c == '\u{b9}' || c == '\u{b2}' || c == '\u{b3}') && (is_word(
        name,
        3,
        "com",
    ) || is_word(name, 3, "lpt"))
}

fn is_plain_segment(segment: &Vec<char>) -> (r: bool)
    ensures
        r == plain_segment(segment@),
{
    if segment.len() == 0 || is_dot(segment) || is_dot_dot(segment) {
        return true;
    }
    let last = segment[segment.len() - 1];
    last != '.' && last != ' ' && !is_device_name(segment)
}

/// The full form of a path, where it is settled.
pub fn resolve(path: &Vec<char>) -> (r: Option<Vec<char>>)
    ensures
        match r {
            Some(full) => settled(path@) && full@ == full_form(path@),
            None => !settled(path@),
        },
{
    let (kind, _) = read_prefix(path);
    if kind == PrefixKind::Verbatim {
        let r = part(path, 0, path.len());
        proof {
            assert(path@.subrange(0, path@.len() as int) == path@);
        }
        return Some(r);
    }
    if !is_short(path) || !is_drive_at(path, 0) || !is_separator_at(path, 2) {
        return None;
    }
    for i in 0..path.len()
        invariant
            forall|j: int| 0 <= j < i ==> path@[j] != '\0',
            kind != PrefixKind::Verbatim,
            kind == prefix_kind(path@),
    {
        if path[i] == '\0' {
            proof {
                assert(path@[i as int] == '\0');
                assert(path@.contains('\0'));
            }
            return None;
        }
    }
    let body = part(path, 3, path.len());
    proof {
        assert(body@ == path@.skip(3));
    }
    let list = segments(&body, Separators::Both);
    let ghost all = texts(list@);
    let mut names: Vec<Vec<char>> = Vec::new();
    for i in 0..list.len()
        invariant
            all == texts(list@),
            all == split(path@.skip(3), Separators::Both),
            kind != PrefixKind::Verbatim,
            kind == prefix_kind(path@),
            forall|j: int| 0 <= j < i ==> plain_segment(#[trigger] all[j]),
            texts(names@) == resolved_names(all.take(i as int)),
    {
        let ghost before = texts(names@);
        proof {
            assert(all.take(i + 1).drop_last() == all.take(i as int));
            assert(all[i as int] == list@[i as int]@);
        }
        let segment = &list[i];
        if !is_plain_segment(segment) {
            return None;
        }
        if segment.len() == 0 || is_dot(segment) {
        } else if is_dot_dot(segment) {
            if names.len() > 0 {
                names.pop();
                proof {
                    assert(texts(names@) == before.drop_last());
                }
            }
        } else {
            names.push(part(segment, 0, segment.len()));
            proof {
                assert(segment@.subrange(0, segment@.len() as int) == segment@);
                assert(texts(names@) == before.push(segment@));
            }
        }
    }
    proof {
        assert(all.take(list@.len() as int) == all);
    }
    let mut full = part(path, 0, 2);
    proof {
        assert(full@ == path@.take(2));
    }
    full.push('\\');
    extend(&mut full, &joined(&names, '\\'));
    if names.len() > 0 && is_separator(Separators::Both, path[path.len() - 1]) {
        full.push('\\');
    }
    Some(full)
}

/// The full form of a path: its own where it is settled, else the one that the operating
/// system gave, else the path as it is.
pub fn settle(path: String, native: Option<String>) -> (r: String)
    ensures
        settled(path@) ==> r@ == full_form(path@),
        !settled(path@) ==> r == (match native {
            Some(text) => text,
            None => path,
        }),
{
    match resolve(&chars_of(path.as_str())) {
        Some(full) => text_of(&full),
        None => match native {
            Some(text) => text,
            None => path,
        },
    }
}

/// `answer` is one that `std::path::absolute` can give for the path; there is none where it
/// fails. Which answers these are depends on the machine and is left open.
pub closed spec fn answers(path: Seq<char>, answer: Option<Seq<char>>) -> bool {
    exists|asked: &str, r: Option<String>|
        asked@ == path && text_view(r) == answer && #[trigger] call_ensures(absolute, (asked,), r)
}

/// The full form of a path that is left to the operating system: what it answers, or the path
/// as it is where it has no answer.
pub open spec fn answered(path: Seq<char>, answer: Option<Seq<char>>) -> Seq<char> {
    match answer {
        Some(text) => text,
        None => path,
    }
}

/// `std::path::absolute` makes a path absolute without looking at the disk. What it returns
/// depends on the machine and on its current directory, so nothing is claimed of the result;
/// there is none where it fails.
#[verifier::external_body]
fn absolute(path: &str) -> (r: Option<String>) {
    std::path::absolute(path).ok().map(|full| full.to_string_lossy().into_owned())
}

/// What `ask` returns for a path.
fn asked<G: Fn(&str) -> Option<String>>(ask: G, path: &str) -> (r: Option<String>)
    requires
        call_requires(ask, (path,)),
    ensures
        call_ensures(ask, (path,), r),
{
    ask(path)
}

/// The full form of a path. Of a path that is not settled the operating system decides: the
/// result is what it answers for that very path.
pub fn full_path(path: String) -> (r: String)
    ensures
        settled(path@) ==> r@ == full_form(path@),
        !settled(path@) ==> exists|answer: Option<Seq<char>>| #[trigger]
            answers(path@, answer) && r@ == answered(path@, answer),
{
    let native = match resolve(&chars_of(path.as_str())) {
        Some(_) => None,
        None => {
            let native = asked(absolute, path.as_str());
            proof {
                assert(answers(path@, text_view(native)));
            }
            native
        },
    };
    settle(path, native)
}

} // verus!
