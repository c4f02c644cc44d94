//! What path names mean, character by character: where a name leads, and which names lead to
//! the same place.
//!
//! Nothing here is said in terms of segments or components as the library reads them. A name
//! is looked at as the characters that the client sent, a path as those that Windows is given.

use vstd::prelude::*;

use crate::full_path::{
    answered, answers, device_name, full_form, plain_segment, resolved_names, same_letter,
    same_word, settled, stem_end, units,
};
use crate::path_laws::{
    join_of_split, ordinary_name, ordinary_name_goes_on, ordinary_names_stand_for_paths,
    ordinary_segment, proper_part, resolved_of_proper, split_extends, split_has_char,
    split_is_nonempty, split_of_join, split_parts, units_of_push, unparted,
};
use crate::text::{join, separates, split, Separators};
use crate::unix_path::{below_drive, root_name, translates};
use crate::windows_path::{
    dot, dot_dot, drive_at, has_root, prefix_fits, prefix_kind, pushed, separator_at, PrefixKind,
};

verus! {

/// The characters from index `a` up to index `b` are what stands between two slashes, or
/// between the last slash and the end.
pub open spec fn stands_between(path: Seq<char>, a: int, b: int) -> bool {
    &&& 0 < a <= b <= path.len()
    &&& path[a - 1] == '/'
    &&& b == path.len() || path[b] == '/'
    &&& forall|i: int| a <= i < b ==> #[trigger] path[i] != '/'
}

/// The word is written with the letters `lower` or `upper`, place by place.
pub open spec fn spelled(word: Seq<char>, lower: Seq<char>, upper: Seq<char>) -> bool {
    word.len() == lower.len() && forall|i: int|
        0 <= i < word.len() ==> #[trigger] word[i] == lower[i] || word[i] == upper[i]
}

/// The word names a device: CON, PRN, AUX, NUL, CONIN$, CONOUT$, or COM or LPT and a digit,
/// which can be one of the raised digits 1, 2 and 3.
pub open spec fn device_word(word: Seq<char>) -> bool {
    ||| spelled(word, seq!['c', 'o', 'n'], seq!['C', 'O', 'N'])
    ||| spelled(word, seq!['p', 'r', 'n'], seq!['P', 'R', 'N'])
    ||| spelled(word, seq!['a', 'u', 'x'], seq!['A', 'U', 'X'])
    ||| spelled(word, seq!['n', 'u', 'l'], seq!['N', 'U', 'L'])
    ||| spelled(word, seq!['c', 'o', 'n', 'i', 'n', '$'], seq!['C', 'O', 'N', 'I', 'N', '$'])
    ||| spelled(
        word,
        seq!['c', 'o', 'n', 'o', 'u', 't', '$'],
        seq!['C', 'O', 'N', 'O', 'U', 'T', '$'],
    )
    ||| word.len() == 4 && ('0' <= word[3] <= '9' || word[3] == '\u{b9}' || word[3] == '\u{b2}'
        || word[3] == '\u{b3}') && (spelled(
        word.take(3),
        seq!['c', 'o', 'm'],
        seq!['C', 'O', 'M'],
    ) || spelled(word.take(3), seq!['l', 'p', 't'], seq!['L', 'P', 'T']))
}

/// The name is that of a device, by itself or with something behind a dot or a space.
pub open spec fn names_device(name: Seq<char>) -> bool {
    exists|k: int|
        0 <= k <= name.len() && (k == name.len() || name[k] == '.' || name[k] == ' ')
            && #[trigger] device_word(name.take(k))
}

/// A name that a file can have on every version of Windows. It may begin with a dot.
pub open spec fn usable(name: Seq<char>) -> bool {
    &&& name.len() > 0
    &&& forall|i: int|
        0 <= i < name.len() ==> #[trigger] name[i] != '/' && name[i] != '\\' && name[i] != ':'
            && name[i] != '\0'
    &&& name[name.len() - 1] != '.'
    &&& name[name.len() - 1] != ' '
    &&& !names_device(name)
}

/// The units of UTF-16 that the text takes.
pub open spec fn utf16_len(text: Seq<char>) -> nat
    decreases text.len(),
{
    if text.len() == 0 {
        0
    } else if text.last() as u32 > 0xffff {
        utf16_len(text.drop_last()) + 2
    } else {
        utf16_len(text.drop_last()) + 1
    }
}

/// The name begins with a slash and the letter of a drive, with nothing or a slash behind.
pub open spec fn starts_at_drive(path: Seq<char>) -> bool {
    &&& path.len() >= 2
    &&& path[0] == '/'
    &&& 'a' <= path[1] <= 'z' || 'A' <= path[1] <= 'Z'
    &&& path.len() == 2 || path[2] == '/'
}

/// The name of something on a drive, no longer than Windows takes: between its slashes stand
/// usable names, `.`, `..`, or nothing.
pub open spec fn on_a_drive(path: Seq<char>) -> bool {
    &&& starts_at_drive(path)
    &&& utf16_len(path) <= 32766
    &&& forall|a: int, b: int| #[trigger]
        stands_between(path, a, b) ==> a == b || path.subrange(a, b) == seq!['.']
            || path.subrange(a, b) == seq!['.', '.'] || usable(path.subrange(a, b))
}

/// Such a name in which nothing is left to resolve.
pub open spec fn plainly_on_a_drive(path: Seq<char>) -> bool {
    &&& starts_at_drive(path)
    &&& utf16_len(path) <= 32766
    &&& forall|a: int, b: int| #[trigger]
        stands_between(path, a, b) ==> usable(path.subrange(a, b))
}

/// The path that `name` spells: the letter of the drive, a colon, and the rest of the name
/// with backslashes for slashes.
pub open spec fn spells_path(name: Seq<char>, path: Seq<char>) -> bool {
    if name.len() == 2 {
        path == seq![name[1], ':', '\\']
    } else {
        &&& path.len() == name.len()
        &&& path[0] == name[1]
        &&& path[1] == ':'
        &&& forall|i: int|
            2 <= i < name.len() ==> #[trigger] path[i] == if name[i] == '/' {
                '\\'
            } else {
                name[i]
            }
    }
}

/// The texts are the same, but one of them may have a backslash more at its end.
pub open spec fn same_but_for_backslash(text: Seq<char>, other: Seq<char>) -> bool {
    text == other || text == other.push('\\') || other == text.push('\\')
}

/// What leads nowhere wherever it stands in a name: a slash, a slash and a dot, or a name
/// behind a slash and `..` behind another.
pub open spec fn idle(text: Seq<char>) -> bool {
    ||| text == seq!['/']
    ||| text == seq!['/', '.']
    ||| exists|name: Seq<char>| #[trigger]
        usable(name) && text == seq!['/'] + name + seq!['/', '.', '.']
}

/// Segments on both sides of a slash.
pub(crate) proof fn split_at_slash(a: Seq<char>, b: Seq<char>)
    ensures
        split(a.push('/') + b, Separators::Slash) == split(a, Separators::Slash) + split(
            b,
            Separators::Slash,
        ),
    decreases b.len(),
{
    let set = Separators::Slash;
    let whole = a.push('/') + b;
    let empty = Seq::<char>::empty();
    split_is_nonempty(a, set);
    if b.len() == 0 {
        assert(whole == a.push('/'));
        assert(whole.drop_last() == a);
        assert(split(b, set) == seq![empty]);
        assert(split(a, set).push(empty) == split(a, set) + seq![empty]);
    } else {
        let front = b.drop_last();
        split_at_slash(a, front);
        split_is_nonempty(front, set);
        assert(whole.drop_last() == a.push('/') + front);
        assert(whole.last() == b.last());
        let before = split(front, set);
        let longer = split(a, set) + before;
        assert(longer.last() == before.last());
        assert(longer.drop_last() == split(a, set) + before.drop_last());
        assert(longer.push(empty) == split(a, set) + before.push(empty));
        let grown = before.last().push(b.last());
        assert(longer.drop_last().push(grown) == split(a, set) + before.drop_last().push(grown));
    }
}

/// Where a segment stands in the text.
pub(crate) proof fn place_of(text: Seq<char>, k: int) -> (place: (int, int))
    requires
        0 <= k < split(text, Separators::Slash).len(),
    ensures
        0 <= place.0 <= place.1 <= text.len(),
        text.subrange(place.0, place.1) == split(text, Separators::Slash)[k],
        place.0 == 0 || text[place.0 - 1] == '/',
        place.1 == text.len() || text[place.1] == '/',
        forall|i: int| place.0 <= i < place.1 ==> #[trigger] text[i] != '/',
        k == split(text, Separators::Slash).len() - 1 <==> place.1 == text.len(),
    decreases text.len(),
{
    let set = Separators::Slash;
    if text.len() == 0 {
        assert(text.subrange(0, 0) == Seq::<char>::empty());
        (0, 0)
    } else {
        let front = text.drop_last();
        let before = split(front, set);
        let n = text.len() as int;
        split_is_nonempty(front, set);
        if separates(set, text.last()) {
            if k == before.len() {
                assert(text.subrange(n, n) == Seq::<char>::empty());
                (n, n)
            } else {
                let (a, b) = place_of(front, k);
                assert(front.subrange(a, b) == text.subrange(a, b));
                assert forall|i: int| a <= i < b implies #[trigger] text[i] != '/' by {
                    assert(front[i] != '/');
                }
                (a, b)
            }
        } else {
            let (a, b) = place_of(front, k);
            assert forall|i: int| a <= i < b implies #[trigger] text[i] != '/' by {
                assert(front[i] != '/');
            }
            if k == before.len() - 1 {
                assert(text.subrange(a, n) == front.subrange(a, b).push(text.last()));
                (a, n)
            } else {
                assert(front.subrange(a, b) == text.subrange(a, b));
                (a, b)
            }
        }
    }
}

proof fn utf16_is_units(text: Seq<char>)
    ensures
        utf16_len(text) == units(text),
    decreases text.len(),
{
    if text.len() > 0 {
        utf16_is_units(text.drop_last());
    }
}

proof fn stem_end_is_first(name: Seq<char>, from: int)
    requires
        0 <= from <= name.len(),
    ensures
        from <= stem_end(name, from) <= name.len(),
        stem_end(name, from) == name.len() || name[stem_end(name, from)] == '.' || name[stem_end(
            name,
            from,
        )] == ' ' || name[stem_end(name, from)] == ':',
    decreases name.len() - from,
{
    if from < name.len() {
        stem_end_is_first(name, from + 1);
    }
}

proof fn same_letter_is_one_of(c: char, lower: char, upper: char)
    requires
        same_letter(c, lower),
        lower == upper && lower == '$' || lower as u32 == upper as u32 + 32,
    ensures
        c == lower || c == upper,
{
}

proof fn same_word_is_spelled(word: Seq<char>, lower: Seq<char>, upper: Seq<char>)
    requires
        same_word(word, lower),
        lower.len() == upper.len(),
        forall|i: int|
            0 <= i < lower.len() ==> #[trigger] lower[i] == '$' && upper[i] == '$'
                || lower[i] as u32 == upper[i] as u32 + 32,
    ensures
        spelled(word, lower, upper),
{
    assert forall|i: int| 0 <= i < word.len() implies #[trigger] word[i] == lower[i] || word[i]
        == upper[i] by {
        assert(lower[i] == '$' && upper[i] == '$' || lower[i] as u32 == upper[i] as u32 + 32);
        same_letter_is_one_of(word[i], lower[i], upper[i]);
    }
}

/// What the library takes for the name of a device is the name of one.
proof fn devices_are_named(name: Seq<char>)
    requires
        device_name(name),
        forall|i: int| 0 <= i < name.len() ==> #[trigger] name[i] != ':',
    ensures
        names_device(name),
{
    let k = stem_end(name, 0);
    let stem = name.take(k);
    stem_end_is_first(name, 0);
    reveal_strlit("con");
    reveal_strlit("prn");
    reveal_strlit("aux");
    reveal_strlit("nul");
    reveal_strlit("conin$");
    reveal_strlit("conout$");
    reveal_strlit("com");
    reveal_strlit("lpt");
    assert("con"@ == seq!['c', 'o', 'n']);
    assert("prn"@ == seq!['p', 'r', 'n']);
    assert("aux"@ == seq!['a', 'u', 'x']);
    assert("nul"@ == seq!['n', 'u', 'l']);
    assert("conin$"@ == seq!['c', 'o', 'n', 'i', 'n', '$']);
    assert("conout$"@ == seq!['c', 'o', 'n', 'o', 'u', 't', '$']);
    assert("com"@ == seq!['c', 'o', 'm']);
    assert("lpt"@ == seq!['l', 'p', 't']);
    if same_word(stem, "con"@) {
        same_word_is_spelled(stem, "con"@, seq!['C', 'O', 'N']);
    } else if same_word(stem, "prn"@) {
        same_word_is_spelled(stem, "prn"@, seq!['P', 'R', 'N']);
    } else if same_word(stem, "aux"@) {
        same_word_is_spelled(stem, "aux"@, seq!['A', 'U', 'X']);
    } else if same_word(stem, "nul"@) {
        same_word_is_spelled(stem, "nul"@, seq!['N', 'U', 'L']);
    } else if same_word(stem, "conin$"@) {
        same_word_is_spelled(stem, "conin$"@, seq!['C', 'O', 'N', 'I', 'N', '$']);
    } else if same_word(stem, "conout$"@) {
        same_word_is_spelled(stem, "conout$"@, seq!['C', 'O', 'N', 'O', 'U', 'T', '$']);
    } else if same_word(stem.take(3), "com"@) {
        same_word_is_spelled(stem.take(3), "com"@, seq!['C', 'O', 'M']);
    } else {
        same_word_is_spelled(stem.take(3), "lpt"@, seq!['L', 'P', 'T']);
    }
    assert(device_word(name.take(k)));
}

/// What may stand between the slashes of a name on a drive is ordinary.
proof fn usable_is_ordinary(name: Seq<char>)
    requires
        name.len() == 0 || name == seq!['.'] || name == seq!['.', '.'] || usable(name),
    ensures
        ordinary_segment(name),
        usable(name) ==> proper_part(name),
        !name.contains('\0'),
{
    assert(seq!['.'] == dot());
    assert(seq!['.', '.'] == dot_dot());
    if usable(name) {
        assert(name != dot()) by {
            assert(dot()[0] == '.');
        }
        assert(name != dot_dot()) by {
            assert(dot_dot()[1] == '.');
        }
        assert forall|i: int| 0 <= i < name.len() implies #[trigger] name[i] != ':' by {}
        if device_name(name) {
            devices_are_named(name);
        }
        assert forall|i: int| 0 <= i < name.len() implies !separates(
            Separators::Both,
            #[trigger] name[i],
        ) by {}
        assert(!drive_at(name, 0));
    }
    assert(prefix_kind(name) == PrefixKind::Absent);
}

/// The segments of a name that begins at a drive.
proof fn split_of_drive_name(path: Seq<char>)
    requires
        starts_at_drive(path),
    ensures
        ({
            let list = split(path, Separators::Slash);
            &&& list.len() >= 2
            &&& list[0].len() == 0
            &&& list[1] == seq![path[1]]
            &&& path.len() == 2 ==> list.len() == 2
            &&& path.len() > 2 ==> list.skip(2) == split(path.skip(3), Separators::Slash)
        }),
{
    let set = Separators::Slash;
    let empty = Seq::<char>::empty();
    let drive = seq![path[1]];
    let list = split(path, set);
    assert(split(empty, set) == seq![empty]);
    assert(drive.drop_last() == empty);
    assert(drive.last() == path[1]);
    assert(!separates(set, path[1]));
    assert(split(drive, set) == seq![drive]) by {
        assert(seq![empty].drop_last().push(seq![empty].last().push(path[1])) == seq![drive]);
    }
    if path.len() == 2 {
        assert(path == empty.push('/') + drive);
        split_at_slash(empty, drive);
    } else {
        let rest = path.skip(3);
        assert(path == empty.push('/') + (drive.push('/') + rest));
        split_at_slash(empty, drive.push('/') + rest);
        split_at_slash(drive, rest);
        assert(list == seq![empty] + (seq![drive] + split(rest, set)));
        assert(list.skip(2) == split(rest, set));
    }
}

/// A name on a drive is ordinary.
pub(crate) proof fn on_a_drive_is_ordinary(path: Seq<char>)
    requires
        on_a_drive(path),
    ensures
        ordinary_name(path, path[1]),
{
    let list = split(path, Separators::Slash);
    split_of_drive_name(path);
    utf16_is_units(path);
    assert forall|k: int| 2 <= k < list.len() implies ordinary_segment(#[trigger] list[k])
        && !list[k].contains('\0') by {
        let rest = path.skip(3);
        assert(list.skip(2)[k - 2] == list[k]);
        let (a, b) = place_of(rest, k - 2);
        assert forall|i: int| a + 3 <= i < b + 3 implies #[trigger] path[i] != '/' by {
            assert(rest[i - 3] == path[i]);
        }
        assert(path[a + 2] == '/') by {
            if a > 0 {
                assert(rest[a - 1] == path[a + 2]);
            }
        }
        assert(b + 3 == path.len() || path[b + 3] == '/') by {
            if b < rest.len() {
                assert(rest[b] == path[b + 3]);
            }
        }
        assert(stands_between(path, a + 3, b + 3));
        assert(path.subrange(a + 3, b + 3) == rest.subrange(a, b));
        usable_is_ordinary(list[k]);
    }
    assert(!path.contains('\0')) by {
        if path.contains('\0') {
            let i = choose|i: int| 0 <= i < path.len() && path[i] == '\0';
            split_has_char(path, Separators::Slash, i);
            let k = choose|k: int| 0 <= k < list.len() && (#[trigger] list[k]).contains('\0');
            if k == 1 {
                let j = choose|j: int| 0 <= j < list[1].len() && list[1][j] == '\0';
                assert(seq![path[1]][j] == '\0');
            }
        }
    }
}

proof fn plain_is_on_a_drive(path: Seq<char>)
    requires
        plainly_on_a_drive(path),
    ensures
        on_a_drive(path),
        forall|k: int|
            2 <= k < split(path, Separators::Slash).len() ==> proper_part(
                #[trigger] split(path, Separators::Slash)[k],
            ),
{
    let list = split(path, Separators::Slash);
    split_of_drive_name(path);
    assert forall|k: int| 2 <= k < list.len() implies proper_part(#[trigger] list[k]) by {
        let rest = path.skip(3);
        assert(list.skip(2)[k - 2] == list[k]);
        let (a, b) = place_of(rest, k - 2);
        assert forall|i: int| a + 3 <= i < b + 3 implies #[trigger] path[i] != '/' by {
            assert(rest[i - 3] == path[i]);
        }
        assert(path[a + 2] == '/') by {
            if a > 0 {
                assert(rest[a - 1] == path[a + 2]);
            }
        }
        assert(b + 3 == path.len() || path[b + 3] == '/') by {
            if b < rest.len() {
                assert(rest[b] == path[b + 3]);
            }
        }
        assert(stands_between(path, a + 3, b + 3));
        assert(path.subrange(a + 3, b + 3) == rest.subrange(a, b));
        usable_is_ordinary(list[k]);
    }
}

/// Parted at slashes and joined with backslashes, a text has backslashes for slashes.
proof fn swapped_slashes(text: Seq<char>)
    ensures
        ({
            let swapped = join(split(text, Separators::Slash), '\\');
            &&& swapped.len() == text.len()
            &&& forall|i: int|
                0 <= i < text.len() ==> #[trigger] swapped[i] == if text[i] == '/' {
                    '\\'
                } else {
                    text[i]
                }
        }),
    decreases text.len(),
{
    let set = Separators::Slash;
    let list = split(text, set);
    let swapped = join(list, '\\');
    if text.len() > 0 {
        let front = text.drop_last();
        let before = split(front, set);
        let was = join(before, '\\');
        swapped_slashes(front);
        split_is_nonempty(front, set);
        if separates(set, text.last()) {
            assert(list.drop_last() == before);
            assert(swapped == was.push('\\'));
        } else {
            assert(list.drop_last() == before.drop_last());
            assert(list.last() == before.last().push(text.last()));
            assert(swapped == was.push(text.last()));
        }
        assert forall|i: int| 0 <= i < text.len() implies #[trigger] swapped[i] == if text[i]
            == '/' {
            '\\'
        } else {
            text[i]
        } by {
            if i < front.len() {
                assert(was[i] == swapped[i]);
                assert(front[i] == text[i]);
            }
        }
    }
}

/// Every name on a drive in which nothing is left to resolve stands for the path that it
/// spells: `/C/Users/me/.ssh` for `C:\Users\me\.ssh`.
pub proof fn plain_names_are_spelled_out(path: Seq<char>, r: Option<Seq<char>>)
    requires
        plainly_on_a_drive(path),
        translates(path, r),
    ensures
        r is Some,
        spells_path(path, r->0),
{
    let list = split(path, Separators::Slash);
    let tail = list.skip(2);
    let letter = path[1];
    plain_is_on_a_drive(path);
    on_a_drive_is_ordinary(path);
    split_of_drive_name(path);
    ordinary_names_stand_for_paths(path, letter, r);
    assert forall|i: int| 0 <= i < tail.len() implies proper_part(#[trigger] tail[i]) by {
        assert(tail[i] == list[i + 2]);
    }
    resolved_of_proper(tail);
    let text = join(tail, '\\');
    if path.len() == 2 {
        assert(tail.len() == 0);
        assert(seq![letter, ':', '\\'] + text == seq![letter, ':', '\\']);
    } else {
        let rest = path.skip(3);
        swapped_slashes(rest);
        split_is_nonempty(rest, Separators::Slash);
        assert(list.last() == list[list.len() - 1]);
        assert(proper_part(list[list.len() - 1]));
        let full = seq![letter, ':', '\\'] + text;
        assert(r->0 == full);
        assert forall|i: int| 2 <= i < path.len() implies #[trigger] full[i] == if path[i]
            == '/' {
            '\\'
        } else {
            path[i]
        } by {
            if i > 2 {
                assert(full[i] == text[i - 3]);
                assert(rest[i - 3] == path[i]);
            }
        }
    }
}

/// The root of the tree stands for itself.
pub proof fn the_root_stands_for_itself(r: Option<Seq<char>>)
    requires
        translates(seq!['/'], r),
    ensures
        r == Some(seq!['/']),
{
    let root = seq!['/'];
    assert(separator_at(root, 0));
    assert(prefix_kind(root) == PrefixKind::Absent);
    assert(root == root_name());
}

/// A name stands for a path if and only if it begins with a separator, or with a drive and a
/// separator.
pub proof fn only_full_names_stand_for_paths(path: Seq<char>, r: Option<Seq<char>>)
    requires
        translates(path, r),
    ensures
        r is Some <==> (path.len() > 0 && (path[0] == '/' || path[0] == '\\')) || (path.len() > 2
            && ('a' <= path[0] <= 'z' || 'A' <= path[0] <= 'Z') && path[1] == ':' && (path[2]
            == '/' || path[2] == '\\')),
{
    prefix_fits(path);
    if path.len() > 0 && (path[0] == '/' || path[0] == '\\') {
        assert(separator_at(path, 0));
        assert(has_root(path));
    } else {
        assert(!separator_at(path, 0));
    }
}

/// A name without a slash that begins with a backslash is the root of the tree.
pub proof fn names_without_slashes_are_the_root(path: Seq<char>, r: Option<Seq<char>>)
    requires
        path.len() > 0,
        path[0] == '\\',
        forall|i: int| 0 <= i < path.len() ==> #[trigger] path[i] != '/',
        translates(path, r),
    ensures
        r == Some(seq!['/']),
{
    only_full_names_stand_for_paths(path, r);
    split_of_one(path);
    assert(seq!['/'] == root_name());
}

proof fn split_of_one(text: Seq<char>)
    requires
        unparted(text, Separators::Slash),
    ensures
        split(text, Separators::Slash) == seq![text],
{
    let empty = Seq::<char>::empty();
    split_extends(empty, text, Separators::Slash);
    assert(empty + text == text);
    assert(split(empty, Separators::Slash) == seq![empty]);
    assert(seq![empty].drop_last().push(text) == seq![text]);
}

/// The segments that a text adds to a name that it is put behind.
spec fn added(text: Seq<char>) -> Seq<Seq<char>> {
    if text.len() == 0 {
        Seq::empty()
    } else {
        split(text.skip(1), Separators::Slash)
    }
}

proof fn split_with_added(path: Seq<char>, text: Seq<char>)
    requires
        text.len() == 0 || text[0] == '/',
    ensures
        split(path + text, Separators::Slash) == split(path, Separators::Slash) + added(text),
{
    if text.len() == 0 {
        assert(path + text == path);
        assert(split(path, Separators::Slash) + added(text) == split(path, Separators::Slash));
    } else {
        assert(path + text == path.push('/') + text.skip(1));
        split_at_slash(path, text.skip(1));
    }
}

proof fn resolved_without(list: Seq<Seq<char>>, idle: Seq<Seq<char>>, more: Seq<Seq<char>>)
    requires
        resolved_names(list + idle) == resolved_names(list),
    ensures
        resolved_names(list + idle + more) == resolved_names(list + more),
    decreases more.len(),
{
    if more.len() == 0 {
        assert(list + idle + more == list + idle);
        assert(list + more == list);
    } else {
        let front = more.drop_last();
        resolved_without(list, idle, front);
        assert((list + idle + more).drop_last() == list + idle + front);
        assert((list + more).drop_last() == list + front);
    }
}

/// What is left of a name whose segments are those of another and some that lead nowhere.
proof fn same_path_without(
    path: Seq<char>,
    idle: Seq<char>,
    more: Seq<char>,
    r: Option<Seq<char>>,
    s: Option<Seq<char>>,
)
    requires
        starts_at_drive(path),
        on_a_drive(path + more),
        on_a_drive(path + idle + more),
        idle.len() > 0,
        idle[0] == '/',
        more.len() == 0 || more[0] == '/',
        resolved_names(split(path, Separators::Slash).skip(2) + added(idle)) == resolved_names(
            split(path, Separators::Slash).skip(2),
        ),
        translates(path + more, r),
        translates(path + idle + more, s),
    ensures
        r is Some,
        s is Some,
        same_but_for_backslash(s->0, r->0),
        more.len() > 0 ==> s == r,
{
    let set = Separators::Slash;
    let list = split(path, set);
    let tail = list.skip(2);
    let letter = path[1];
    split_of_drive_name(path);
    split_with_added(path, idle);
    split_with_added(path, more);
    split_with_added(path + idle, more);
    let short = split(path + more, set);
    let long = split(path + idle + more, set);
    assert(short.skip(2) == tail + added(more));
    assert(long.skip(2) == tail + added(idle) + added(more));
    resolved_without(tail, added(idle), added(more));
    assert((path + more)[1] == letter);
    assert((path + idle + more)[1] == letter);
    on_a_drive_is_ordinary(path + more);
    on_a_drive_is_ordinary(path + idle + more);
    ordinary_names_stand_for_paths(path + more, letter, r);
    ordinary_names_stand_for_paths(path + idle + more, letter, s);
    if more.len() > 0 {
        split_is_nonempty(more.skip(1), set);
        assert(short.last() == added(more).last());
        assert(long.last() == added(more).last());
    }
}

/// A slash too many, a dot, or a name and `..` lead nowhere, wherever they stand in a name on a
/// drive: without them it stands for the same path. At its end they can make the difference of
/// a backslash.
pub proof fn idle_parts_lead_nowhere(
    path: Seq<char>,
    part: Seq<char>,
    more: Seq<char>,
    r: Option<Seq<char>>,
    s: Option<Seq<char>>,
)
    requires
        starts_at_drive(path),
        idle(part),
        more.len() == 0 || more[0] == '/',
        on_a_drive(path + more),
        on_a_drive(path + part + more),
        translates(path + more, r),
        translates(path + part + more, s),
    ensures
        r is Some,
        s is Some,
        same_but_for_backslash(s->0, r->0),
        more.len() > 0 ==> s == r,
{
    let set = Separators::Slash;
    let empty = Seq::<char>::empty();
    let list = split(path, set).skip(2);
    if part == seq!['/'] {
        assert(part.skip(1) == empty);
        assert(split(empty, set) == seq![empty]);
        assert((list + seq![empty]).drop_last() == list);
        assert((list + seq![empty]).last() == empty);
    } else if part == seq!['/', '.'] {
        assert(part.skip(1) == dot());
        assert(dot()[0] == '.');
        split_of_one(dot());
        assert((list + seq![dot()]).drop_last() == list);
        assert((list + seq![dot()]).last() == dot());
    } else {
        let name = choose|name: Seq<char>| #[trigger]
            usable(name) && part == seq!['/'] + name + seq!['/', '.', '.'];
        usable_is_ordinary(name);
        assert(part.skip(1) == name.push('/') + dot_dot());
        assert(dot_dot()[0] == '.' && dot_dot()[1] == '.');
        split_at_slash(name, dot_dot());
        split_of_one(name);
        split_of_one(dot_dot());
        let pair = seq![name] + seq![dot_dot()];
        assert(added(part) == pair);
        assert((list + pair).drop_last() == list.push(name));
        assert((list + pair).last() == dot_dot());
        assert(list.push(name).drop_last() == list);
        assert(resolved_names(list.push(name)) == resolved_names(list).push(name));
        assert(resolved_names(list).push(name).drop_last() == resolved_names(list));
    }
    same_path_without(path, part, more, r, s);
}

/// There is no way up from the root of a drive: `..` leads nowhere there.
pub proof fn nothing_is_above_a_drive(
    letter: char,
    more: Seq<char>,
    r: Option<Seq<char>>,
    s: Option<Seq<char>>,
)
    requires
        more.len() == 0 || more[0] == '/',
        on_a_drive(seq!['/', letter] + more),
        on_a_drive(seq!['/', letter] + seq!['/', '.', '.'] + more),
        translates(seq!['/', letter] + more, r),
        translates(seq!['/', letter] + seq!['/', '.', '.'] + more, s),
    ensures
        r is Some,
        s is Some,
        same_but_for_backslash(s->0, r->0),
        more.len() > 0 ==> s == r,
{
    let path = seq!['/', letter];
    let up = seq!['/', '.', '.'];
    let none = Seq::<Seq<char>>::empty();
    assert((path + more)[0] == path[0] && (path + more)[1] == path[1]);
    assert(starts_at_drive(path));
    split_of_drive_name(path);
    assert(split(path, Separators::Slash).skip(2) == none);
    assert(up.skip(1) == dot_dot());
    assert(dot_dot()[0] == '.' && dot_dot()[1] == '.');
    split_of_one(dot_dot());
    assert((none + seq![dot_dot()]).drop_last() == none);
    assert((none + seq![dot_dot()]).last() == dot_dot());
    assert(resolved_names(none).len() == 0);
    same_path_without(path, up, more, r, s);
}

/// A slash behind a name comes back as a backslash behind the path.
pub proof fn a_last_slash_is_kept(path: Seq<char>, r: Option<Seq<char>>, s: Option<Seq<char>>)
    requires
        plainly_on_a_drive(path),
        path.len() > 2,
        utf16_len(path) < 32766,
        translates(path, r),
        translates(path.push('/'), s),
    ensures
        r is Some,
        s == Some(r->0.push('\\')),
{
    let set = Separators::Slash;
    let empty = Seq::<char>::empty();
    let list = split(path, set);
    let tail = list.skip(2);
    let letter = path[1];
    plain_is_on_a_drive(path);
    on_a_drive_is_ordinary(path);
    split_of_drive_name(path);
    split_is_nonempty(path.skip(3), set);
    utf16_is_units(path);
    units_of_push(path, '/');
    assert(path.push('/') + empty == path.push('/'));
    usable_is_ordinary(empty);
    ordinary_name_goes_on(path, letter, empty);
    ordinary_names_stand_for_paths(path, letter, r);
    ordinary_names_stand_for_paths(path.push('/'), letter, s);
    assert(tail.push(empty).drop_last() == tail);
    assert forall|i: int| 0 <= i < tail.len() implies proper_part(#[trigger] tail[i]) by {
        assert(tail[i] == list[i + 2]);
    }
    resolved_of_proper(tail);
    assert(proper_part(list[list.len() - 1]));
    split_at_slash(path, empty);
    assert(split(empty, set) == seq![empty]);
    assert(split(path.push('/'), set).last() == empty);
}

/// The name begins at a drive, and between its slashes stand names, whatever else they may be.
pub open spec fn names_on_a_drive(path: Seq<char>) -> bool {
    &&& starts_at_drive(path)
    &&& path.len() > 2
    &&& forall|i: int| 0 <= i < path.len() ==> #[trigger] path[i] != '\\' && path[i] != ':'
    &&& forall|a: int, b: int| #[trigger]
        stands_between(path, a, b) ==> a < b && path.subrange(a, b) != seq!['.']
            && path.subrange(a, b) != seq!['.', '.']
}

/// The segment goes behind a backslash of its own, and so does what follows it.
spec fn goes_behind(segment: Seq<char>) -> bool {
    &&& segment.len() > 0
    &&& !separates(Separators::Both, segment[0])
    &&& !separates(Separators::Both, segment[segment.len() - 1])
    &&& prefix_kind(segment) == PrefixKind::Absent
}

proof fn names_are_pushed(list: Seq<Seq<char>>, n: int, letter: char)
    requires
        3 <= n <= list.len(),
        'a' <= letter <= 'z' || 'A' <= letter <= 'Z',
        list[1] == seq![letter],
        forall|i: int| 2 <= i < list.len() ==> goes_behind(#[trigger] list[i]),
    ensures
        below_drive(list, n) == seq![letter, ':', '\\'] + join(list.subrange(2, n), '\\'),
    decreases n,
{
    let start = seq![letter, ':', '\\'];
    let next = list[n - 1];
    let base = below_drive(list, n - 1);
    assert(goes_behind(next));
    assert(!has_root(next));
    assert(list.subrange(2, n).drop_last() == list.subrange(2, n - 1));
    assert(list.subrange(2, n).last() == next);
    if n == 3 {
        assert(base == start);
        assert(!separator_at(base, 0));
        assert(prefix_kind(base) == PrefixKind::Disk);
        assert(list.subrange(2, 3) == seq![next]);
        assert(join(seq![next], '\\') == next);
    } else {
        names_are_pushed(list, n - 1, letter);
        let text = join(list.subrange(2, n - 1), '\\');
        let last = list[n - 2];
        assert(goes_behind(last));
        assert(list.subrange(2, n - 1).last() == last);
        assert(text.len() > 0 && text.last() == last.last()) by {
            if n == 4 {
                assert(list.subrange(2, 3) == seq![last]);
            }
        }
        assert(base == start + text);
        assert(base[0] == letter && base[1] == ':');
        assert(base.last() == text.last());
        assert(!separator_at(base, 0));
        assert(prefix_kind(base) == PrefixKind::Disk);
        assert(base.push('\\') + next == start + (text.push('\\') + next));
    }
}

/// The path that such a name is put together to, and that nothing in it is resolved.
proof fn other_names_are_spelled(path: Seq<char>)
    requires
        names_on_a_drive(path),
    ensures
        ({
            let list = split(path, Separators::Slash);
            let target = below_drive(list, list.len() as int);
            &&& spells_path(path, target)
            &&& full_form(target) == target
            &&& prefix_kind(target) == PrefixKind::Disk
            &&& split(target.skip(3), Separators::Both) == split(path.skip(3), Separators::Slash)
            &&& has_root(path)
            &&& path != root_name()
            &&& list.len() >= 2
        }),
{
    let set = Separators::Slash;
    let list = split(path, set);
    let n = list.len() as int;
    let tail = list.skip(2);
    let rest = path.skip(3);
    let letter = path[1];
    split_of_drive_name(path);
    split_is_nonempty(rest, set);
    assert forall|k: int| 2 <= k < n implies proper_part(#[trigger] list[k]) && unparted(
        list[k],
        Separators::Both,
    ) && prefix_kind(list[k]) == PrefixKind::Absent by {
        assert(tail[k - 2] == list[k]);
        let (a, b) = place_of(rest, k - 2);
        assert forall|i: int| a + 3 <= i < b + 3 implies #[trigger] path[i] != '/' by {
            assert(rest[i - 3] == path[i]);
        }
        assert(path[a + 2] == '/') by {
            if a > 0 {
                assert(rest[a - 1] == path[a + 2]);
            }
        }
        assert(b + 3 == path.len() || path[b + 3] == '/') by {
            if b < rest.len() {
                assert(rest[b] == path[b + 3]);
            }
        }
        assert(stands_between(path, a + 3, b + 3));
        assert(path.subrange(a + 3, b + 3) == rest.subrange(a, b));
        assert(seq!['.'] == dot() && seq!['.', '.'] == dot_dot());
        assert forall|i: int| 0 <= i < list[k].len() implies !separates(
            Separators::Both,
            #[trigger] list[k][i],
        ) && list[k][i] != ':' by {
            assert(list[k][i] == path[a + 3 + i]);
        }
        if list[k].len() >= 2 {
            assert(list[k][1] != ':');
        }
        assert(!separates(Separators::Both, list[k][0]));
    }
    assert(tail == list.subrange(2, n));
    assert forall|k: int| 2 <= k < n implies goes_behind(#[trigger] list[k]) by {
        assert(proper_part(list[k]) && unparted(list[k], Separators::Both));
        assert(!separates(Separators::Both, list[k][0]));
        assert(!separates(Separators::Both, list[k][list[k].len() - 1]));
    }
    names_are_pushed(list, n, letter);
    let text = join(tail, '\\');
    let target = below_drive(list, n);
    assert forall|i: int| 0 <= i < tail.len() implies proper_part(#[trigger] tail[i]) && unparted(
        tail[i],
        Separators::Both,
    ) by {
        assert(tail[i] == list[i + 2]);
    }
    // The path is spelled as the name is.
    swapped_slashes(rest);
    assert(target[0] == letter && target[1] == ':' && target[2] == '\\');
    assert forall|i: int| 2 <= i < path.len() implies #[trigger] target[i] == if path[i] == '/' {
        '\\'
    } else {
        path[i]
    } by {
        if i > 2 {
            assert(target[i] == text[i - 3]);
            assert(rest[i - 3] == path[i]);
        }
    }
    assert(spells_path(path, target));
    // Nothing in it is resolved.
    split_of_join(tail, '\\', Separators::Both);
    resolved_of_proper(tail);
    assert(target.skip(3) == text);
    assert(target.take(2).push('\\') == seq![letter, ':', '\\']);
    assert(!separator_at(target, 0));
    assert(prefix_kind(target) == PrefixKind::Disk);
    let last = list[n - 1];
    assert(proper_part(last) && unparted(last, Separators::Both));
    assert(!separates(Separators::Both, last[last.len() - 1]));
    assert(target.last() == last.last()) by {
        assert(tail.last() == last);
        if tail.len() > 1 {
            assert(text.last() == last.last());
        }
        assert(text.len() > 0);
    }
    assert(full_form(target) == target);
    // The name has a root and is not that of the tree.
    prefix_fits(path);
    assert(separator_at(path, 0));
    assert(has_root(path));
    assert(path != root_name()) by {
        assert(root_name().len() == 1);
    }
}

/// A name on a drive in which nothing is left to resolve, and which Windows may read as more
/// than the names in it, stands for the path that it spells, or for what the operating system
/// answers for that very path.
pub proof fn other_names_are_answered_for(path: Seq<char>, r: Option<Seq<char>>)
    requires
        names_on_a_drive(path),
        translates(path, r),
    ensures
        r is Some,
        exists|spelled: Seq<char>| #[trigger]
            spells_path(path, spelled) && (r->0 == spelled || is_answer_for(spelled, r->0)),
{
    let list = split(path, Separators::Slash);
    let target = below_drive(list, list.len() as int);
    other_names_are_spelled(path);
    if !settled(target) {
        let answer = choose|answer: Option<Seq<char>>| #[trigger]
            answers(target, answer) && r == Some(answered(target, answer));
        assert(answers(target, answer));
        assert(is_answer_for(target, r->0));
    }
    assert(spells_path(path, target));
}

/// `full` is what the operating system answers for the path, or the path where it has no answer.
pub open spec fn is_answer_for(path: Seq<char>, full: Seq<char>) -> bool {
    exists|answer: Option<Seq<char>>| #[trigger]
        answers(path, answer) && full == match answer {
            Some(text) => text,
            None => path,
        }
}

/// What stands between two slashes of a text is one of its segments.
proof fn piece_is_segment(text: Seq<char>, a: int, b: int)
    requires
        0 <= a <= b <= text.len(),
        a == 0 || text[a - 1] == '/',
        b == text.len() || text[b] == '/',
        forall|i: int| a <= i < b ==> #[trigger] text[i] != '/',
    ensures
        split(text, Separators::Slash).contains(text.subrange(a, b)),
{
    let set = Separators::Slash;
    let piece = text.subrange(a, b);
    let rest = text.skip(a);
    assert forall|i: int| 0 <= i < piece.len() implies !separates(set, #[trigger] piece[i]) by {
        assert(piece[i] == text[a + i]);
    }
    split_of_one(piece);
    assert(split(rest, set)[0] == piece && split(rest, set).len() > 0) by {
        if b == text.len() {
            assert(rest == piece);
        } else {
            let more = text.skip(b + 1);
            assert(rest == piece.push('/') + more);
            split_at_slash(piece, more);
        }
    }
    if a == 0 {
        assert(rest == text);
        assert(split(text, set)[0] == piece);
    } else {
        let before = text.take(a - 1);
        assert(text == before.push('/') + rest);
        split_at_slash(before, rest);
        assert(split(text, set)[split(before, set).len() as int] == piece);
    }
}

/// No character of the word ends what tells devices from files.
spec fn clean(word: Seq<char>) -> bool {
    forall|i: int|
        0 <= i < word.len() ==> #[trigger] word[i] != '.' && word[i] != ':' && word[i] != ' '
}

proof fn spelled_is_same_word(word: Seq<char>, lower: Seq<char>, upper: Seq<char>)
    requires
        spelled(word, lower, upper),
        lower.len() == upper.len(),
        clean(lower),
        clean(upper),
        forall|i: int|
            0 <= i < lower.len() ==> #[trigger] lower[i] == upper[i] || ('A' <= upper[i] <= 'Z'
                && lower[i] as u32 == upper[i] as u32 + 32),
    ensures
        same_word(word, lower),
        clean(word),
{
    assert forall|i: int| 0 <= i < word.len() implies same_letter(#[trigger] word[i], lower[i])
        && word[i] != '.' && word[i] != ':' && word[i] != ' ' by {
        assert(word[i] == lower[i] || word[i] == upper[i]);
        assert(lower[i] == upper[i] || ('A' <= upper[i] <= 'Z' && lower[i] as u32
            == upper[i] as u32 + 32));
        assert(lower[i] != '.' && upper[i] != '.');
    }
}

proof fn stem_end_is(name: Seq<char>, from: int, k: int)
    requires
        0 <= from <= k <= name.len(),
        clean(name.take(k)),
        k == name.len() || name[k] == '.' || name[k] == ' ',
    ensures
        stem_end(name, from) == k,
    decreases k - from,
{
    if from < k {
        assert(name.take(k)[from] == name[from]);
        stem_end_is(name, from + 1, k);
    }
}

/// What names a device is taken for the name of one.
proof fn named_devices_are_known(name: Seq<char>)
    requires
        names_device(name),
    ensures
        device_name(name),
{
    let k = choose|k: int|
        0 <= k <= name.len() && (k == name.len() || name[k] == '.' || name[k] == ' ')
            && #[trigger] device_word(name.take(k));
    let word = name.take(k);
    reveal_strlit("con");
    reveal_strlit("prn");
    reveal_strlit("aux");
    reveal_strlit("nul");
    reveal_strlit("conin$");
    reveal_strlit("conout$");
    reveal_strlit("com");
    reveal_strlit("lpt");
    assert("con"@ == seq!['c', 'o', 'n']);
    assert("prn"@ == seq!['p', 'r', 'n']);
    assert("aux"@ == seq!['a', 'u', 'x']);
    assert("nul"@ == seq!['n', 'u', 'l']);
    assert("conin$"@ == seq!['c', 'o', 'n', 'i', 'n', '$']);
    assert("conout$"@ == seq!['c', 'o', 'n', 'o', 'u', 't', '$']);
    assert("com"@ == seq!['c', 'o', 'm']);
    assert("lpt"@ == seq!['l', 'p', 't']);
    if spelled(word, "con"@, seq!['C', 'O', 'N']) {
        spelled_is_same_word(word, "con"@, seq!['C', 'O', 'N']);
    } else if spelled(word, "prn"@, seq!['P', 'R', 'N']) {
        spelled_is_same_word(word, "prn"@, seq!['P', 'R', 'N']);
    } else if spelled(word, "aux"@, seq!['A', 'U', 'X']) {
        spelled_is_same_word(word, "aux"@, seq!['A', 'U', 'X']);
    } else if spelled(word, "nul"@, seq!['N', 'U', 'L']) {
        spelled_is_same_word(word, "nul"@, seq!['N', 'U', 'L']);
    } else if spelled(word, "conin$"@, seq!['C', 'O', 'N', 'I', 'N', '$']) {
        spelled_is_same_word(word, "conin$"@, seq!['C', 'O', 'N', 'I', 'N', '$']);
    } else if spelled(word, "conout$"@, seq!['C', 'O', 'N', 'O', 'U', 'T', '$']) {
        spelled_is_same_word(word, "conout$"@, seq!['C', 'O', 'N', 'O', 'U', 'T', '$']);
    } else {
        let start = word.take(3);
        if spelled(start, "com"@, seq!['C', 'O', 'M']) {
            spelled_is_same_word(start, "com"@, seq!['C', 'O', 'M']);
        } else {
            spelled_is_same_word(start, "lpt"@, seq!['L', 'P', 'T']);
        }
        assert forall|i: int| 0 <= i < word.len() implies #[trigger] word[i] != '.' && word[i]
            != ':' && word[i] != ' ' by {
            if i < 3 {
                assert(start[i] == word[i]);
            }
        }
    }
    stem_end_is(name, 0, k);
}

/// A name on a drive that is too long, or with something between its slashes that no file can
/// be called on every version of Windows, is left to the operating system: it stands for what
/// that answers for the path that the name spells.
pub proof fn unusable_names_are_left_to_the_system(
    path: Seq<char>,
    a: int,
    b: int,
    r: Option<Seq<char>>,
)
    requires
        names_on_a_drive(path),
        utf16_len(path) > 32766 || (a > 2 && stands_between(path, a, b) && !usable(
            path.subrange(a, b),
        )),
        translates(path, r),
    ensures
        r is Some,
        exists|spelled: Seq<char>| #[trigger]
            spells_path(path, spelled) && is_answer_for(spelled, r->0),
{
    let list = split(path, Separators::Slash);
    let target = below_drive(list, list.len() as int);
    let rest = path.skip(3);
    other_names_are_spelled(path);
    assert(!settled(target)) by {
        if settled(target) {
            if utf16_len(path) > 32766 {
                spelling_is_as_long(path, target);
                utf16_is_units(target);
            } else {
                let piece = path.subrange(a, b);
                assert forall|i: int| a - 3 <= i < b - 3 implies #[trigger] rest[i] != '/' by {
                    assert(path[i + 3] != '/');
                }
                assert(a > 3 ==> rest[a - 4] == path[a - 1]);
                assert(b < path.len() ==> rest[b - 3] == path[b]);
                piece_is_segment(rest, a - 3, b - 3);
                assert(rest.subrange(a - 3, b - 3) == piece);
                let segments = split(target.skip(3), Separators::Both);
                let k = choose|k: int| 0 <= k < segments.len() && segments[k] == piece;
                assert(plain_segment(segments[k]));
                assert(seq!['.'] == dot() && seq!['.', '.'] == dot_dot());
                if names_device(piece) {
                    named_devices_are_known(piece);
                }
                assert(exists|i: int| 0 <= i < piece.len() && piece[i] == '\0') by {
                    assert(forall|i: int|
                        0 <= i < piece.len() ==> piece[i] == path[a + i] && path[a + i] != '/'
                            && path[a + i] != '\\' && path[a + i] != ':');
                }
                let i = choose|i: int| 0 <= i < piece.len() && piece[i] == '\0';
                assert(path[a + i] == '\0');
                assert(target[a + i] == '\0');
                assert(target.contains('\0'));
            }
        }
    }
    let answer = choose|answer: Option<Seq<char>>| #[trigger]
        answers(target, answer) && r == Some(answered(target, answer));
    assert(answers(target, answer));
    assert(is_answer_for(target, r->0));
    assert(spells_path(path, target));
}

/// A path that a name spells takes as many units as the name.
proof fn spelling_is_as_long(name: Seq<char>, path: Seq<char>)
    requires
        starts_at_drive(name),
        name.len() > 2,
        spells_path(name, path),
    ensures
        utf16_len(path) == utf16_len(name),
{
    swap_is_as_long(name, path, name.len() as int);
    assert(name.take(name.len() as int) == name);
    assert(path.take(name.len() as int) == path);
}

proof fn swap_is_as_long(name: Seq<char>, path: Seq<char>, n: int)
    requires
        starts_at_drive(name),
        name.len() > 2,
        spells_path(name, path),
        2 <= n <= name.len(),
    ensures
        utf16_len(path.take(n)) == utf16_len(name.take(n)),
    decreases n,
{
    assert(path.take(n).drop_last() == path.take(n - 1));
    assert(name.take(n).drop_last() == name.take(n - 1));
    assert(path.take(n).last() == path[n - 1] && name.take(n).last() == name[n - 1]);
    if n > 2 {
        swap_is_as_long(name, path, n - 1);
        assert(path[n - 1] == if name[n - 1] == '/' {
            '\\'
        } else {
            name[n - 1]
        });
    } else {
        assert(path.take(1).drop_last() == Seq::<char>::empty());
        assert(name.take(1).drop_last() == Seq::<char>::empty());
        assert(path.take(1).last() == path[0] && name.take(1).last() == name[0]);
        assert(utf16_len(path.take(1).drop_last()) == 0);
        assert(utf16_len(path.take(1)) == 1 && utf16_len(name.take(1)) == 1);
    }
}

/// What stands before the first slash of a name counts for nothing, if the name stands for a
/// path at all.
pub proof fn what_stands_before_the_first_slash_is_left_out(
    start: Seq<char>,
    path: Seq<char>,
    r: Option<Seq<char>>,
)
    requires
        forall|i: int| 0 <= i < start.len() ==> #[trigger] start[i] != '/',
        plainly_on_a_drive(path),
        translates(start + path, r),
        r is Some,
    ensures
        spells_path(path, r->0),
{
    let set = Separators::Slash;
    let whole = start + path;
    let rest = path.skip(1);
    let empty = Seq::<char>::empty();
    assert(whole == start.push('/') + rest);
    split_at_slash(start, rest);
    split_of_one(start);
    assert(path == empty.push('/') + rest);
    split_at_slash(empty, rest);
    assert(split(empty, set) == seq![empty]);
    let list = split(path, set);
    let longer = split(whole, set);
    let n = list.len() as int;
    split_of_drive_name(path);
    assert(longer.len() == n);
    assert forall|i: int| 1 <= i < n implies #[trigger] longer[i] == list[i] by {}
    below_drive_leaves_out_the_first(list, longer, n);
    assert(whole != root_name()) by {
        assert(root_name().len() == 1);
    }
    assert(path != root_name()) by {
        assert(root_name().len() == 1);
    }
    prefix_fits(path);
    assert(separator_at(path, 0));
    assert(has_root(path));
    assert(translates(path, r));
    plain_names_are_spelled_out(path, r);
}

proof fn below_drive_leaves_out_the_first(list: Seq<Seq<char>>, other: Seq<Seq<char>>, n: int)
    requires
        n <= list.len(),
        list.len() == other.len(),
        list.len() >= 2,
        forall|i: int| 1 <= i < list.len() ==> #[trigger] other[i] == list[i],
    ensures
        below_drive(other, n) == below_drive(list, n),
    decreases n,
{
    assert(other[1] == list[1]);
    if n > 2 {
        below_drive_leaves_out_the_first(list, other, n - 1);
        assert(other[n - 1] == list[n - 1]);
    }
}

/// How a name or a path is put behind a path on a drive. Another drive takes its place; what
/// begins with a separator, and just one, begins at the root of the drive; anything else goes
/// behind a backslash, unless there is one already.
pub proof fn paths_are_put_behind_paths(base: Seq<char>, path: Seq<char>)
    requires
        base.len() > 2,
        'a' <= base[0] <= 'z' || 'A' <= base[0] <= 'Z',
        base[1] == ':',
    ensures
        path.len() > 1 && ('a' <= path[0] <= 'z' || 'A' <= path[0] <= 'Z') && path[1] == ':'
            ==> pushed(base, path) == path,
        path.len() > 0 && (path[0] == '/' || path[0] == '\\') && (path.len() > 1 ==> path[1] != '/'
            && path[1] != '\\') ==> pushed(base, path) == seq![base[0], ':']
            + path,
        path.len() > 0 && path[0] != '/' && path[0] != '\\' && (path.len() > 1 ==> path[1] != ':')
            ==> pushed(base, path) == if base.last() == '/' || base.last()
            == '\\' {
            base + path
        } else {
            base.push('\\') + path
        },
{
    assert(!separator_at(base, 0));
    assert(prefix_kind(base) == PrefixKind::Disk);
    assert(base.take(2) == seq![base[0], ':']);
    if path.len() > 0 {
        assert(separator_at(path, 0) == (path[0] == '/' || path[0] == '\\'));
        if path.len() > 1 {
            assert(separator_at(path, 1) == (path[1] == '/' || path[1]
                == '\\'));
        } else {
            assert(!separator_at(path, 1));
        }
    }
}

/// Parting a text at slashes and joining the segments with slashes gives the text back, and no
/// segment holds a slash.
pub proof fn segments_make_up_the_text(text: Seq<char>)
    ensures
        join(split(text, Separators::Slash), '/') == text,
        forall|i: int, k: int|
            0 <= i < split(text, Separators::Slash).len() && 0 <= k < split(
                text,
                Separators::Slash,
            )[i].len() ==> #[trigger] split(text, Separators::Slash)[i][k] != '/',
{
    join_of_split(text);
    split_parts(text, Separators::Slash);
    assert forall|i: int, k: int|
        0 <= i < split(text, Separators::Slash).len() && 0 <= k < split(
            text,
            Separators::Slash,
        )[i].len() implies #[trigger] split(text, Separators::Slash)[i][k] != '/' by {
        let segment = split(text, Separators::Slash)[i];
        assert(unparted(segment, Separators::Slash));
        assert(!separates(Separators::Slash, segment[k]));
    }
}

/// The path that a name on a drive is put together to, before it is made full.
proof fn spelled_below_drive(path: Seq<char>)
    requires
        starts_at_drive(path),
        path.len() > 2,
        forall|k: int|
            2 <= k < split(path, Separators::Slash).len() ==> goes_behind(
                #[trigger] split(path, Separators::Slash)[k],
            ),
    ensures
        ({
            let list = split(path, Separators::Slash);
            spells_path(path, below_drive(list, list.len() as int))
        }),
{
    let list = split(path, Separators::Slash);
    let n = list.len() as int;
    let rest = path.skip(3);
    let letter = path[1];
    split_of_drive_name(path);
    split_is_nonempty(rest, Separators::Slash);
    assert(list.skip(2) == list.subrange(2, n));
    names_are_pushed(list, n, letter);
    swapped_slashes(rest);
    let text = join(list.skip(2), '\\');
    let target = below_drive(list, n);
    assert(target[0] == letter && target[1] == ':' && target[2] == '\\');
    assert forall|i: int| 2 <= i < path.len() implies #[trigger] target[i] == if path[i] == '/' {
        '\\'
    } else {
        path[i]
    } by {
        if i > 2 {
            assert(target[i] == text[i - 3]);
            assert(rest[i - 3] == path[i]);
        }
    }
}

/// What stands between the slashes of a name goes behind a backslash, if the name with slashes
/// for all its backslashes is plain.
proof fn segments_go_behind(path: Seq<char>, other: Seq<char>)
    requires
        starts_at_drive(path),
        path.len() > 2,
        other.len() == path.len(),
        forall|i: int|
            0 <= i < path.len() ==> #[trigger] other[i] == if path[i] == '\\' {
                '/'
            } else {
                path[i]
            },
        forall|i: int| 0 <= i < path.len() ==> #[trigger] path[i] != ':',
        plainly_on_a_drive(other),
    ensures
        forall|k: int|
            2 <= k < split(path, Separators::Slash).len() ==> goes_behind(
                #[trigger] split(path, Separators::Slash)[k],
            ),
{
    let list = split(path, Separators::Slash);
    let rest = path.skip(3);
    split_of_drive_name(path);
    assert forall|k: int| 2 <= k < list.len() implies goes_behind(#[trigger] list[k]) by {
        assert(list.skip(2)[k - 2] == list[k]);
        let (c, d) = place_of(rest, k - 2);
        let a = c + 3;
        let b = d + 3;
        assert(list[k] == rest.subrange(c, d));
        assert(path[a - 1] == '/') by {
            if c > 0 {
                assert(rest[c - 1] == path[a - 1]);
            }
        }
        assert(b == path.len() || path[b] == '/') by {
            if d < rest.len() {
                assert(rest[d] == path[b]);
            }
        }
        assert(other[a - 1] == '/');
        assert(b < path.len() ==> other[b] == '/');
        assert(!stands_between(other, a, a)) by {
            if stands_between(other, a, a) {
                assert(usable(other.subrange(a, a)));
            }
        }
        assert(!stands_between(other, b, b)) by {
            if stands_between(other, b, b) {
                assert(usable(other.subrange(b, b)));
            }
        }
        assert(a < b);
        assert(list[k][0] == path[a] && list[k][b - a - 1] == path[b - 1]);
        assert(rest[c] != '/' && rest[d - 1] != '/');
        assert(path[a] != '\\') by {
            assert(other[a] == if path[a] == '\\' { '/' } else { path[a] });
        }
        assert(path[b - 1] != '\\') by {
            assert(other[b - 1] == if path[b - 1] == '\\' { '/' } else { path[b - 1] });
        }
        if list[k].len() >= 2 {
            assert(list[k][1] == path[a + 1]);
        }
    }
}

/// Backslashes part names as slashes do: behind the letter of the drive, a name with some of
/// them for slashes stands for the same path as the name with slashes alone.
pub proof fn backslashes_part_names_too(path: Seq<char>, other: Seq<char>, r: Option<Seq<char>>)
    requires
        starts_at_drive(path),
        path.len() > 2,
        other.len() == path.len(),
        forall|i: int|
            0 <= i < path.len() ==> #[trigger] other[i] == if path[i] == '\\' {
                '/'
            } else {
                path[i]
            },
        forall|i: int| 0 <= i < path.len() ==> #[trigger] path[i] != ':',
        plainly_on_a_drive(other),
        translates(path, r),
    ensures
        r is Some,
        spells_path(other, r->0),
        translates(other, r),
{
    let list = split(path, Separators::Slash);
    let others = split(other, Separators::Slash);
    assert(other[0] == '/' && other[1] == path[1] && other[2] == '/');
    assert forall|i: int| 0 <= i < other.len() implies #[trigger] other[i] != ':' && other[i]
        != '\\' by {
        assert(path[i] != ':');
    }
    segments_go_behind(path, other);
    segments_go_behind(other, other);
    spelled_below_drive(path);
    spelled_below_drive(other);
    split_of_drive_name(path);
    split_of_drive_name(other);
    let target = below_drive(list, list.len() as int);
    let same = below_drive(others, others.len() as int);
    assert forall|i: int| 2 <= i < path.len() implies #[trigger] target[i] == same[i] by {
        assert(other[i] == if path[i] == '\\' { '/' } else { path[i] });
    }
    assert(target == same);
    assert(root_name().len() == 1);
    prefix_fits(path);
    prefix_fits(other);
    assert(separator_at(path, 0) && separator_at(other, 0));
    assert(has_root(path) && has_root(other));
    assert(translates(other, r));
    plain_names_are_spelled_out(other, r);
}

/// A name whose first part is not the letter of a drive stands for what the operating system
/// answers for that part with a colon and a backslash behind it.
pub proof fn other_roots_are_left_to_the_system(mount: Seq<char>, r: Option<Seq<char>>)
    requires
        mount.len() > 0,
        forall|i: int| 0 <= i < mount.len() ==> #[trigger] mount[i] != '/' && mount[i] != '\\',
        !(mount.len() == 1 && ('a' <= mount[0] <= 'z' || 'A' <= mount[0] <= 'Z')),
        translates(seq!['/'] + mount, r),
    ensures
        r is Some,
        is_answer_for(mount.push(':').push('\\'), r->0),
{
    let set = Separators::Slash;
    let empty = Seq::<char>::empty();
    let path = seq!['/'] + mount;
    let list = split(path, set);
    let target = mount.push(':').push('\\');
    assert(path == empty.push('/') + mount);
    split_at_slash(empty, mount);
    split_of_one(mount);
    assert(split(empty, set) == seq![empty]);
    assert(list == seq![empty, mount]);
    assert(below_drive(list, 2) == target);
    assert(path != root_name()) by {
        assert(root_name().len() == 1);
    }
    assert(separator_at(path, 0));
    prefix_fits(path);
    assert(has_root(path));
    assert(target[0] == mount[0]);
    assert(!separator_at(target, 0));
    assert(!settled(target)) by {
        if mount.len() >= 2 {
            assert(target[1] == mount[1]);
            assert(!separator_at(target, 2));
        }
    }
    let answer = choose|answer: Option<Seq<char>>| #[trigger]
        answers(target, answer) && r == Some(answered(target, answer));
    assert(answers(target, answer));
}

} // verus!
