//! What the canonical form of a name is, and the parent and the name at the end of a path,
//! character by character.

use vstd::prelude::*;

use crate::full_path::{full_form, settled};
use crate::name_laws::{place_of, split_at_slash, stands_between};
use crate::path_laws::{
    body_of_one, canonical_parts_of_names, components_of_name, drive_roots_have_two_components,
    join_of_split, last_separator_before, parents_lack_the_last_component, proper_part,
    split_at_last, split_extends, split_is_nonempty, split_without_backslash, unparted,
};
use crate::text::{join, last_separator, next_separator, separates, split, Separators};
use crate::unix_path::{canonical_name, canonical_parts};
use crate::windows_path::{
    body_components, body_end, body_start, components, device_start, dot, dot_dot, file_name,
    head_components, leading_dot, parent, prefix_fits, prefix_kind, segment_component,
    segment_start, separator_at, verbatim_start, written_root, Component, PrefixKind,
};

verus! {

/// The text holds no backslash.
pub open spec fn without_backslash(text: Seq<char>) -> bool {
    forall|i: int| 0 <= i < text.len() ==> #[trigger] text[i] != '\\'
}

/// A name that is neither `.` nor `..` and is parted by nothing.
pub open spec fn is_name(text: Seq<char>) -> bool {
    &&& text.len() > 0
    &&& text != seq!['.']
    &&& text != seq!['.', '.']
    &&& forall|i: int| 0 <= i < text.len() ==> #[trigger] text[i] != '/' && text[i] != '\\'
}

/// What counts for nothing wherever it stands in a name: a slash, a slash and a dot, or a name
/// behind a slash and `..` behind another.
pub open spec fn counts_for_nothing(text: Seq<char>) -> bool {
    ||| text == seq!['/']
    ||| text == seq!['/', '.']
    ||| exists|name: Seq<char>| #[trigger]
        is_name(name) && text == seq!['/'] + name + seq!['/', '.', '.']
}

/// What is left of the segments of a name with a root.
spec fn kept(list: Seq<Seq<char>>) -> Seq<Seq<char>> {
    canonical_parts(seq![Component::<Seq<char>>::RootDir] + body_components(list, false))
}

proof fn kept_of_none()
    ensures
        kept(Seq::empty()) == Seq::<Seq<char>>::empty(),
{
    let root = seq![Component::<Seq<char>>::RootDir];
    let none = Seq::<Seq<char>>::empty();
    assert(root + body_components(none, false) == root);
    assert(root.drop_last() == Seq::<Component<Seq<char>>>::empty());
    assert(canonical_parts(root.drop_last()) == none);
}

proof fn kept_of_push(list: Seq<Seq<char>>, segment: Seq<char>)
    ensures
        kept(list.push(segment)) == if segment.len() == 0 || segment == dot() {
            kept(list)
        } else if segment == dot_dot() {
            if kept(list).len() > 0 {
                kept(list).drop_last()
            } else {
                kept(list)
            }
        } else {
            kept(list).push(segment)
        },
{
    let root = seq![Component::<Seq<char>>::RootDir];
    let before = root + body_components(list, false);
    let whole = root + body_components(list.push(segment), false);
    assert(list.push(segment).drop_last() == list);
    match segment_component(segment, false) {
        Some(component) => {
            assert(whole == before.push(component));
            assert(whole.drop_last() == before);
            assert(whole.last() == component);
        },
        None => {
            assert(whole == before);
        },
    }
    assert(dot() != dot_dot()) by {
        assert(dot().len() == 1 && dot_dot().len() == 2);
    }
}

proof fn kept_without(list: Seq<Seq<char>>, idle: Seq<Seq<char>>, more: Seq<Seq<char>>)
    requires
        kept(list + idle) == kept(list),
    ensures
        kept(list + idle + more) == kept(list + more),
    decreases more.len(),
{
    if more.len() == 0 {
        assert(list + idle + more == list + idle);
        assert(list + more == list);
    } else {
        let front = more.drop_last();
        kept_without(list, idle, front);
        kept_of_push(list + idle + front, more.last());
        kept_of_push(list + front, more.last());
        assert((list + idle + front).push(more.last()) == list + idle + more);
        assert((list + front).push(more.last()) == list + more);
    }
}

/// The parts of a name with a root and no prefix.
proof fn parts_of_rooted(path: Seq<char>)
    requires
        path.len() > 0,
        path[0] == '/',
        path.len() > 1 ==> path[1] != '/',
        without_backslash(path),
    ensures
        canonical_parts(components(path)) == kept(split(path.skip(1), Separators::Slash)),
{
    let rest = path.skip(1);
    assert(separator_at(path, 0));
    assert(!separator_at(path, 1));
    assert(prefix_kind(path) == PrefixKind::Absent);
    assert(head_components(path) == seq![Component::<Seq<char>>::RootDir]);
    assert(!rest.contains('\\')) by {
        if rest.contains('\\') {
            let i = choose|i: int| 0 <= i < rest.len() && rest[i] == '\\';
            assert(path[i + 1] == '\\');
        }
    }
    split_without_backslash(rest);
}

proof fn split_of_whole(text: Seq<char>)
    requires
        unparted(text, Separators::Slash),
    ensures
        split(text, Separators::Slash) == seq![text],
{
    let empty = Seq::<char>::empty();
    split_extends(empty, text, Separators::Slash);
    assert(empty + text == text);
    assert(split(empty, Separators::Slash) == seq![empty]);
    assert(seq![empty].drop_last().push(text) == seq![text]);
}

spec fn tail(text: Seq<char>) -> Seq<Seq<char>> {
    if text.len() == 0 {
        Seq::empty()
    } else {
        split(text.skip(1), Separators::Slash)
    }
}

proof fn split_with_tail(path: Seq<char>, text: Seq<char>)
    requires
        text.len() == 0 || text[0] == '/',
    ensures
        split(path + text, Separators::Slash) == split(path, Separators::Slash) + tail(text),
{
    if text.len() == 0 {
        assert(path + text == path);
        assert(split(path, Separators::Slash) + tail(text) == split(path, Separators::Slash));
    } else {
        assert(path + text == path.push('/') + text.skip(1));
        split_at_slash(path, text.skip(1));
    }
}

/// A name in which nothing is left to resolve is its own canonical form: between its slashes
/// stand names, and none is missing.
pub proof fn resolved_names_are_canonical(path: Seq<char>)
    requires
        path == seq!['/'] || path.len() > 1 && path[0] == '/' && without_backslash(path) && forall|
            a: int,
            b: int,
        | #[trigger]
            stands_between(path, a, b) ==> a < b && path.subrange(a, b) != seq!['.']
                && path.subrange(a, b) != seq!['.', '.'],
    ensures
        canonical_name(path) == path,
{
    let rest = path.skip(1);
    let empty = Seq::<char>::empty();
    if path == seq!['/'] {
        assert(rest == empty);
        assert(split(empty, Separators::Slash) == seq![empty]);
        parts_of_rooted(path);
        kept_of_none();
        kept_of_push(Seq::empty(), empty);
        assert(Seq::<Seq<char>>::empty().push(empty) == seq![empty]);
        assert(canonical_name(path) == path);
    } else {
        let list = split(rest, Separators::Slash);
        split_is_nonempty(rest, Separators::Slash);
        assert(path[1] != '/') by {
            if path[1] == '/' {
                assert(stands_between(path, 1, 1));
            }
        }
        assert forall|k: int| 0 <= k < list.len() implies proper_part(#[trigger] list[k])
            && unparted(list[k], Separators::Both) by {
            let (a, b) = place_of(rest, k);
            assert forall|i: int| a + 1 <= i < b + 1 implies #[trigger] path[i] != '/' by {
                assert(rest[i - 1] == path[i]);
            }
            assert(path[a] == '/') by {
                if a > 0 {
                    assert(rest[a - 1] == path[a]);
                }
            }
            assert(b + 1 == path.len() || path[b + 1] == '/') by {
                if b < rest.len() {
                    assert(rest[b] == path[b + 1]);
                }
            }
            assert(stands_between(path, a + 1, b + 1));
            assert(path.subrange(a + 1, b + 1) == rest.subrange(a, b));
            assert(seq!['.'] == dot() && seq!['.', '.'] == dot_dot());
            assert forall|i: int| 0 <= i < list[k].len() implies !separates(
                Separators::Both,
                #[trigger] list[k][i],
            ) by {
                assert(list[k][i] == path[a + 1 + i]);
            }
        }
        join_of_split(rest);
        assert(path == seq!['/'] + join(list, '/'));
        components_of_name(list);
        canonical_parts_of_names(list);
    }
}

/// A slash too many, a dot, or a name and `..` count for nothing, wherever they stand in a
/// name: without them it has the same canonical form.
pub proof fn idle_parts_do_not_show(path: Seq<char>, part: Seq<char>, more: Seq<char>)
    requires
        path.len() > 1,
        path[0] == '/',
        path[1] != '/',
        counts_for_nothing(part),
        more.len() == 0 || more[0] == '/',
        without_backslash(path),
        without_backslash(more),
    ensures
        canonical_name(path + part + more) == canonical_name(path + more),
{
    let set = Separators::Slash;
    let empty = Seq::<char>::empty();
    let rest = path.skip(1);
    let list = split(rest, set);
    assert(without_backslash(part) && part.len() > 0 && part[0] == '/') by {
        if part != seq!['/'] && part != seq!['/', '.'] {
            let name = choose|name: Seq<char>| #[trigger]
                is_name(name) && part == seq!['/'] + name + seq!['/', '.', '.'];
            assert forall|i: int| 0 <= i < part.len() implies #[trigger] part[i] != '\\' by {
                if 1 <= i < name.len() + 1 {
                    assert(part[i] == name[i - 1]);
                } else if i > 0 {
                    assert(part[i] == seq!['/', '.', '.'][i - name.len() - 1]);
                }
            }
        }
    }
    if part == seq!['/'] {
        assert(part.skip(1) == empty);
        assert(split(empty, set) == seq![empty]);
        assert(list + seq![empty] == list.push(empty));
        kept_of_push(list, empty);
    } else if part == seq!['/', '.'] {
        assert(part.skip(1) == dot());
        assert(dot()[0] == '.');
        split_of_whole(dot());
        assert(list + seq![dot()] == list.push(dot()));
        kept_of_push(list, dot());
    } else {
        let name = choose|name: Seq<char>| #[trigger]
            is_name(name) && part == seq!['/'] + name + seq!['/', '.', '.'];
        assert(seq!['.'] == dot() && seq!['.', '.'] == dot_dot());
        assert(part.skip(1) == name.push('/') + dot_dot());
        assert(dot_dot()[0] == '.' && dot_dot()[1] == '.');
        split_at_slash(name, dot_dot());
        split_of_whole(name);
        split_of_whole(dot_dot());
        assert(tail(part) == seq![name] + seq![dot_dot()]);
        assert(list + tail(part) == list.push(name).push(dot_dot()));
        kept_of_push(list, name);
        kept_of_push(list.push(name), dot_dot());
        assert(kept(list).push(name).drop_last() == kept(list));
    }
    split_with_tail(rest, part);
    split_with_tail(rest, more);
    split_with_tail(rest + part, more);
    kept_without(list, tail(part), tail(more));
    let short = path + more;
    let long = path + part + more;
    assert(short.skip(1) == rest + more);
    assert(long.skip(1) == rest + part + more);
    assert(short[0] == path[0] && short[1] == path[1]);
    assert(long[0] == path[0] && long[1] == path[1]);
    assert forall|i: int| 0 <= i < short.len() implies #[trigger] short[i] != '\\' by {
        if i >= path.len() {
            assert(short[i] == more[i - path.len()]);
        } else {
            assert(short[i] == path[i]);
        }
    }
    assert forall|i: int| 0 <= i < long.len() implies #[trigger] long[i] != '\\' by {
        if i < path.len() {
            assert(long[i] == path[i]);
        } else if i < path.len() + part.len() {
            assert(long[i] == part[i - path.len()]);
        } else {
            assert(long[i] == more[i - path.len() - part.len()]);
        }
    }
    parts_of_rooted(short);
    parts_of_rooted(long);
}

/// There is no way up from the root of the tree: `..` counts for nothing there.
pub proof fn nothing_is_above_the_root(more: Seq<char>)
    requires
        more.len() > 0,
        more[0] == '/',
        more.len() > 1 ==> more[1] != '/',
        without_backslash(more),
    ensures
        canonical_name(seq!['/', '.', '.'] + more) == canonical_name(more),
        canonical_name(seq!['/', '.', '.']) == seq!['/'],
{
    let set = Separators::Slash;
    let none = Seq::<Seq<char>>::empty();
    let up = seq!['/', '.', '.'];
    let path = up + more;
    assert(dot_dot()[0] == '.' && dot_dot()[1] == '.');
    split_of_whole(dot_dot());
    kept_of_none();
    kept_of_push(none, dot_dot());
    assert(none.push(dot_dot()) == none + seq![dot_dot()]);
    assert(none + seq![dot_dot()] == seq![dot_dot()]);
    assert(up.skip(1) == dot_dot());
    parts_of_rooted(up);
    assert(canonical_name(up) == seq!['/']);
    split_with_tail(dot_dot(), more);
    assert(path.skip(1) == dot_dot() + more);
    assert forall|i: int| 0 <= i < path.len() implies #[trigger] path[i] != '\\' by {
        if i >= 3 {
            assert(path[i] == more[i - 3]);
        } else {
            assert(path[i] == up[i]);
        }
    }
    assert(path[1] == up[1]);
    parts_of_rooted(path);
    parts_of_rooted(more);
    kept_without(none, seq![dot_dot()], tail(more));
    assert(none + seq![dot_dot()] + tail(more) == seq![dot_dot()] + tail(more));
    assert(none + tail(more) == tail(more));
}

proof fn heads_do_not_count(head: Component<Seq<char>>, list: Seq<Component<Seq<char>>>)
    requires
        head is RootDir || head is CurDir,
    ensures
        canonical_parts(seq![head] + list) == canonical_parts(list),
    decreases list.len(),
{
    let whole = seq![head] + list;
    if list.len() == 0 {
        assert(whole.drop_last() == list);
        assert(whole.last() == head);
    } else {
        heads_do_not_count(head, list.drop_last());
        assert(whole.drop_last() == seq![head] + list.drop_last());
        assert(whole.last() == list.last());
    }
}

/// A name without a root is read from the root of the tree on, and the empty name is the root.
pub proof fn names_are_read_from_the_root(path: Seq<char>)
    requires
        without_backslash(path),
        path.len() > 0 ==> path[0] != '/',
        path.len() > 1 ==> path[1] != ':',
    ensures
        canonical_name(path) == canonical_name(seq!['/'] + path),
        path.len() == 0 ==> canonical_name(path) == seq!['/'],
{
    let set = Separators::Slash;
    let root = Component::<Seq<char>>::RootDir;
    let empty = Seq::<char>::empty();
    let rooted = seq!['/'] + path;
    assert forall|i: int| 0 <= i < rooted.len() implies #[trigger] rooted[i] != '\\' by {
        if i > 0 {
            assert(rooted[i] == path[i - 1]);
        }
    }
    if path.len() > 0 {
        assert(rooted[1] == path[0]);
    }
    parts_of_rooted(rooted);
    assert(rooted.skip(1) == path);
    assert(!separator_at(path, 0));
    assert(prefix_kind(path) == PrefixKind::Absent);
    let none = Seq::<Component<Seq<char>>>::empty();
    if leading_dot(path) {
        let rest = path.skip(1);
        assert(head_components(path) == seq![Component::<Seq<char>>::CurDir]);
        assert(!rest.contains('\\')) by {
            if rest.contains('\\') {
                let i = choose|i: int| 0 <= i < rest.len() && rest[i] == '\\';
                assert(path[i + 1] == '\\');
            }
        }
        split_without_backslash(rest);
        heads_do_not_count(Component::CurDir, body_components(split(rest, set), false));
        heads_do_not_count(root, body_components(split(rest, set), false));
        if rest.len() > 0 {
            assert(separator_at(path, 1));
            assert(rest[0] == path[1]);
        }
        assert(dot()[0] == '.');
        split_of_whole(dot());
        split_with_tail(dot(), rest);
        assert(path == dot() + rest);
        let none = Seq::<Seq<char>>::empty();
        kept_of_none();
        kept_of_push(none, dot());
        kept_of_push(none, empty);
        assert(none.push(dot()) == none + seq![dot()]);
        assert(none.push(empty) == none + seq![empty]);
        kept_without(none, seq![dot()], tail(rest));
        kept_without(none, seq![empty], tail(rest));
        assert(none + seq![dot()] + tail(rest) == seq![dot()] + tail(rest));
        split_with_tail(empty, rest);
        assert(empty + rest == rest);
        assert(split(empty, set) == seq![empty]);
        assert(none + seq![empty] + tail(rest) == seq![empty] + tail(rest));
    } else {
        assert(head_components(path) == none);
        assert(path.skip(0) == path);
        assert(!path.contains('\\'));
        split_without_backslash(path);
        let body = body_components(split(path, set), false);
        assert(none + body == body);
        heads_do_not_count(root, body);
    }
    if path.len() == 0 {
        assert(rooted == seq!['/']);
        resolved_names_are_canonical(rooted);
    }
}

proof fn split_of_swapped(text: Seq<char>, other: Seq<char>)
    requires
        other.len() == text.len(),
        forall|i: int|
            0 <= i < text.len() ==> #[trigger] other[i] == if text[i] == '\\' {
                '/'
            } else {
                text[i]
            },
    ensures
        split(other, Separators::Both) == split(text, Separators::Both),
    decreases text.len(),
{
    if text.len() > 0 {
        assert forall|i: int| 0 <= i < text.len() - 1 implies #[trigger] other.drop_last()[i]
            == if text.drop_last()[i] == '\\' {
            '/'
        } else {
            text.drop_last()[i]
        } by {
            assert(other[i] == other.drop_last()[i]);
        }
        split_of_swapped(text.drop_last(), other.drop_last());
        assert(other[text.len() - 1] == other.last());
    }
}

/// In the canonical form of a name backslashes count as slashes, unless the name begins with
/// two separators, as that of a server does.
pub proof fn backslashes_count_as_slashes(path: Seq<char>, other: Seq<char>)
    requires
        other.len() == path.len(),
        forall|i: int|
            0 <= i < path.len() ==> #[trigger] other[i] == if path[i] == '\\' {
                '/'
            } else {
                path[i]
            },
        path.len() > 1 ==> !((path[0] == '/' || path[0] == '\\') && (path[1] == '/' || path[1]
            == '\\')),
    ensures
        canonical_name(other) == canonical_name(path),
{
    assert forall|i: int| 0 <= i < path.len() implies separator_at(other, i) == separator_at(
        path,
        i,
    ) by {
        assert(other[i] == if path[i] == '\\' { '/' } else { path[i] });
    }
    if path.len() > 0 {
        assert(other[0] == if path[0] == '\\' { '/' } else { path[0] });
    }
    if path.len() > 1 {
        assert(other[1] == if path[1] == '\\' { '/' } else { path[1] });
    }
    assert(separator_at(other, 0) == separator_at(path, 0));
    assert(separator_at(other, 1) == separator_at(path, 1));
    assert(separator_at(other, 2) == separator_at(path, 2));
    assert(prefix_kind(other) == prefix_kind(path));
    assert(prefix_kind(path) == PrefixKind::Absent || prefix_kind(path) == PrefixKind::Disk);
    assert(written_root(other) == written_root(path));
    assert(leading_dot(other) == leading_dot(path));
    if prefix_kind(path) == PrefixKind::Disk {
        assert(other.take(2) == path.take(2));
    }
    assert(head_components(other) == head_components(path));
    let start = body_start(path);
    prefix_fits(path);
    let text = path.skip(start);
    let swapped = other.skip(start);
    assert forall|i: int| 0 <= i < text.len() implies #[trigger] swapped[i] == if text[i]
        == '\\' {
        '/'
    } else {
        text[i]
    } by {
        assert(other[i + start] == swapped[i]);
    }
    split_of_swapped(text, swapped);
}

/// A directory on a drive, as a path: a letter and a colon, and behind them nothing, or a
/// backslash and something that ends in a name.
pub open spec fn directory_path(path: Seq<char>) -> bool {
    &&& path.len() >= 2
    &&& 'a' <= path[0] <= 'z' || 'A' <= path[0] <= 'Z'
    &&& path[1] == ':'
    &&& path.len() > 2 ==> {
        let last = path[path.len() - 1];
        let before = path[path.len() - 2];
        &&& path[2] == '\\'
        &&& last != '/' && last != '\\'
        &&& !(last == '.' && (before == '/' || before == '\\'))
    }
}

proof fn last_separator_is(s: Seq<char>, at: int, end: int, set: Separators)
    requires
        0 <= at < end <= s.len(),
        separates(set, s[at]),
        forall|i: int| at < i < end ==> !separates(set, #[trigger] s[i]),
    ensures
        last_separator(s, end, set) == at,
    decreases end,
{
    if at < end - 1 {
        assert(!separates(set, s[end - 1]));
        last_separator_is(s, at, end - 1, set);
    }
}

proof fn last_separator_parts(s: Seq<char>, end: int, set: Separators)
    requires
        0 <= end <= s.len(),
        last_separator(s, end, set) >= 0,
    ensures
        last_separator(s, end, set) < end,
        separates(set, s[last_separator(s, end, set)]),
    decreases end,
{
    if end > 0 && !separates(set, s[end - 1]) {
        last_separator_parts(s, end - 1, set);
    }
}

/// The path leads to what is called `name` in the directory `base`; there may be a backslash
/// behind the name.
pub open spec fn leads_into(path: Seq<char>, base: Seq<char>, name: Seq<char>) -> bool {
    &&& directory_path(base)
    &&& is_name(name)
    &&& path == base.push('\\') + name || path == (base.push('\\') + name).push('\\')
}

/// The path of a directory, as it stands before the names in it: the root of a drive has its
/// backslash.
pub open spec fn as_directory(base: Seq<char>) -> Seq<char> {
    if base.len() == 2 {
        base.push('\\')
    } else {
        base
    }
}

/// The name at the end of a path is the one behind its last backslash, and its parent is what
/// stands before. A backslash at the end makes no difference.
pub proof fn parents_and_names_are_exact(path: Seq<char>, base: Seq<char>, name: Seq<char>)
    requires
        leads_into(path, base, name),
    ensures
        file_name(path) == Some(name),
        parent(path) == Some(as_directory(base)),
        components(path) == components(as_directory(base)).push(Component::Normal(name)),
        components(path).len() > 2,
{
    let set = Separators::Both;
    let k = base.len() as int;
    let end = k + 1 + name.len();
    let len = path.len() as int;
    let empty = Seq::<char>::empty();
    assert(forall|i: int| 0 <= i < k ==> path[i] == base[i]);
    assert(path[k] == '\\');
    assert(forall|i: int| 0 <= i < name.len() ==> path[k + 1 + i] == name[i]);
    assert(path[0] == base[0] && path[1] == base[1]);
    assert(path[2] == '\\') by {
        if k > 2 {
            assert(path[2] == base[2]);
        }
    }
    assert(!separator_at(path, 0));
    assert(separator_at(path, 2));
    assert(prefix_kind(path) == PrefixKind::Disk);
    assert(seq!['.'] == dot() && seq!['.', '.'] == dot_dot());
    // The name is the last segment that counts.
    assert forall|i: int| k < i < end implies !separates(set, #[trigger] path[i]) by {
        assert(path[k + 1 + (i - k - 1)] == name[i - k - 1]);
    }
    last_separator_is(path, k, end, set);
    assert(path.subrange(k + 1, end) == name);
    assert(path.skip(3) == path.subrange(3, len));
    let head = head_components(path);
    assert(head == seq![Component::Prefix(path.take(2)), Component::<Seq<char>>::RootDir]);
    split_at_last(path, 3, end, set);
    let list = split(path.subrange(3, end), set);
    let body = body_components(list, false);
    if k == 2 {
        assert(path.subrange(3, end) == name);
        body_of_one(name, false);
        assert(body == seq![Component::Normal(name)]);
    } else {
        let front = split(path.subrange(3, k), set);
        assert(list == front.push(name));
        assert(front.push(name).drop_last() == front);
        assert(body == body_components(front, false).push(Component::Normal(name)));
    }
    if len > end {
        assert(path[end] == '\\');
        last_separator_is(path, end, len, set);
        split_at_last(path, 3, len, set);
        assert(path.subrange(end + 1, len) == empty);
        assert(split(path.skip(3), set) == list.push(empty));
        assert(list.push(empty).drop_last() == list);
        assert(segment_start(path, 3, len) == len);
        assert(path.subrange(len, len) == empty);
        assert(body_end(path, 3, len) == body_end(path, 3, end));
    }
    assert(components(path) == head + body);
    assert(components(path).last() == Component::Normal(name));
    // What stands before it ends in a name too, or is the drive.
    assert(segment_start(path, 3, end) == k + 1);
    assert(body_end(path, 3, end) == end);
    if k == 2 {
        assert(body_end(path, 3, 2) == 3);
        assert(path.take(3) == base.push('\\'));
    } else {
        assert(k > 3);
        let last = path[k - 1];
        let before = path[k - 2];
        assert(last == base[k - 1] && before == base[k - 2]);
        assert(!separates(set, path[k - 1]));
        let from = segment_start(path, 3, k);
        let at = last_separator(path, k, set);
        last_separator_before(path, k - 1, set);
        assert(at == last_separator(path, k - 1, set));
        if at >= 0 {
            last_separator_parts(path, k, set);
        }
        assert(3 <= from < k);
        let segment = path.subrange(from, k);
        assert(segment.last() == last);
        assert(segment != dot()) by {
            if segment == dot() {
                assert(segment.len() == 1 && segment[0] == '.');
                assert(from == k - 1);
                assert(separates(set, path[k - 2]));
            }
        }
        assert(segment_component(segment, false) is Some);
        assert(body_end(path, 3, k) == k);
        assert(path.take(k) == base);
    }
    parents_lack_the_last_component(path);
    assert(components(path).drop_last().push(Component::Normal(name)) == components(path));
}

/// The root of a drive has no parent and no name.
pub proof fn drive_roots_have_no_parent(letter: char)
    requires
        'a' <= letter <= 'z' || 'A' <= letter <= 'Z',
    ensures
        parent(seq![letter, ':', '\\']) is None,
        file_name(seq![letter, ':', '\\']) is None,
        components(seq![letter, ':', '\\']).len() == 2,
{
    let path = seq![letter, ':', '\\'];
    drive_roots_have_two_components(letter);
    assert(!separator_at(path, 0));
    assert(separator_at(path, 2));
    assert(prefix_kind(path) == PrefixKind::Disk);
    assert(body_end(path, 3, 3) == 3);
}

/// What stands behind the last separator of a path is the name at its end, also where the path
/// begins with no drive; a path without separators is a name itself.
pub proof fn names_at_the_end_are_exact(path: Seq<char>, at: int)
    requires
        -1 <= at < path.len(),
        at >= 0 ==> path[at] == '/' || path[at] == '\\',
        is_name(path.skip(at + 1)),
        path.len() > 1 ==> path[1] != ':',
        path.len() > 1 && (path[0] == '/' || path[0] == '\\') ==> path[1] != '/' && path[1]
            != '\\',
    ensures
        file_name(path) == Some(path.skip(at + 1)),
{
    let set = Separators::Both;
    let len = path.len() as int;
    let name = path.skip(at + 1);
    assert(seq!['.'] == dot() && seq!['.', '.'] == dot_dot());
    assert forall|i: int| at < i < len implies !separates(set, #[trigger] path[i]) by {
        assert(path[i] == name[i - at - 1]);
    }
    if path.len() > 1 {
        assert(separator_at(path, 0) ==> !separator_at(path, 1));
    }
    assert(prefix_kind(path) == PrefixKind::Absent);
    let start = body_start(path);
    if leading_dot(path) {
        assert(at >= 1) by {
            if at == -1 {
                assert(name == path);
                if len == 1 {
                    assert(path == dot());
                } else {
                    assert(separates(set, path[1]));
                }
            }
        }
    }
    assert(written_root(path) ==> at >= 0);
    if at >= 0 {
        last_separator_is(path, at, len, set);
    } else {
        last_separator_before(path, len, set);
        if last_separator(path, len, set) >= 0 {
            last_separator_parts(path, len, set);
        }
    }
    split_at_last(path, start, len, set);
    let text = path.subrange(start, len);
    assert(path.skip(start) == text);
    let list = split(text, set);
    assert(name == path.subrange(at + 1, len));
    if at < start {
        assert(text == name);
        body_of_one(name, false);
    } else {
        let front = split(path.subrange(start, at), set);
        assert(front.push(name).drop_last() == front);
    }
    assert(body_components(list, false).last() == Component::Normal(name));
    assert(components(path).last() == Component::Normal(name));
}

proof fn next_separator_is(s: Seq<char>, from: int, at: int, set: Separators)
    requires
        0 <= from <= at <= s.len(),
        at < s.len() ==> separates(set, s[at]),
        forall|i: int| from <= i < at ==> !separates(set, #[trigger] s[i]),
    ensures
        next_separator(s, from, set) == at,
    decreases at - from,
{
    if from < at {
        assert(!separates(set, s[from]));
        next_separator_is(s, from + 1, at, set);
    }
}

/// Two separators, the name of a server and that of a share are one component, and the root of
/// the share is the next, whether it is written down or not.
pub proof fn servers_and_shares_are_prefixes(
    path: Seq<char>,
    server: Seq<char>,
    share: Seq<char>,
    rest: Seq<char>,
)
    requires
        is_name(server),
        is_name(share),
        server != seq!['?'],
        rest.len() > 0 ==> rest[0] == '\\' || rest[0] == '/',
        path == seq!['\\', '\\'] + server + seq!['\\'] + share + rest,
    ensures
        components(path).len() >= 2,
        components(path)[0] == Component::Prefix(
            seq!['\\', '\\'] + server + seq!['\\'] + share,
        ),
        components(path)[1] == Component::<Seq<char>>::RootDir,
{
    let set = Separators::Both;
    let a = 2 + server.len() as int;
    let b = a + 1 + share.len();
    assert(path[0] == '\\' && path[1] == '\\');
    assert forall|i: int| 2 <= i < a implies !separates(set, #[trigger] path[i]) by {
        assert(path[i] == server[i - 2]);
    }
    assert(path[a] == '\\');
    assert forall|i: int| a + 1 <= i < b implies !separates(set, #[trigger] path[i]) by {
        assert(path[i] == share[i - a - 1]);
    }
    if b < path.len() {
        assert(path[b] == rest[0]);
    }
    next_separator_is(path, 2, a, set);
    next_separator_is(path, a + 1, b, set);
    assert(separator_at(path, 0) && separator_at(path, 1));
    assert(path[2] == server[0]);
    assert(!verbatim_start(path)) by {
        if verbatim_start(path) {
            assert(separates(set, path[3]));
            assert(server.len() == 1);
            assert(server == seq!['?']);
        }
    }
    assert(!device_start(path)) by {
        if device_start(path) {
            assert(separates(set, path[3]));
            assert(server.len() == 1);
            assert(server == seq!['.']);
        }
    }
    assert(prefix_kind(path) == PrefixKind::Unc);
    let prefix = seq!['\\', '\\'] + server + seq!['\\'] + share;
    assert(path.take(b) == prefix);
    assert(head_components(path) == seq![
        Component::Prefix(prefix),
        Component::<Seq<char>>::RootDir,
    ]);
    assert(components(path)[0] == head_components(path)[0]);
    assert(components(path)[1] == head_components(path)[1]);
}

/// A path that is to be taken as it is, is full as it is.
pub proof fn verbatim_paths_are_full(path: Seq<char>)
    requires
        path.len() >= 4,
        path.take(4) == seq!['\\', '\\', '?', '\\'],
    ensures
        settled(path),
        full_form(path) == path,
{
    let start = seq!['\\', '\\', '?', '\\'];
    assert(path[0] == start[0] && path[1] == start[1] && path[2] == start[2] && path[3] == start[3])
        by {
        assert(path.take(4)[0] == path[0] && path.take(4)[1] == path[1] && path.take(4)[2]
            == path[2] && path.take(4)[3] == path[3]);
    }
    assert(prefix_kind(path) == PrefixKind::Verbatim);
}

proof fn same_start_same_parts(
    start: Seq<Component<Seq<char>>>,
    other: Seq<Component<Seq<char>>>,
    list: Seq<Component<Seq<char>>>,
)
    requires
        canonical_parts(start) == canonical_parts(other),
    ensures
        canonical_parts(start + list) == canonical_parts(other + list),
    decreases list.len(),
{
    if list.len() == 0 {
        assert(start + list == start);
        assert(other + list == other);
    } else {
        let front = list.drop_last();
        same_start_same_parts(start, other, front);
        assert((start + list).drop_last() == start + front);
        assert((other + list).drop_last() == other + front);
    }
}

proof fn body_of_first(segment: Seq<char>, list: Seq<Seq<char>>)
    ensures
        body_components(seq![segment] + list, false) == body_components(seq![segment], false)
            + body_components(list, false),
    decreases list.len(),
{
    let whole = seq![segment] + list;
    if list.len() == 0 {
        assert(whole == seq![segment]);
        assert(body_components(seq![segment], false) + body_components(list, false)
            == body_components(seq![segment], false));
    } else {
        body_of_first(segment, list.drop_last());
        assert(whole.drop_last() == seq![segment] + list.drop_last());
        assert(whole.last() == list.last());
        match segment_component(list.last(), false) {
            Some(component) => {
                assert(body_components(whole, false) == body_components(seq![segment], false)
                    + body_components(list, false));
            },
            None => {},
        }
    }
}

/// A drive at the beginning of a name, with its colon, counts as a name.
pub proof fn drives_with_colons_count_as_names(letter: char, rest: Seq<char>)
    requires
        'a' <= letter <= 'z' || 'A' <= letter <= 'Z',
        rest.len() > 0 ==> rest[0] == '/',
        without_backslash(rest),
    ensures
        canonical_name(seq![letter, ':'] + rest) == canonical_name(seq!['/', letter, ':'] + rest),
{
    let set = Separators::Slash;
    let drive = seq![letter, ':'];
    let path = drive + rest;
    let rooted = seq!['/', letter, ':'] + rest;
    let root = Component::<Seq<char>>::RootDir;
    let none = Seq::<Component<Seq<char>>>::empty();
    // As a name it stands behind the root.
    assert forall|i: int| 0 <= i < rooted.len() implies #[trigger] rooted[i] != '\\' by {
        if i >= 3 {
            assert(rooted[i] == rest[i - 3]);
        } else {
            assert(rooted[i] == seq!['/', letter, ':'][i]);
        }
    }
    assert(rooted[1] == letter);
    parts_of_rooted(rooted);
    assert(rooted.skip(1) == path);
    split_with_tail(drive, rest);
    assert(drive[0] == letter && drive[1] == ':');
    split_of_whole(drive);
    body_of_first(drive, tail(rest));
    body_of_one(drive, false);
    assert(segment_component(drive, false) == Some(Component::Normal(drive))) by {
        assert(dot().len() == 1);
        assert(dot_dot()[1] == '.');
    }
    let body = body_components(tail(rest), false);
    let named = seq![root, Component::Normal(drive)];
    assert(seq![root] + (seq![Component::Normal(drive)] + body) == named + body);
    // As a drive it stands before it.
    assert(path[0] == letter && path[1] == ':');
    assert(!separator_at(path, 0));
    assert(prefix_kind(path) == PrefixKind::Disk);
    assert(path.take(2) == drive);
    assert(named.drop_last() == seq![root]);
    assert(seq![root].drop_last() == none);
    assert(canonical_parts(seq![root]) == canonical_parts(none));
    assert(canonical_parts(named) == Seq::<Seq<char>>::empty().push(drive));
    if rest.len() == 0 {
        let head = seq![Component::Prefix(drive)];
        assert(head_components(path) == head);
        assert(path.skip(2) == Seq::<char>::empty());
        assert(split(Seq::<char>::empty(), Separators::Both) == seq![Seq::<char>::empty()]);
        body_of_one(Seq::empty(), false);
        assert(head.drop_last() == none);
        assert(canonical_parts(head) == canonical_parts(named));
        assert(components(path) == head + none);
        assert(body == none);
        same_start_same_parts(head, named, none);
    } else {
        let head = seq![Component::Prefix(drive), root];
        assert(separator_at(path, 2)) by {
            assert(path[2] == rest[0]);
        }
        assert(head_components(path) == head);
        let more = rest.skip(1);
        assert(path.skip(3) == more);
        assert(!more.contains('\\')) by {
            if more.contains('\\') {
                let i = choose|i: int| 0 <= i < more.len() && more[i] == '\\';
                assert(rest[i + 1] == '\\');
            }
        }
        split_without_backslash(more);
        assert(head.drop_last() == seq![Component::Prefix(drive)]);
        assert(seq![Component::Prefix(drive)].drop_last() == none);
        assert(canonical_parts(seq![Component::Prefix(drive)]) == Seq::<Seq<char>>::empty().push(
            drive,
        ));
        assert(canonical_parts(head) == canonical_parts(named));
        same_start_same_parts(head, named, body);
    }
}

} // verus!
