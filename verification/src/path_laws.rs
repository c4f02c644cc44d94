//! What holds of path names and Windows paths in general.

use vstd::prelude::*;

use crate::full_path::{
    char_units, full_form, plain_path, plain_segment, resolved_names, settled, units, LONGEST,
};
use crate::text::{join, last_separator, next_separator, separates, split, Separators};
use crate::unix_path::{below_drive, canonical_name, canonical_parts, translates};
use crate::windows_path::{
    body_components, body_end, body_separators, body_start, components, dot, dot_dot, drive_at,
    drive_letter, has_root, head_components, leading_dot, parent, prefix_fits, prefix_kind,
    prefix_len, segment_component, segment_start, separator_at, server_end, written_root,
    Component, PrefixKind,
};

verus! {

/// A part of a canonical name: not empty, and neither `.` nor `..`.
pub open spec fn proper_part(part: Seq<char>) -> bool {
    part.len() > 0 && part != dot() && part != dot_dot()
}

/// No character of the text parts segments.
pub open spec fn unparted(text: Seq<char>, set: Separators) -> bool {
    forall|i: int| 0 <= i < text.len() ==> !separates(set, #[trigger] text[i])
}

pub(crate) proof fn split_is_nonempty(text: Seq<char>, set: Separators)
    ensures
        split(text, set).len() >= 1,
    decreases text.len(),
{
    if text.len() > 0 {
        split_is_nonempty(text.drop_last(), set);
    }
}

/// The segments of a text hold no separators.
pub(crate) proof fn split_parts(text: Seq<char>, set: Separators)
    ensures
        forall|i: int| 0 <= i < split(text, set).len() ==> unparted(
            #[trigger] split(text, set)[i],
            set,
        ),
    decreases text.len(),
{
    split_is_nonempty(text, set);
    if text.len() > 0 {
        split_parts(text.drop_last(), set);
        split_is_nonempty(text.drop_last(), set);
        let before = split(text.drop_last(), set);
        assert(unparted(before[before.len() - 1], set));
    }
}

/// Text without separators goes on with the last segment.
pub(crate) proof fn split_extends(text: Seq<char>, more: Seq<char>, set: Separators)
    requires
        unparted(more, set),
    ensures
        split(text + more, set) == split(text, set).drop_last().push(
            split(text, set).last() + more,
        ),
    decreases more.len(),
{
    split_is_nonempty(text, set);
    if more.len() == 0 {
        assert(text + more == text);
        assert(split(text, set).last() + more == split(text, set).last());
        assert(split(text, set).drop_last().push(split(text, set).last()) == split(text, set));
    } else {
        let rest = more.drop_last();
        assert forall|i: int| 0 <= i < rest.len() implies !separates(set, #[trigger] rest[i]) by {
            assert(rest[i] == more[i]);
        }
        split_extends(text, rest, set);
        assert((text + more).drop_last() == text + rest);
        assert((text + more).last() == more.last());
        assert(!separates(set, more[more.len() - 1]));
        let before = split(text + rest, set);
        assert(before.last() == split(text, set).last() + rest);
        assert(before.drop_last() == split(text, set).drop_last());
        assert((split(text, set).last() + rest).push(more.last()) == split(text, set).last()
            + more);
    }
}

/// A joined text parts into what it was joined from.
pub(crate) proof fn split_of_join(parts: Seq<Seq<char>>, between: char, set: Separators)
    requires
        parts.len() > 0,
        separates(set, between),
        forall|i: int| 0 <= i < parts.len() ==> unparted(#[trigger] parts[i], set),
    ensures
        split(join(parts, between), set) == parts,
    decreases parts.len(),
{
    let empty = Seq::<char>::empty();
    if parts.len() == 1 {
        assert(unparted(parts[0], set));
        split_extends(empty, parts[0], set);
        assert(empty + parts[0] == parts[0]);
        assert(split(empty, set) == seq![empty]);
        assert(split(parts[0], set) == parts);
    } else {
        let front = parts.drop_last();
        assert forall|i: int| 0 <= i < front.len() implies unparted(#[trigger] front[i], set) by {
            assert(front[i] == parts[i]);
        }
        split_of_join(front, between, set);
        let text = join(front, between).push(between);
        assert(text.drop_last() == join(front, between));
        assert(split(text, set) == front.push(empty));
        assert(unparted(parts[parts.len() - 1], set));
        split_extends(text, parts.last(), set);
        assert(front.push(empty).drop_last() == front);
        assert(empty + parts.last() == parts.last());
        assert(front.push(parts.last()) == parts);
    }
}

/// Names as components.
pub open spec fn names_as_components(names: Seq<Seq<char>>) -> Seq<Component<Seq<char>>> {
    names.map_values(|name: Seq<char>| Component::Normal(name))
}

pub(crate) proof fn body_of_names(names: Seq<Seq<char>>, verbatim: bool)
    requires
        forall|i: int| 0 <= i < names.len() ==> proper_part(#[trigger] names[i]),
    ensures
        body_components(names, verbatim) == names_as_components(names),
    decreases names.len(),
{
    if names.len() > 0 {
        let front = names.drop_last();
        assert forall|i: int| 0 <= i < front.len() implies proper_part(#[trigger] front[i]) by {
            assert(front[i] == names[i]);
        }
        body_of_names(front, verbatim);
        assert(proper_part(names[names.len() - 1]));
        assert(names_as_components(names) == names_as_components(front).push(
            Component::Normal(names.last()),
        ));
    } else {
        assert(names_as_components(names) == Seq::<Component<Seq<char>>>::empty());
    }
}

/// The first character of a joined text is that of the first part.
proof fn join_first(parts: Seq<Seq<char>>, between: char)
    requires
        parts.len() > 0,
        parts[0].len() > 0,
    ensures
        join(parts, between).len() > 0,
        join(parts, between)[0] == parts[0][0],
    decreases parts.len(),
{
    if parts.len() > 1 {
        assert(parts.drop_last()[0] == parts[0]);
        join_first(parts.drop_last(), between);
    }
}

/// The components of a name that is made of proper parts behind a slash.
pub(crate) proof fn components_of_name(parts: Seq<Seq<char>>)
    requires
        forall|i: int| 0 <= i < parts.len() ==> proper_part(#[trigger] parts[i]),
        forall|i: int| 0 <= i < parts.len() ==> unparted(#[trigger] parts[i], Separators::Both),
    ensures
        components(seq!['/'] + join(parts, '/')) == seq![
            Component::<Seq<char>>::RootDir,
        ] + names_as_components(parts),
{
    let name = seq!['/'] + join(parts, '/');
    if parts.len() > 0 {
        assert(proper_part(parts[0]));
        assert(unparted(parts[0], Separators::Both));
        join_first(parts, '/');
        assert(name[1] == parts[0][0]);
        assert(!separator_at(name, 1));
    } else {
        assert(!separator_at(name, 1));
    }
    assert(separator_at(name, 0));
    assert(prefix_kind(name) == PrefixKind::Absent);
    assert(name.skip(1) == join(parts, '/'));
    assert(head_components(name) == seq![Component::<Seq<char>>::RootDir]);
    if parts.len() > 0 {
        split_of_join(parts, '/', Separators::Both);
        body_of_names(parts, false);
    } else {
        let empty = Seq::<char>::empty();
        let list = split(empty, Separators::Both);
        assert(join(parts, '/') == empty);
        assert(list == seq![empty]);
        assert(body_components(list.drop_last(), false) == Seq::<
            Component<Seq<char>>,
        >::empty());
        assert(body_components(list, false) == names_as_components(parts));
    }
}

pub(crate) proof fn canonical_parts_of_names(names: Seq<Seq<char>>)
    ensures
        canonical_parts(
            seq![Component::<Seq<char>>::RootDir] + names_as_components(names),
        ) == names,
    decreases names.len(),
{
    let list = seq![Component::<Seq<char>>::RootDir] + names_as_components(names);
    if names.len() > 0 {
        let front = names.drop_last();
        canonical_parts_of_names(front);
        assert(list.drop_last() == seq![Component::<Seq<char>>::RootDir] + names_as_components(
            front,
        ));
        assert(list.last() == Component::Normal(names.last()));
        assert(front.push(names.last()) == names);
    } else {
        assert(list.drop_last() == Seq::<Component<Seq<char>>>::empty());
        assert(canonical_parts(list.drop_last()) == names);
    }
}

/// What was parted at slashes is whole again when it is joined with slashes.
pub(crate) proof fn join_of_split(text: Seq<char>)
    ensures
        join(split(text, Separators::Slash), '/') == text,
    decreases text.len(),
{
    let list = split(text, Separators::Slash);
    if text.len() > 0 {
        let front = text.drop_last();
        let before = split(front, Separators::Slash);
        join_of_split(front);
        split_is_nonempty(front, Separators::Slash);
        if separates(Separators::Slash, text.last()) {
            assert(list.drop_last() == before);
            assert(join(list, '/') == front.push('/') + Seq::<char>::empty());
        } else {
            assert(list.drop_last() == before.drop_last());
            assert(list.last() == before.last().push(text.last()));
            assert(join(list, '/') == front.push(text.last()));
        }
    }
}

/// Bringing a name into its canonical form a second time changes nothing. This holds of every
/// name whose canonical form has proper parts without backslashes between its slashes. The
/// prefix of a server or a device, and names behind a verbatim prefix, can have others.
pub proof fn canonical_names_stay(path: Seq<char>)
    requires
        canonical_name(path).len() == 1 || forall|i: int|
            0 <= i < split(canonical_name(path).skip(1), Separators::Slash).len() ==> proper_part(
                #[trigger] split(canonical_name(path).skip(1), Separators::Slash)[i],
            ) && unparted(
                split(canonical_name(path).skip(1), Separators::Slash)[i],
                Separators::Both,
            ),
    ensures
        canonical_name(canonical_name(path)) == canonical_name(path),
{
    let name = canonical_name(path);
    let text = join(canonical_parts(components(path)), '/');
    assert(name.skip(1) == text);
    let list = if name.len() == 1 {
        Seq::empty()
    } else {
        split(text, Separators::Slash)
    };
    join_of_split(text);
    assert(join(list, '/') == text);
    components_of_name(list);
    canonical_parts_of_names(list);
}

/// The parts of a name that has no prefix, or that of a drive, hold no separators.
proof fn parts_are_unparted(path: Seq<char>, n: int)
    requires
        prefix_kind(path) == PrefixKind::Absent || prefix_kind(path) == PrefixKind::Disk,
        0 <= n <= components(path).len(),
    ensures
        forall|i: int|
            0 <= i < canonical_parts(components(path).take(n)).len() ==> unparted(
                #[trigger] canonical_parts(components(path).take(n))[i],
                Separators::Both,
            ),
    decreases n,
{
    let list = components(path);
    if n > 0 {
        parts_are_unparted(path, n - 1);
        assert(list.take(n).drop_last() == list.take(n - 1));
        assert(list.take(n).last() == list[n - 1]);
        let before = canonical_parts(list.take(n - 1));
        let after = canonical_parts(list.take(n));
        let head = head_components(path);
        let segments = split(path.skip(body_start(path)), Separators::Both);
        split_parts(path.skip(body_start(path)), Separators::Both);
        body_is_unparted(segments);
        prefix_fits(path);
        assert forall|i: int| 0 <= i < after.len() implies unparted(
            #[trigger] after[i],
            Separators::Both,
        ) by {
            if i < before.len() {
                assert(after[i] == before[i]);
            } else if n - 1 < head.len() {
                assert(list[n - 1] == head[n - 1]);
                assert(after[i] == path.take(2));
                assert(path.take(2)[0] == path[0] && path.take(2)[1] == path[1]);
            } else {
                assert(list[n - 1] == body_components(segments, false)[n - 1 - head.len()]);
            }
        }
    }
}

proof fn body_is_unparted(list: Seq<Seq<char>>)
    requires
        forall|i: int| 0 <= i < list.len() ==> unparted(#[trigger] list[i], Separators::Both),
    ensures
        forall|i: int|
            0 <= i < body_components(list, false).len() ==> (#[trigger] body_components(
                list,
                false,
            )[i] matches Component::Normal(name) ==> unparted(name, Separators::Both)),
        forall|i: int|
            0 <= i < body_components(list, false).len() ==> !(#[trigger] body_components(
                list,
                false,
            )[i] is Prefix),
    decreases list.len(),
{
    if list.len() > 0 {
        let front = list.drop_last();
        assert forall|i: int| 0 <= i < front.len() implies unparted(
            #[trigger] front[i],
            Separators::Both,
        ) by {
            assert(front[i] == list[i]);
        }
        body_is_unparted(front);
        assert(unparted(list[list.len() - 1], Separators::Both));
    }
}

/// Bringing a name into its canonical form a second time changes nothing, where the name has
/// no prefix or that of a drive.
pub proof fn plain_canonical_names_stay(path: Seq<char>)
    requires
        prefix_kind(path) == PrefixKind::Absent || prefix_kind(path) == PrefixKind::Disk,
    ensures
        canonical_name(canonical_name(path)) == canonical_name(path),
{
    let list = components(path);
    let parts = canonical_parts(list);
    canonical_parts_are_proper(path);
    parts_are_unparted(path, list.len() as int);
    assert(list.take(list.len() as int) == list);
    components_of_name(parts);
    canonical_parts_of_names(parts);
}

proof fn body_is_proper(list: Seq<Seq<char>>, verbatim: bool)
    ensures
        forall|i: int|
            0 <= i < body_components(list, verbatim).len() ==> (#[trigger] body_components(
                list,
                verbatim,
            )[i] matches Component::Normal(name) ==> proper_part(name)) && !(body_components(
                list,
                verbatim,
            )[i] is Prefix),
    decreases list.len(),
{
    if list.len() > 0 {
        body_is_proper(list.drop_last(), verbatim);
    }
}

proof fn components_are_proper(path: Seq<char>)
    ensures
        forall|i: int|
            0 <= i < components(path).len() ==> (match #[trigger] components(path)[i] {
                Component::Normal(name) => proper_part(name),
                Component::Prefix(text) => proper_part(text),
                _ => true,
            }),
{
    let verbatim = prefix_kind(path) == PrefixKind::Verbatim;
    let list = split(path.skip(body_start(path)), body_separators(path));
    body_is_proper(list, verbatim);
    prefix_fits(path);
    let head = head_components(path);
    let body = body_components(list, verbatim);
    assert forall|i: int| 0 <= i < components(path).len() implies (match #[trigger] components(
        path,
    )[i] {
        Component::Normal(name) => proper_part(name),
        Component::Prefix(text) => proper_part(text),
        _ => true,
    }) by {
        if i < head.len() {
            assert(components(path)[i] == head[i]);
            if head[i] is Prefix {
                let text = path.take(prefix_len(path));
                assert(head[i] == Component::Prefix(text));
                assert(text[0] == path[0]);
                if prefix_kind(path) == PrefixKind::Disk {
                    assert(text[1] == ':');
                    assert(dot_dot()[1] == '.');
                } else {
                    assert(separator_at(path, 0));
                    assert(dot()[0] == '.');
                    assert(dot_dot()[0] == '.');
                }
            }
        } else {
            assert(components(path)[i] == body[i - head.len()]);
        }
    }
}

proof fn parts_are_proper(list: Seq<Component<Seq<char>>>)
    requires
        forall|i: int|
            0 <= i < list.len() ==> (match #[trigger] list[i] {
                Component::Normal(name) => proper_part(name),
                Component::Prefix(text) => proper_part(text),
                _ => true,
            }),
    ensures
        forall|i: int|
            0 <= i < canonical_parts(list).len() ==> proper_part(
                #[trigger] canonical_parts(list)[i],
            ),
    decreases list.len(),
{
    if list.len() > 0 {
        let front = list.drop_last();
        assert forall|i: int| 0 <= i < front.len() implies (match #[trigger] front[i] {
            Component::Normal(name) => proper_part(name),
            Component::Prefix(text) => proper_part(text),
            _ => true,
        }) by {
            assert(front[i] == list[i]);
        }
        parts_are_proper(front);
        let before = canonical_parts(front);
        let after = canonical_parts(list);
        let last = list[list.len() - 1];
        assert forall|i: int| 0 <= i < after.len() implies proper_part(#[trigger] after[i]) by {
            if i < before.len() {
                assert(after[i] == before[i]);
            } else {
                assert(last is Normal || last is Prefix);
            }
        }
    }
}

/// A canonical name is full, and nothing in it is left to resolve: it begins with a slash,
/// and no part of it is empty, `.` or `..`.
pub proof fn canonical_parts_are_proper(path: Seq<char>)
    ensures
        canonical_name(path)[0] == '/',
        has_root(canonical_name(path)),
        forall|i: int|
            0 <= i < canonical_parts(components(path)).len() ==> proper_part(
                #[trigger] canonical_parts(components(path))[i],
            ),
{
    components_are_proper(path);
    parts_are_proper(components(path));
    assert(separator_at(canonical_name(path), 0));
    prefix_fits(canonical_name(path));
}

/// The segments of a plain path behind the root of its drive.
pub open spec fn drive_segments(path: Seq<char>) -> Seq<Seq<char>> {
    split(path.skip(3), Separators::Both)
}

/// The names that are left of a list are proper, and come from the list.
proof fn resolved_come_from(list: Seq<Seq<char>>)
    ensures
        forall|i: int|
            0 <= i < resolved_names(list).len() ==> proper_part(#[trigger] resolved_names(list)[i])
                && list.contains(resolved_names(list)[i]),
    decreases list.len(),
{
    if list.len() > 0 {
        let front = list.drop_last();
        resolved_come_from(front);
        let before = resolved_names(front);
        let after = resolved_names(list);
        assert forall|i: int| 0 <= i < after.len() implies proper_part(#[trigger] after[i])
            && list.contains(after[i]) by {
            if i < before.len() {
                assert(after[i] == before[i]);
                let k = choose|k: int| 0 <= k < front.len() && front[k] == before[i];
                assert(list[k] == after[i]);
            } else {
                assert(after[i] == list.last());
                assert(list[list.len() - 1] == after[i]);
            }
        }
    }
}

pub(crate) proof fn resolved_of_proper(names: Seq<Seq<char>>)
    requires
        forall|i: int| 0 <= i < names.len() ==> proper_part(#[trigger] names[i]),
    ensures
        resolved_names(names) == names,
    decreases names.len(),
{
    if names.len() > 0 {
        let front = names.drop_last();
        assert forall|i: int| 0 <= i < front.len() implies proper_part(#[trigger] front[i]) by {
            assert(front[i] == names[i]);
        }
        resolved_of_proper(front);
        assert(proper_part(names[names.len() - 1]));
        assert(front.push(names.last()) == names);
    }
}

pub(crate) proof fn units_of_push(text: Seq<char>, c: char)
    ensures
        units(text.push(c)) == units(text) + char_units(c),
{
    assert(text.push(c).drop_last() == text);
}

pub(crate) proof fn units_of_sum(text: Seq<char>, more: Seq<char>)
    ensures
        units(text + more) == units(text) + units(more),
    decreases more.len(),
{
    if more.len() == 0 {
        assert(text + more == text);
    } else {
        units_of_sum(text, more.drop_last());
        assert((text + more).drop_last() == text + more.drop_last());
    }
}

pub(crate) proof fn units_of_one(c: char)
    ensures
        units(seq![c]) == char_units(c),
{
    assert(seq![c].drop_last() == Seq::<char>::empty());
    assert(units(seq![c].drop_last()) == 0);
}

/// The units that a list of texts takes, with one more for each text.
spec fn weight(list: Seq<Seq<char>>) -> nat
    decreases list.len(),
{
    if list.len() == 0 {
        0
    } else {
        weight(list.drop_last()) + units(list.last()) + 1
    }
}

proof fn weight_of_split(text: Seq<char>, set: Separators)
    ensures
        weight(split(text, set)) == units(text) + 1,
    decreases text.len(),
{
    let empty = Seq::<char>::empty();
    if text.len() == 0 {
        let list = seq![empty];
        assert(list.drop_last() == Seq::<Seq<char>>::empty());
        assert(weight(list.drop_last()) == 0);
    } else {
        weight_of_split(text.drop_last(), set);
        split_is_nonempty(text.drop_last(), set);
        let before = split(text.drop_last(), set);
        if separates(set, text.last()) {
            assert(before.push(empty).drop_last() == before);
        } else {
            let grown = before.last().push(text.last());
            units_of_push(before.last(), text.last());
            assert(before.drop_last().push(grown).drop_last() == before.drop_last());
        }
    }
}

proof fn weight_of_resolved(list: Seq<Seq<char>>)
    ensures
        weight(resolved_names(list)) <= weight(list),
    decreases list.len(),
{
    if list.len() > 0 {
        weight_of_resolved(list.drop_last());
        let before = resolved_names(list.drop_last());
        assert(before.push(list.last()).drop_last() == before);
    }
}

proof fn weight_of_join(parts: Seq<Seq<char>>, between: char)
    requires
        char_units(between) == 1,
    ensures
        parts.len() > 0 ==> units(join(parts, between)) + 1 == weight(parts),
    decreases parts.len(),
{
    if parts.len() > 1 {
        let front = join(parts.drop_last(), between);
        weight_of_join(parts.drop_last(), between);
        units_of_push(front, between);
        units_of_sum(front.push(between), parts.last());
    } else if parts.len() == 1 {
        assert(parts.drop_last() == Seq::<Seq<char>>::empty());
        assert(weight(parts.drop_last()) == 0);
    }
}

/// A character of a joined text is the one between, or one of a part.
proof fn join_chars(parts: Seq<Seq<char>>, between: char, i: int)
    requires
        0 <= i < join(parts, between).len(),
    ensures
        join(parts, between)[i] == between || exists|k: int|
            0 <= k < parts.len() && (#[trigger] parts[k]).contains(join(parts, between)[i]),
    decreases parts.len(),
{
    let text = join(parts, between);
    if parts.len() == 1 {
        assert(parts[0].contains(text[i]));
    } else {
        let front = join(parts.drop_last(), between);
        if i < front.len() {
            join_chars(parts.drop_last(), between, i);
            if front[i] != between {
                let k = choose|k: int|
                    0 <= k < parts.drop_last().len() && (#[trigger] parts.drop_last()[k]).contains(
                        front[i],
                    );
                assert(parts[k].contains(text[i]));
            }
        } else if i > front.len() {
            assert(parts.last()[i - front.len() - 1] == text[i]);
            assert(parts[parts.len() - 1].contains(text[i]));
        }
    }
}

/// The characters of a segment are characters of the text.
proof fn split_chars(text: Seq<char>, set: Separators, k: int, c: char)
    requires
        0 <= k < split(text, set).len(),
        split(text, set)[k].contains(c),
    ensures
        text.contains(c),
    decreases text.len(),
{
    if text.len() > 0 {
        let front = text.drop_last();
        split_is_nonempty(front, set);
        let before = split(front, set);
        let j = choose|j: int| 0 <= j < split(text, set)[k].len() && split(text, set)[k][j] == c;
        if k < before.len() && j < before[k].len() {
            assert(before[k][j] == c);
            assert(before[k].contains(c));
            split_chars(front, set, k, c);
            let i = choose|i: int| 0 <= i < front.len() && front[i] == c;
            assert(text[i] == c);
        } else {
            assert(c == text.last());
            assert(text[text.len() - 1] == c);
        }
    } else {
        assert(split(text, set)[0].len() == 0);
    }
}

/// What the full form of a plain path is made of.
proof fn full_form_parts(path: Seq<char>)
    requires
        plain_path(path),
    ensures
        ({
            let names = resolved_names(drive_segments(path));
            let full = full_form(path);
            let ends = names.len() > 0 && separates(Separators::Both, path.last());
            &&& drive_at(full, 0)
            &&& full.take(2) == path.take(2)
            &&& full[2] == '\\'
            &&& full.skip(3) == if ends {
                join(names, '\\').push('\\')
            } else {
                join(names, '\\')
            }
            &&& split(full.skip(3), Separators::Both) == if names.len() == 0 {
                seq![Seq::<char>::empty()]
            } else if ends {
                names.push(Seq::empty())
            } else {
                names
            }
            &&& forall|i: int|
                0 <= i < names.len() ==> proper_part(#[trigger] names[i]) && unparted(
                    names[i],
                    Separators::Both,
                ) && plain_segment(names[i]) && drive_segments(path).contains(names[i])
        }),
{
    let list = drive_segments(path);
    let names = resolved_names(list);
    let full = full_form(path);
    let empty = Seq::<char>::empty();
    let ends = names.len() > 0 && separates(Separators::Both, path.last());
    assert(prefix_kind(path) == PrefixKind::Disk) by {
        assert(!separator_at(path, 0));
    }
    resolved_come_from(list);
    split_parts(path.skip(3), Separators::Both);
    assert forall|i: int| 0 <= i < names.len() implies proper_part(#[trigger] names[i])
        && unparted(names[i], Separators::Both) && plain_segment(names[i]) && list.contains(
        names[i],
    ) by {
        let k = choose|k: int| 0 <= k < list.len() && list[k] == names[i];
        assert(unparted(list[k], Separators::Both));
        assert(plain_segment(list[k]));
    }
    let body = if ends {
        join(names, '\\').push('\\')
    } else {
        join(names, '\\')
    };
    assert(full == path.take(2).push('\\') + body);
    assert(full.take(2) == path.take(2));
    assert(full[0] == path[0] && full[1] == path[1]);
    assert(full.skip(3) == body);
    if names.len() > 0 {
        split_of_join(names, '\\', Separators::Both);
        if ends {
            assert(body.drop_last() == join(names, '\\'));
            assert(body.last() == '\\');
        }
    } else {
        assert(body == empty);
        assert(split(empty, Separators::Both) == seq![empty]);
    }
}

/// The full form of a plain path is full: it begins at the root of the drive of the path, and
/// what follows are names, none of them empty, `.` or `..`. So such a path never leads out of
/// its drive, however many `..` are in it.
pub proof fn full_forms_are_full(path: Seq<char>)
    requires
        plain_path(path),
    ensures
        components(full_form(path)) == seq![
            Component::Prefix(path.take(2)),
            Component::RootDir,
        ] + names_as_components(resolved_names(drive_segments(path))),
        forall|i: int|
            0 <= i < resolved_names(drive_segments(path)).len() ==> proper_part(
                #[trigger] resolved_names(drive_segments(path))[i],
            ),
{
    full_form_parts(path);
    let full = full_form(path);
    let names = resolved_names(drive_segments(path));
    let empty = Seq::<char>::empty();
    assert(!separator_at(full, 0)) by {
        assert(full.take(2)[0] == full[0]);
        assert(path.take(2)[0] == path[0]);
    }
    assert(prefix_kind(full) == PrefixKind::Disk);
    assert(separator_at(full, 2));
    assert(head_components(full) == seq![
        Component::Prefix(path.take(2)),
        Component::<Seq<char>>::RootDir,
    ]);
    let list = split(full.skip(3), Separators::Both);
    body_of_names(names, false);
    if names.len() == 0 {
        assert(list.drop_last() == Seq::<Seq<char>>::empty());
        assert(body_components(list.drop_last(), false) == Seq::<
            Component<Seq<char>>,
        >::empty());
        assert(body_components(list, false) == names_as_components(names));
    } else if list.len() > names.len() {
        assert(list.drop_last() == names);
    }
}

/// Making a settled path full a second time changes nothing.
pub proof fn full_forms_stay(path: Seq<char>)
    requires
        settled(path),
    ensures
        settled(full_form(path)),
        full_form(full_form(path)) == full_form(path),
{
    if prefix_kind(path) != PrefixKind::Verbatim {
        full_form_parts(path);
        full_forms_are_full(path);
        let full = full_form(path);
        let list = drive_segments(path);
        let names = resolved_names(list);
        let again = split(full.skip(3), Separators::Both);
        let empty = Seq::<char>::empty();
        let ends = names.len() > 0 && separates(Separators::Both, path.last());
        assert(!separator_at(full, 0)) by {
            assert(full.take(2)[0] == full[0]);
            assert(path.take(2)[0] == path[0]);
        }
        // The names are resolved already.
        resolved_of_proper(names);
        assert(resolved_names(again) == names) by {
            if names.len() == 0 {
                assert(again.drop_last() == names);
            } else if ends {
                assert(again.drop_last() == names);
            }
        }
        if names.len() > 0 && !ends {
            let last = names[names.len() - 1];
            assert(unparted(last, Separators::Both));
            assert(full.last() == last.last()) by {
                if names.len() > 1 {
                    assert(join(names, '\\').last() == names.last().last());
                }
                assert(full.skip(3).last() == full.last());
            }
            assert(!separates(Separators::Both, last[last.len() - 1]));
        }
        assert(full == full.take(2).push('\\') + full.skip(3));
        assert(full_form(full) == full);
        // Nothing has been added that is not plain.
        assert forall|i: int| 0 <= i < again.len() implies plain_segment(
            #[trigger] again[i],
        ) by {
            if i < names.len() {
                assert(again[i] == names[i]);
            } else {
                assert(again[i].len() == 0);
            }
        }
        assert(!full.contains('\0')) by {
            if full.contains('\0') {
                let i = choose|i: int| 0 <= i < full.len() && full[i] == '\0';
                if i < 2 {
                    assert(full.take(2)[i] == path[i]);
                    assert(path.contains('\0'));
                } else if i > 2 {
                    let text = join(names, '\\');
                    assert(full.skip(3)[i - 3] == '\0');
                    assert(i - 3 < text.len());
                    assert(text[i - 3] == '\0');
                    join_chars(names, '\\', i - 3);
                    let k = choose|k: int|
                        0 <= k < names.len() && (#[trigger] names[k]).contains('\0');
                    assert(list.contains(names[k]));
                    let j = choose|j: int| 0 <= j < list.len() && list[j] == names[k];
                    split_chars(path.skip(3), Separators::Both, j, '\0');
                    let m = choose|m: int| 0 <= m < path.skip(3).len() && path.skip(3)[m] == '\0';
                    assert(path[m + 3] == '\0');
                    assert(path.contains('\0'));
                }
            }
        }
        // Nothing has become longer.
        weight_of_split(path.skip(3), Separators::Both);
        weight_of_resolved(list);
        weight_of_join(names, '\\');
        if ends {
            let front = list.drop_last();
            split_is_nonempty(path.skip(3), Separators::Both);
            assert(path.len() > 3) by {
                if path.len() == 3 {
                    assert(path.skip(3) == empty);
                    assert(list == seq![empty]);
                    assert(list.drop_last() == Seq::<Seq<char>>::empty());
                    assert(resolved_names(list.drop_last()) == Seq::<Seq<char>>::empty());
                    assert(resolved_names(list) == Seq::<Seq<char>>::empty());
                }
            }
            assert(path.skip(3).last() == path.last());
            assert(list.last() == empty);
            assert(resolved_names(list) == resolved_names(front));
            weight_of_resolved(front);
        }
        assert(units(full) <= units(path)) by {
            let text = join(names, '\\');
            let start = path.take(2).push('\\');
            assert(path == path.take(2).push(path[2]) + path.skip(3));
            units_of_push(path.take(2), path[2]);
            units_of_sum(path.take(2).push(path[2]), path.skip(3));
            units_of_push(path.take(2), '\\');
            units_of_sum(start, text);
            units_of_push(start + text, '\\');
            if names.len() == 0 {
                assert(text == empty);
            }
        }
        assert(plain_path(full));
    }
}

/// The path begins at the root of the drive `letter`.
pub open spec fn on_drive(path: Seq<char>, letter: char) -> bool {
    drive_at(path, 0) && path[0] == letter && separator_at(path, 2)
}

proof fn below_drive_is_on_drive(list: Seq<Seq<char>>, n: int, letter: char)
    requires
        2 <= n <= list.len(),
        drive_letter(letter),
        list[1] == seq![letter],
        forall|i: int|
            2 <= i < list.len() ==> prefix_kind(#[trigger] list[i]) == PrefixKind::Absent,
    ensures
        on_drive(below_drive(list, n), letter),
        below_drive(list, n).len() >= 3,
    decreases n,
{
    if n > 2 {
        below_drive_is_on_drive(list, n - 1, letter);
        let base = below_drive(list, n - 1);
        let next = list[n - 1];
        assert(!separator_at(base, 0));
        assert(prefix_kind(base) == PrefixKind::Disk);
        assert(prefix_kind(next) == PrefixKind::Absent);
        if has_root(next) {
            assert(separator_at(next, 0));
            let whole = base.take(2) + next;
            assert(whole[0] == base[0] && whole[1] == base[1] && whole[2] == next[0]);
        }
    }
}

/// A name below a drive that comes to a settled path stands for a path on that drive, wherever
/// its `..` lead. Nothing but a later segment with a prefix of its own, such as another drive,
/// leads away from it.
pub proof fn drives_are_not_left(path: Seq<char>, letter: char, r: Option<Seq<char>>)
    requires
        has_root(path),
        split(path, Separators::Slash).len() >= 2,
        drive_letter(letter),
        split(path, Separators::Slash)[1] == seq![letter],
        translates(path, r),
        settled(
            below_drive(
                split(path, Separators::Slash),
                split(path, Separators::Slash).len() as int,
            ),
        ),
    ensures
        r is Some,
        on_drive(r->0, letter) || exists|i: int|
            2 <= i < split(path, Separators::Slash).len() && prefix_kind(
                #[trigger] split(path, Separators::Slash)[i],
            ) != PrefixKind::Absent,
{
    let list = split(path, Separators::Slash);
    let target = below_drive(list, list.len() as int);
    assert(path != seq!['/']) by {
        if path == seq!['/'] {
            assert(path.drop_last() == Seq::<char>::empty());
            assert(split(path.drop_last(), Separators::Slash) == seq![Seq::<char>::empty()]);
            assert(list[1] == Seq::<char>::empty());
            assert(seq![letter].len() == 1);
        }
    }
    if forall|i: int|
        2 <= i < list.len() ==> prefix_kind(#[trigger] list[i]) == PrefixKind::Absent {
        below_drive_is_on_drive(list, list.len() as int, letter);
        assert(!separator_at(target, 0));
        assert(prefix_kind(target) == PrefixKind::Disk);
        full_form_parts(target);
        let full = full_form(target);
        assert(full.take(2)[0] == target.take(2)[0]);
    }
}

/// A segment of an ordinary name: it is plain, and holds nothing that Windows reads as more
/// than a name.
pub open spec fn ordinary_segment(segment: Seq<char>) -> bool {
    plain_segment(segment) && unparted(segment, Separators::Both) && prefix_kind(segment)
        == PrefixKind::Absent
}

/// The segments of `path` are `/`, the letter of a drive, and ordinary segments.
pub open spec fn ordinary_name(path: Seq<char>, letter: char) -> bool {
    let list = split(path, Separators::Slash);
    &&& units(path) <= LONGEST
    &&& !path.contains('\0')
    &&& drive_letter(letter)
    &&& list.len() >= 2
    &&& list[0].len() == 0
    &&& list[1] == seq![letter]
    &&& forall|i: int| 2 <= i < list.len() ==> ordinary_segment(#[trigger] list[i])
}

pub(crate) proof fn split_last(text: Seq<char>, set: Separators)
    ensures
        split(text, set).last().len() == 0 <==> text.len() == 0 || separates(set, text.last()),
{
    if text.len() > 0 {
        split_is_nonempty(text.drop_last(), set);
    }
}

/// How the segments of an ordinary name come back in the Windows path.
proof fn below_drive_parts(list: Seq<Seq<char>>, n: int, letter: char)
    requires
        2 <= n <= list.len(),
        drive_letter(letter),
        list[1] == seq![letter],
        forall|i: int| 2 <= i < list.len() ==> ordinary_segment(#[trigger] list[i]),
    ensures
        ({
            let target = below_drive(list, n);
            let segments = split(target.skip(3), Separators::Both);
            &&& on_drive(target, letter)
            &&& target.len() >= 3
            &&& target.take(3) == seq![letter, ':', '\\']
            &&& resolved_names(segments) == resolved_names(list.subrange(2, n))
            &&& segments.last().len() == 0 <==> n == 2 || list[n - 1].len() == 0
            &&& weight(segments) <= weight(list.subrange(2, n)) + 1
            &&& n > 2 ==> weight(segments) <= weight(list.subrange(2, n))
            &&& forall|i: int|
                0 <= i < segments.len() ==> (#[trigger] segments[i]).len() == 0 || exists|k: int|
                    2 <= k < n && list[k] == segments[i]
        }),
    decreases n,
{
    let empty = Seq::<char>::empty();
    let target = below_drive(list, n);
    let segments = split(target.skip(3), Separators::Both);
    assert forall|i: int| 2 <= i < list.len() implies prefix_kind(#[trigger] list[i])
        == PrefixKind::Absent by {
        assert(ordinary_segment(list[i]));
    }
    below_drive_is_on_drive(list, n, letter);
    if n == 2 {
        assert(target.skip(3) == empty);
        assert(target.take(3) == seq![letter, ':', '\\']);
        assert(segments == seq![empty]);
        assert(segments.drop_last() == Seq::<Seq<char>>::empty());
        assert(list.subrange(2, 2) == Seq::<Seq<char>>::empty());
        assert(resolved_names(segments.drop_last()) == Seq::<Seq<char>>::empty());
        assert(weight(segments.drop_last()) == 0);
    } else {
        below_drive_parts(list, n - 1, letter);
        below_drive_is_on_drive(list, n - 1, letter);
        let base = below_drive(list, n - 1);
        let body = base.skip(3);
        let before = split(body, Separators::Both);
        let next = list[n - 1];
        split_is_nonempty(body, Separators::Both);
        split_last(body, Separators::Both);
        assert(ordinary_segment(next));
        assert(!separator_at(base, 0));
        assert(prefix_kind(base) == PrefixKind::Disk);
        assert(!has_root(next)) by {
            if next.len() > 0 {
                assert(!separates(Separators::Both, next[0]));
            }
        }
        assert(list.subrange(2, n).drop_last() == list.subrange(2, n - 1));
        assert(list.subrange(2, n).last() == next);
        if base.len() > 3 {
            assert(base.last() == body.last());
        } else {
            assert(base.take(3)[2] == base.last());
            assert(body.len() == 0);
        }
        if before.last().len() == 0 {
            assert(target == base + next);
            assert(target.skip(3) == body + next);
            assert(target.take(3) == base.take(3));
            split_extends(body, next, Separators::Both);
            assert(before.last() == empty);
            assert(empty + next == next);
            assert(segments == before.drop_last().push(next));
            assert(segments.drop_last() == before.drop_last());
            assert(resolved_names(before) == resolved_names(before.drop_last()));
        } else {
            assert(target == base.push('\\') + next);
            assert(target.skip(3) == body.push('\\') + next);
            assert(target.take(3) == base.take(3));
            assert(body.push('\\').drop_last() == body);
            assert(split(body.push('\\'), Separators::Both) == before.push(empty));
            split_extends(body.push('\\'), next, Separators::Both);
            assert(before.push(empty).drop_last() == before);
            assert(empty + next == next);
            assert(segments == before.push(next));
            assert(segments.drop_last() == before);
        }
        assert forall|i: int| 0 <= i < segments.len() implies (#[trigger] segments[i]).len() == 0
            || exists|k: int| 2 <= k < n && list[k] == segments[i] by {
            if i < segments.len() - 1 {
                assert(segments[i] == before[i]);
            } else {
                assert(list[n - 1] == segments[i]);
            }
        }
    }
}

proof fn weight_of_tail(list: Seq<Seq<char>>, n: int)
    requires
        2 <= n <= list.len(),
    ensures
        weight(list.take(n)) == weight(list.subrange(2, n)) + units(list[0]) + units(list[1]) + 2,
    decreases n,
{
    assert(list.take(n).drop_last() == list.take(n - 1));
    if n == 2 {
        assert(list.subrange(2, 2) == Seq::<Seq<char>>::empty());
        assert(list.take(1).drop_last() == Seq::<Seq<char>>::empty());
        assert(weight(list.take(1).drop_last()) == 0);
        assert(weight(list.take(1)) == units(list[0]) + 1);
    } else {
        weight_of_tail(list, n - 1);
        assert(list.subrange(2, n).drop_last() == list.subrange(2, n - 1));
        assert(list.subrange(2, n).last() == list[n - 1]);
    }
}

/// An ordinary name stands for the names behind the drive's letter, each `..` of them
/// resolved, on that drive. A slash at its end comes back as a backslash where names are
/// left, which the components of the path do not show.
pub proof fn ordinary_names_stand_for_paths(path: Seq<char>, letter: char, r: Option<Seq<char>>)
    requires
        ordinary_name(path, letter),
        translates(path, r),
    ensures
        ({
            let list = split(path, Separators::Slash);
            let names = resolved_names(list.skip(2));
            let full = seq![letter, ':', '\\'] + join(names, '\\');
            r == Some(
                if names.len() > 0 && list.last().len() == 0 {
                    full.push('\\')
                } else {
                    full
                },
            )
        }),
        components(r->0) == seq![
            Component::Prefix(seq![letter, ':']),
            Component::RootDir,
        ] + names_as_components(resolved_names(split(path, Separators::Slash).skip(2))),
{
    let set = Separators::Slash;
    let list = split(path, set);
    let n = list.len() as int;
    let target = below_drive(list, n);
    let segments = split(target.skip(3), Separators::Both);
    let names = resolved_names(list.skip(2));
    below_drive_parts(list, n, letter);
    assert(list.subrange(2, n) == list.skip(2));
    // The name has a root and is not that of the tree.
    first_segment_is_empty(path);
    assert(path != seq!['/']) by {
        if path == seq!['/'] {
            assert(path.drop_last() == Seq::<char>::empty());
            assert(split(path.drop_last(), set) == seq![Seq::<char>::empty()]);
            assert(list[1] == Seq::<char>::empty());
            assert(seq![letter].len() == 1);
        }
    }
    prefix_fits(path);
    assert(has_root(path));
    // What it stands for is plain.
    weight_of_split(path, set);
    weight_of_split(target.skip(3), Separators::Both);
    weight_of_tail(list, n);
    assert(list.take(n) == list);
    units_of_one(letter);
    units_of_push(seq![letter], ':');
    units_of_push(seq![letter].push(':'), '\\');
    assert(target.take(3) == seq![letter].push(':').push('\\'));
    units_of_sum(target.take(3), target.skip(3));
    assert(target == target.take(3) + target.skip(3));
    assert(units(target) <= LONGEST);
    assert forall|i: int| 0 <= i < segments.len() implies plain_segment(
        #[trigger] segments[i],
    ) by {
        if segments[i].len() > 0 {
            let k = choose|k: int| 2 <= k < n && list[k] == segments[i];
            assert(ordinary_segment(list[k]));
        }
    }
    assert(!target.contains('\0')) by {
        if target.contains('\0') {
            let i = choose|i: int| 0 <= i < target.len() && target[i] == '\0';
            if i < 3 {
                assert(target.take(3)[i] == '\0');
            } else {
                assert(target.skip(3)[i - 3] == '\0');
                split_has_char(target.skip(3), Separators::Both, i - 3);
                let j = choose|j: int|
                    0 <= j < segments.len() && (#[trigger] segments[j]).contains('\0');
                let k = choose|k: int| 2 <= k < n && list[k] == segments[j];
                split_chars(path, set, k, '\0');
            }
        }
    }
    assert(plain_path(target));
    assert(!separator_at(target, 0));
    assert(prefix_kind(target) == PrefixKind::Disk);
    split_last(target.skip(3), Separators::Both);
    if names.len() > 0 {
        assert(n > 2) by {
            if n == 2 {
                assert(list.skip(2) == Seq::<Seq<char>>::empty());
                assert(resolved_names(list.skip(2)).len() == 0);
            }
        }
        assert(target.len() > 3) by {
            if target.len() == 3 {
                assert(target.skip(3) == Seq::<char>::empty());
                assert(segments == seq![Seq::<char>::empty()]);
                assert(segments.drop_last() == Seq::<Seq<char>>::empty());
                assert(resolved_names(segments.drop_last()).len() == 0);
            }
        }
        assert(target.skip(3).last() == target.last());
    }
    assert(target.take(2).push('\\') == seq![letter, ':', '\\']) by {
        assert(target.take(3)[0] == letter);
        assert(target.take(3)[1] == ':');
    }
    full_forms_are_full(target);
    assert(target.take(2) == seq![letter, ':']) by {
        assert(target.take(2).push('\\').drop_last() == target.take(2));
        assert(seq![letter, ':', '\\'].drop_last() == seq![letter, ':']);
    }
}

/// Text without slashes behind a slash is one segment more.
proof fn split_goes_on(text: Seq<char>, more: Seq<char>)
    requires
        unparted(more, Separators::Slash),
    ensures
        split(text.push('/') + more, Separators::Slash) == split(text, Separators::Slash).push(
            more,
        ),
{
    let set = Separators::Slash;
    let empty = Seq::<char>::empty();
    assert(text.push('/').drop_last() == text);
    assert(split(text.push('/'), set) == split(text, set).push(empty));
    split_extends(text.push('/'), more, set);
    assert(split(text, set).push(empty).drop_last() == split(text, set));
    assert(empty + more == more);
}

/// A name that Windows reads as nothing but a name.
pub open spec fn ordinary_part(name: Seq<char>) -> bool {
    proper_part(name) && ordinary_segment(name) && !name.contains('\0')
}

/// `ending`, behind an ordinary name, leads nowhere else: it is a slash, a slash and a dot, or
/// a further name and `..`.
pub open spec fn idle_ending(ending: Seq<char>) -> bool {
    ||| ending == seq!['/']
    ||| ending == seq!['/'] + dot()
    ||| exists|name: Seq<char>| #[trigger]
        ordinary_part(name) && ending == seq!['/'] + name + seq!['/'] + dot_dot()
}

/// An ordinary name followed by another ordinary segment is ordinary, if it is not too long.
pub(crate) proof fn ordinary_name_goes_on(path: Seq<char>, letter: char, more: Seq<char>)
    requires
        ordinary_name(path, letter),
        ordinary_segment(more),
        !more.contains('\0'),
        units(path.push('/') + more) <= LONGEST,
    ensures
        ordinary_name(path.push('/') + more, letter),
        split(path.push('/') + more, Separators::Slash).skip(2) == split(
            path,
            Separators::Slash,
        ).skip(2).push(more),
{
    let list = split(path, Separators::Slash);
    let whole = path.push('/') + more;
    let longer = split(whole, Separators::Slash);
    assert forall|i: int| 0 <= i < more.len() implies !separates(
        Separators::Slash,
        #[trigger] more[i],
    ) by {
        assert(!separates(Separators::Both, more[i]));
    }
    split_goes_on(path, more);
    assert(longer == list.push(more));
    assert(longer.skip(2) == list.skip(2).push(more));
    assert forall|i: int| 2 <= i < longer.len() implies ordinary_segment(
        #[trigger] longer[i],
    ) by {
        if i < list.len() {
            assert(longer[i] == list[i]);
        }
    }
    assert(!whole.contains('\0')) by {
        if whole.contains('\0') {
            let i = choose|i: int| 0 <= i < whole.len() && whole[i] == '\0';
            if i < path.len() {
                assert(path[i] == '\0');
            } else if i > path.len() {
                assert(more[i - path.len() - 1] == '\0');
            }
        }
    }
}

/// An ordinary name with such an ending is ordinary, and has the same names left.
proof fn idle_ending_is_ordinary(path: Seq<char>, letter: char, ending: Seq<char>)
    requires
        ordinary_name(path, letter),
        idle_ending(ending),
        units(path + ending) <= LONGEST,
    ensures
        ordinary_name(path + ending, letter),
        resolved_names(split(path + ending, Separators::Slash).skip(2)) == resolved_names(
            split(path, Separators::Slash).skip(2),
        ),
{
    let empty = Seq::<char>::empty();
    let whole = path + ending;
    let list = split(path, Separators::Slash).skip(2);
    if ending == seq!['/'] {
        assert(whole == path.push('/') + empty);
        ordinary_name_goes_on(path, letter, empty);
        assert(list.push(empty).drop_last() == list);
    } else if ending == seq!['/'] + dot() {
        assert(whole == path.push('/') + dot());
        assert(dot()[0] == '.');
        ordinary_name_goes_on(path, letter, dot());
        assert(list.push(dot()).drop_last() == list);
    } else {
        let name = choose|name: Seq<char>| #[trigger]
            ordinary_part(name) && ending == seq!['/'] + name + seq!['/'] + dot_dot();
        assert(whole == (path.push('/') + name).push('/') + dot_dot());
        idle_detour_is_ordinary(path, letter, name);
    }
}

proof fn idle_detour_is_ordinary(path: Seq<char>, letter: char, name: Seq<char>)
    requires
        ordinary_name(path, letter),
        ordinary_part(name),
        units((path.push('/') + name).push('/') + dot_dot()) <= LONGEST,
    ensures
        ordinary_name((path.push('/') + name).push('/') + dot_dot(), letter),
        resolved_names(
            split((path.push('/') + name).push('/') + dot_dot(), Separators::Slash).skip(2),
        ) == resolved_names(split(path, Separators::Slash).skip(2)),
{
    let list = split(path, Separators::Slash).skip(2);
    let between = path.push('/') + name;
    units_of_push(between, '/');
    units_of_sum(between.push('/'), dot_dot());
    assert(dot_dot()[0] == '.' && dot_dot()[1] == '.');
    ordinary_name_goes_on(path, letter, name);
    ordinary_name_goes_on(between, letter, dot_dot());
    let longer = list.push(name);
    assert(longer.drop_last() == list);
    assert(longer.push(dot_dot()).drop_last() == longer);
    assert(resolved_names(longer) == resolved_names(list).push(name));
    assert(resolved_names(list).push(name).drop_last() == resolved_names(list));
}

/// A slash, a slash and a dot, or a further name and `..` at the end of an ordinary name do not
/// change the path that it stands for. Paths are the same where their components are.
pub proof fn idle_endings_change_nothing(
    path: Seq<char>,
    letter: char,
    ending: Seq<char>,
    r: Option<Seq<char>>,
    ended: Option<Seq<char>>,
)
    requires
        ordinary_name(path, letter),
        idle_ending(ending),
        units(path + ending) <= LONGEST,
        translates(path, r),
        translates(path + ending, ended),
    ensures
        r is Some,
        ended is Some,
        components(ended->0) == components(r->0),
{
    idle_ending_is_ordinary(path, letter, ending);
    ordinary_names_stand_for_paths(path, letter, r);
    ordinary_names_stand_for_paths(path + ending, letter, ended);
}

/// A character that parts nothing is found in a segment.
pub(crate) proof fn split_has_char(text: Seq<char>, set: Separators, i: int)
    requires
        0 <= i < text.len(),
        !separates(set, text[i]),
    ensures
        exists|k: int|
            0 <= k < split(text, set).len() && (#[trigger] split(text, set)[k]).contains(text[i]),
    decreases text.len(),
{
    let front = text.drop_last();
    let before = split(front, set);
    let after = split(text, set);
    split_is_nonempty(front, set);
    if i == text.len() - 1 {
        let last = after[after.len() - 1];
        assert(last[last.len() - 1] == text[i]);
        assert(last.contains(text[i]));
    } else {
        split_has_char(front, set, i);
        let k = choose|k: int|
            0 <= k < before.len() && (#[trigger] before[k]).contains(front[i]);
        let j = choose|j: int| 0 <= j < before[k].len() && before[k][j] == front[i];
        assert(after[k][j] == text[i]);
        assert(after[k].contains(text[i]));
    }
}

/// A name whose first segment is empty, and not the only one, begins with a slash.
proof fn first_segment_is_empty(path: Seq<char>)
    requires
        split(path, Separators::Slash).len() >= 2,
        split(path, Separators::Slash)[0].len() == 0,
    ensures
        separator_at(path, 0),
    decreases path.len(),
{
    let front = path.drop_last();
    let before = split(front, Separators::Slash);
    split_is_nonempty(front, Separators::Slash);
    if before.len() >= 2 {
        assert(before[0] == split(path, Separators::Slash)[0]);
        first_segment_is_empty(front);
        assert(path[0] == front[0]);
    } else {
        assert(before[0].len() == 0);
        split_last(front, Separators::Slash);
        if front.len() > 0 {
            only_segment(front);
        }
        assert(path[0] == '/');
    }
}

/// A text of one segment is that segment.
proof fn only_segment(text: Seq<char>)
    requires
        split(text, Separators::Slash).len() == 1,
    ensures
        split(text, Separators::Slash)[0] == text,
    decreases text.len(),
{
    if text.len() > 0 {
        split_is_nonempty(text.drop_last(), Separators::Slash);
        only_segment(text.drop_last());
        assert(text.drop_last().push(text.last()) == text);
    }
}

proof fn next_separator_of_take(s: Seq<char>, from: int, k: int, set: Separators)
    requires
        0 <= from <= k <= s.len(),
    ensures
        next_separator(s.take(k), from, set) == if next_separator(s, from, set) < k {
            next_separator(s, from, set)
        } else {
            k
        },
        from <= next_separator(s, from, set) <= s.len(),
    decreases s.len() - from,
{
    if from < k {
        assert(s.take(k)[from] == s[from]);
        if !separates(set, s[from]) {
            next_separator_of_take(s, from + 1, k, set);
        }
    } else if from < s.len() && !separates(set, s[from]) {
        next_separator_of_take(s, from + 1, s.len() as int, set);
    }
}

/// A path that is cut behind its prefix keeps its prefix.
proof fn prefix_of_take(s: Seq<char>, k: int)
    requires
        body_start(s) <= k <= s.len(),
    ensures
        prefix_kind(s.take(k)) == prefix_kind(s),
        prefix_len(s.take(k)) == prefix_len(s),
{
    let q = s.take(k);
    prefix_fits(s);
    assert forall|i: int| 0 <= i < k implies #[trigger] q[i] == s[i] by {}
    if separator_at(s, 0) && separator_at(s, 1) {
        if prefix_kind(s) == PrefixKind::Verbatim {
            verbatim_of_take(s, k);
        } else if prefix_kind(s) == PrefixKind::Device {
            next_separator_of_take(s, 4, s.len() as int, Separators::Both);
            next_separator_of_take(s, 4, k, Separators::Both);
        } else {
            if k >= 2 {
                next_separator_of_take(s, 2, s.len() as int, Separators::Both);
                next_separator_of_take(s, 2, k, Separators::Both);
                let server = server_end(s);
                if server < k {
                    next_separator_of_take(s, server + 1, s.len() as int, Separators::Both);
                    next_separator_of_take(s, server + 1, k, Separators::Both);
                } else if server < s.len() {
                    next_separator_of_take(s, server + 1, s.len() as int, Separators::Both);
                }
            }
        }
    }
}

proof fn verbatim_of_take(s: Seq<char>, k: int)
    requires
        prefix_kind(s) == PrefixKind::Verbatim,
        prefix_len(s) <= k <= s.len(),
    ensures
        prefix_kind(s.take(k)) == PrefixKind::Verbatim,
        prefix_len(s.take(k)) == prefix_len(s),
{
    let q = s.take(k);
    let set = Separators::Backslash;
    next_separator_of_take(s, 4, s.len() as int, set);
    if s.len() >= 8 {
        next_separator_of_take(s, 8, s.len() as int, set);
        let server = next_separator(s, 8, set);
        if server < s.len() {
            next_separator_of_take(s, server + 1, s.len() as int, set);
        }
    }
    assert(k >= 4);
    assert forall|i: int| 0 <= i < k implies #[trigger] q[i] == s[i] by {}
    next_separator_of_take(s, 4, k, set);
    if s.len() >= 8 && s[4] == 'U' && s[5] == 'N' && s[6] == 'C' && separator_at(s, 7) {
        next_separator_of_take(s, 8, k, set);
        let server = next_separator(s, 8, set);
        if server < k {
            next_separator_of_take(s, server + 1, k, set);
        }
    } else if drive_at(s, 4) && s.len() > 6 && !separator_at(s, 6) {
        reveal_with_fuel(next_separator, 4);
        next_separator_of_take(s, 7, s.len() as int, set);
        assert(next_separator(s, 4, set) == next_separator(s, 7, set));
    }
}

/// Where the last segment begins, and what the segments are.
pub(crate) proof fn split_at_last(s: Seq<char>, start: int, end: int, set: Separators)
    requires
        0 <= start <= end <= s.len(),
    ensures
        ({
            let at = last_separator(s, end, set);
            let text = s.subrange(start, end);
            &&& at < end || end == 0
            &&& at < start ==> split(text, set) == seq![text]
            &&& at >= start ==> split(text, set) == split(s.subrange(start, at), set).push(
                s.subrange(at + 1, end),
            )
        }),
    decreases end - start,
{
    let at = last_separator(s, end, set);
    let text = s.subrange(start, end);
    let empty = Seq::<char>::empty();
    if end == start {
        last_separator_before(s, end, set);
        assert(text == empty);
        assert(split(text, set) == seq![empty]);
        assert(seq![empty] == seq![text]);
    } else {
        assert(text.drop_last() == s.subrange(start, end - 1));
        assert(text.last() == s[end - 1]);
        if separates(set, s[end - 1]) {
            assert(s.subrange(end, end) == empty);
        } else {
            split_at_last(s, start, end - 1, set);
            let before = split(text.drop_last(), set);
            if at < start {
                assert(before == seq![text.drop_last()]);
                assert(before.last() == text.drop_last());
                assert(text.drop_last().push(text.last()) == text);
                assert(before.drop_last().push(text) == seq![text]);
            } else {
                let front = split(s.subrange(start, at), set);
                assert(before == front.push(s.subrange(at + 1, end - 1)));
                assert(before.drop_last() == front);
                assert(s.subrange(at + 1, end - 1).push(s[end - 1]) == s.subrange(at + 1, end));
            }
        }
    }
}

pub(crate) proof fn last_separator_before(s: Seq<char>, end: int, set: Separators)
    requires
        0 <= end <= s.len(),
    ensures
        last_separator(s, end, set) < end || end == 0,
        -1 <= last_separator(s, end, set),
    decreases end,
{
    if end > 0 {
        last_separator_before(s, end - 1, set);
    }
}

/// The components that stand between two places of a path.
spec fn components_between(s: Seq<char>, start: int, end: int) -> Seq<Component<Seq<char>>> {
    body_components(
        split(s.subrange(start, end), body_separators(s)),
        prefix_kind(s) == PrefixKind::Verbatim,
    )
}

pub(crate) proof fn body_of_one(segment: Seq<char>, verbatim: bool)
    ensures
        body_components(seq![segment], verbatim) == match segment_component(segment, verbatim) {
            Some(component) => seq![component],
            None => Seq::empty(),
        },
{
    let list = seq![segment];
    assert(list.drop_last() == Seq::<Seq<char>>::empty());
    assert(body_components(list.drop_last(), verbatim) == Seq::<Component<Seq<char>>>::empty());
    match segment_component(segment, verbatim) {
        Some(component) => {
            assert(body_components(list, verbatim) == seq![component]);
        },
        None => {},
    }
}

/// Nothing but separators, and dots that count for nothing, lies behind the end of the body.
proof fn body_end_keeps(s: Seq<char>, start: int, end: int)
    requires
        0 <= start <= end <= s.len(),
    ensures
        ({
            let k = body_end(s, start, end);
            &&& start <= k <= end
            &&& components_between(s, start, k) == components_between(s, start, end)
            &&& k == start ==> components_between(s, start, end).len() == 0
            &&& k > start ==> segment_component(
                s.subrange(segment_start(s, start, k), k),
                prefix_kind(s) == PrefixKind::Verbatim,
            ) is Some
        }),
    decreases end - start,
{
    let set = body_separators(s);
    let verbatim = prefix_kind(s) == PrefixKind::Verbatim;
    let empty = Seq::<char>::empty();
    assert(s.subrange(start, start) == empty);
    assert(split(empty, set) == seq![empty]);
    body_of_one(empty, verbatim);
    if end > start {
        split_at_last(s, start, end, set);
        last_separator_before(s, end, set);
        let from = segment_start(s, start, end);
        let segment = s.subrange(from, end);
        if segment_component(segment, verbatim) is None {
            if from <= start {
                body_of_one(segment, verbatim);
            } else {
                let front = split(s.subrange(start, from - 1), set);
                assert(split(s.subrange(start, end), set) == front.push(segment));
                assert(front.push(segment).drop_last() == front);
                body_end_keeps(s, start, from - 1);
            }
        }
    }
}

/// A path that is cut at the end of its body, or of a part of it, keeps what stands before.
proof fn head_of_take(s: Seq<char>, end: int)
    requires
        body_start(s) <= end <= s.len(),
    ensures
        ({
            let k = body_end(s, body_start(s), end);
            &&& body_start(s) <= k <= s.len()
            &&& components(s.take(k)) == head_components(s) + components_between(
                s,
                body_start(s),
                k,
            )
        }),
{
    let start = body_start(s);
    prefix_fits(s);
    body_end_keeps(s, start, end);
    let k = body_end(s, start, end);
    let q = s.take(k);
    prefix_of_take(s, k);
    assert forall|i: int| 0 <= i < k implies #[trigger] q[i] == s[i] by {}
    assert(written_root(q) == written_root(s));
    assert(leading_dot(q) == leading_dot(s)) by {
        if !leading_dot(s) && leading_dot(q) {
            assert(s[0] == '.');
            assert(k == 1 && start == 0);
            assert(!separates(body_separators(s), s[0]));
            assert(last_separator(s, 0, body_separators(s)) == -1);
            assert(last_separator(s, 1, body_separators(s)) == -1);
            assert(segment_start(s, 0, 1) == 0);
            assert(s.subrange(0, 1) == dot());
        }
    }
    assert(q.take(prefix_len(q)) == s.take(prefix_len(s)));
    assert(head_components(q) == head_components(s));
    assert(q.skip(start) == s.subrange(start, k));
}

/// The parent of a path has all of its components but the last. A path has a parent exactly
/// where its last component is a name, `.` or `..`.
pub proof fn parents_lack_the_last_component(path: Seq<char>)
    ensures
        match parent(path) {
            Some(above) => {
                &&& components(path).len() > 0
                &&& !(components(path).last() is RootDir || components(path).last() is Prefix)
                &&& components(above) == components(path).drop_last()
            },
            None => components(path).len() == 0 || components(path).last() is RootDir
                || components(path).last() is Prefix,
        },
{
    let start = body_start(path);
    let len = path.len() as int;
    let set = body_separators(path);
    let verbatim = prefix_kind(path) == PrefixKind::Verbatim;
    prefix_fits(path);
    body_end_keeps(path, start, len);
    let end = body_end(path, start, len);
    let head = head_components(path);
    let body = components_between(path, start, end);
    assert(path.skip(start) == path.subrange(start, len));
    assert(components(path) == head + body);
    if end > start {
        split_at_last(path, start, end, set);
        last_separator_before(path, end, set);
        let from = segment_start(path, start, end);
        let segment = path.subrange(from, end);
        let component = segment_component(segment, verbatim)->0;
        let shorter = if from <= start {
            start
        } else {
            from - 1
        };
        if from <= start {
            body_of_one(segment, verbatim);
            let empty = Seq::<char>::empty();
            assert(path.subrange(start, start) == empty);
            assert(split(empty, set) == seq![empty]);
            body_of_one(empty, verbatim);
            assert(body == seq![component]);
            assert(components_between(path, start, start) == body.drop_last());
        } else {
            let front = split(path.subrange(start, from - 1), set);
            assert(front.push(segment).drop_last() == front);
            assert(body == components_between(path, start, from - 1).push(component));
            assert(body.drop_last() == components_between(path, start, from - 1));
        }
        body_end_keeps(path, start, shorter);
        head_of_take(path, shorter);
        assert(body_end(path, start, from - 1) == body_end(path, start, shorter));
        assert((head + body).drop_last() == head + body.drop_last());
    } else {
        assert(body.len() == 0);
        assert(components(path) == head);
        if leading_dot(path) {
            let empty = Seq::<char>::empty();
            assert(split(empty, Separators::Both) == seq![empty]);
            body_of_one(empty, false);
            assert(empty.skip(0) == empty);
            assert(components(empty) == Seq::<Component<Seq<char>>>::empty());
            assert(head == seq![Component::<Seq<char>>::CurDir]);
            assert(head.drop_last() == Seq::<Component<Seq<char>>>::empty());
        }
    }
}

/// The root of a drive has two components: the drive and the root.
pub proof fn drive_roots_have_two_components(letter: char)
    requires
        drive_letter(letter),
    ensures
        components(seq![letter, ':', '\\']) == seq![
            Component::Prefix(seq![letter, ':']),
            Component::RootDir,
        ],
{
    let path = seq![letter, ':', '\\'];
    let empty = Seq::<char>::empty();
    assert(!separator_at(path, 0));
    assert(prefix_kind(path) == PrefixKind::Disk);
    assert(path.take(2) == seq![letter, ':']);
    assert(path.skip(3) == empty);
    assert(split(empty, Separators::Both) == seq![empty]);
    body_of_one(empty, false);
}

/// No `..` of the list is without a name before it that it takes away.
pub open spec fn stays_below(list: Seq<Seq<char>>) -> bool
    decreases list.len(),
{
    list.len() == 0 || (stays_below(list.drop_last()) && (list.last() == dot_dot()
        ==> resolved_names(list.drop_last()).len() > 0))
}

/// A separator at the beginning stands behind an empty segment.
pub(crate) proof fn split_behind_first(c: char, text: Seq<char>, set: Separators)
    requires
        separates(set, c),
    ensures
        split(seq![c] + text, set) == seq![Seq::<char>::empty()] + split(text, set),
    decreases text.len(),
{
    let empty = Seq::<char>::empty();
    let whole = seq![c] + text;
    if text.len() == 0 {
        assert(whole.drop_last() == empty);
        assert(split(empty, set) == seq![empty]);
        assert(whole.last() == c);
        assert(seq![empty].push(empty) == seq![empty] + seq![empty]);
    } else {
        assert(whole.drop_last() == seq![c] + text.drop_last());
        assert(whole.last() == text.last());
        split_behind_first(c, text.drop_last(), set);
        split_is_nonempty(text.drop_last(), set);
        let before = split(text.drop_last(), set);
        let longer = seq![empty] + before;
        assert(longer.last() == before.last());
        assert(longer.drop_last() == seq![empty] + before.drop_last());
        assert(longer.push(empty) == seq![empty] + before.push(empty));
        let grown = before.last().push(text.last());
        assert(longer.drop_last().push(grown) == seq![empty] + before.drop_last().push(grown));
    }
}

/// Without backslashes it does not matter whether they part segments.
pub(crate) proof fn split_without_backslash(text: Seq<char>)
    requires
        !text.contains('\\'),
    ensures
        split(text, Separators::Both) == split(text, Separators::Slash),
    decreases text.len(),
{
    if text.len() > 0 {
        assert(text[text.len() - 1] != '\\');
        assert(!text.drop_last().contains('\\')) by {
            if text.drop_last().contains('\\') {
                let i = choose|i: int|
                    0 <= i < text.drop_last().len() && text.drop_last()[i] == '\\';
                assert(text[i] == '\\');
            }
        }
        split_without_backslash(text.drop_last());
    }
}

/// The parts of a name that does not climb above its drive are the drive and the names.
proof fn canonical_parts_below_drive(drive: Seq<char>, list: Seq<Seq<char>>)
    requires
        proper_part(drive),
        stays_below(list),
    ensures
        canonical_parts(
            seq![Component::<Seq<char>>::RootDir] + body_components(seq![drive] + list, false),
        ) == seq![drive] + resolved_names(list),
    decreases list.len(),
{
    let root = seq![Component::<Seq<char>>::RootDir];
    let whole = root + body_components(seq![drive] + list, false);
    if list.len() == 0 {
        assert(seq![drive] + list == seq![drive]);
        body_of_one(drive, false);
        assert(whole.drop_last() == root);
        assert(root.drop_last() == Seq::<Component<Seq<char>>>::empty());
        assert(canonical_parts(root.drop_last()) == Seq::<Seq<char>>::empty());
        assert(canonical_parts(root) == Seq::<Seq<char>>::empty());
        assert(canonical_parts(whole) == seq![drive]);
        assert(seq![drive] + resolved_names(list) == seq![drive]);
    } else {
        let front = list.drop_last();
        canonical_parts_below_drive(drive, front);
        let before = seq![drive] + resolved_names(front);
        assert((seq![drive] + list).drop_last() == seq![drive] + front);
        assert((seq![drive] + list).last() == list.last());
        let shorter = root + body_components(seq![drive] + front, false);
        match segment_component(list.last(), false) {
            Some(component) => {
                assert(whole.drop_last() == shorter);
                assert(whole.last() == component);
                if list.last() == dot_dot() {
                    assert(before.drop_last() == seq![drive] + resolved_names(front).drop_last());
                } else {
                    assert(before.push(list.last()) == seq![drive] + resolved_names(front).push(
                        list.last(),
                    ));
                }
            },
            None => {
                assert(whole == shorter);
            },
        }
    }
}

/// The canonical form of an ordinary name: the drive and the names that are left.
proof fn canonical_form_of_ordinary_name(path: Seq<char>, letter: char)
    requires
        ordinary_name(path, letter),
        stays_below(split(path, Separators::Slash).skip(2)),
    ensures
        canonical_parts(components(path)) == seq![seq![letter]] + resolved_names(
            split(path, Separators::Slash).skip(2),
        ),
{
    let set = Separators::Slash;
    let list = split(path, set);
    let rest = path.skip(1);
    let drive = seq![letter];
    first_segment_is_empty(path);
    assert(!path.contains('\\')) by {
        if path.contains('\\') {
            let i = choose|i: int| 0 <= i < path.len() && path[i] == '\\';
            split_has_char(path, set, i);
            let k = choose|k: int| 0 <= k < list.len() && (#[trigger] list[k]).contains('\\');
            let j = choose|j: int| 0 <= j < list[k].len() && list[k][j] == '\\';
            if k == 1 {
                assert(drive[j] == '\\');
            } else if k >= 2 {
                assert(ordinary_segment(list[k]));
                assert(!separates(Separators::Both, list[k][j]));
            }
        }
    }
    assert(path[0] == '/') by {
        assert(path.contains(path[0]));
    }
    assert(path == seq!['/'] + rest);
    split_behind_first('/', rest, set);
    assert(split(rest, set) == list.skip(1));
    assert(!rest.contains('\\')) by {
        if rest.contains('\\') {
            let i = choose|i: int| 0 <= i < rest.len() && rest[i] == '\\';
            assert(path[i + 1] == '\\');
            assert(path.contains('\\'));
        }
    }
    split_without_backslash(rest);
    assert(list.skip(1) == seq![drive] + list.skip(2));
    // The second character is the letter of the drive.
    assert(!separator_at(path, 1)) by {
        if separator_at(path, 1) {
            assert(path.contains(path[1]));
            let tail = rest.skip(1);
            assert(rest == seq!['/'] + tail);
            split_behind_first('/', tail, set);
            assert(split(rest, set)[0] == Seq::<char>::empty());
            assert(list.skip(1)[0] == drive);
            assert(drive.len() == 1);
        }
    }
    assert(prefix_kind(path) == PrefixKind::Absent);
    assert(head_components(path) == seq![Component::<Seq<char>>::RootDir]);
    assert(drive[0] == letter);
    assert(dot()[0] == '.');
    assert(dot_dot().len() == 2);
    assert(proper_part(drive));
    canonical_parts_below_drive(drive, list.skip(2));
}

/// The canonical form of a name stands for the same path as the name itself: their components
/// are the same, and the texts are too but for a backslash at the end. This holds of every
/// ordinary name that does not climb above its drive: one that does has a canonical form on
/// another drive, or on none.
pub proof fn canonical_names_stand_for_the_same(
    path: Seq<char>,
    letter: char,
    r: Option<Seq<char>>,
    canonical: Option<Seq<char>>,
)
    requires
        ordinary_name(path, letter),
        stays_below(split(path, Separators::Slash).skip(2)),
        translates(path, r),
        translates(canonical_name(path), canonical),
    ensures
        r is Some,
        canonical is Some,
        components(canonical->0) == components(r->0),
        r == canonical || r == Some(canonical->0.push('\\')),
{
    let set = Separators::Slash;
    let list = split(path, set);
    let rest = list.skip(2);
    let names = resolved_names(rest);
    let drive = seq![letter];
    let parts = seq![drive] + names;
    let name = canonical_name(path);
    let empty = Seq::<char>::empty();
    ordinary_names_stand_for_paths(path, letter, r);
    canonical_form_of_ordinary_name(path, letter);
    assert(name == seq!['/'] + join(parts, '/'));
    resolved_come_from(rest);
    assert forall|i: int| 0 <= i < names.len() implies ordinary_segment(#[trigger] names[i]) by {
        let k = choose|k: int| 0 <= k < rest.len() && rest[k] == names[i];
        assert(list[k + 2] == names[i]);
    }
    assert forall|i: int| 0 <= i < parts.len() implies unparted(#[trigger] parts[i], set) by {
        if i > 0 {
            assert(ordinary_segment(names[i - 1]));
            assert(parts[i] == names[i - 1]);
            assert forall|j: int| 0 <= j < parts[i].len() implies !separates(
                set,
                #[trigger] parts[i][j],
            ) by {
                assert(!separates(Separators::Both, names[i - 1][j]));
            }
        }
    }
    split_of_join(parts, '/', set);
    split_behind_first('/', join(parts, '/'), set);
    let again = split(name, set);
    assert(again == seq![empty] + parts);
    assert(again.skip(2) == names);
    // The canonical form is ordinary too.
    weight_of_split(path, set);
    weight_of_tail(list, list.len() as int);
    assert(list.take(list.len() as int) == list);
    assert(list.subrange(2, list.len() as int) == rest);
    weight_of_resolved(rest);
    weight_of_join(parts, '/');
    weight_of_tail(again, again.len() as int);
    weight_of_split(name, set);
    assert(again.take(again.len() as int) == again);
    assert(again.subrange(2, again.len() as int) == names);
    units_of_one('/');
    units_of_sum(seq!['/'], join(parts, '/'));
    assert(units(name) <= units(path));
    assert(!name.contains('\0')) by {
        if name.contains('\0') {
            let i = choose|i: int| 0 <= i < name.len() && name[i] == '\0';
            split_has_char(name, set, i);
            let k = choose|k: int| 0 <= k < again.len() && (#[trigger] again[k]).contains('\0');
            if k == 1 {
                assert(again[1] == drive);
                let j = choose|j: int| 0 <= j < drive.len() && drive[j] == '\0';
                assert(drive[j] == letter);
            } else if k >= 2 {
                assert(again[k] == names[k - 2]);
                let m = choose|m: int| 0 <= m < rest.len() && rest[m] == names[k - 2];
                assert(list[m + 2].contains('\0'));
                split_chars(path, set, m + 2, '\0');
            }
        }
    }
    assert forall|i: int| 2 <= i < again.len() implies ordinary_segment(#[trigger] again[i]) by {
        assert(again[i] == names[i - 2]);
    }
    assert(ordinary_name(name, letter));
    ordinary_names_stand_for_paths(name, letter, canonical);
    resolved_of_proper(names);
    assert(again.last().len() > 0) by {
        if names.len() > 0 {
            assert(again.last() == names[names.len() - 1]);
            assert(proper_part(names[names.len() - 1]));
        } else {
            assert(again.last() == drive);
        }
    }
}

} // verus!
