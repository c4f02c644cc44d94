//! Windows paths as texts: their prefix, their components, and what follows from those.
//!
//! A path is read here as Windows reads it, on whatever machine the code runs. Both `/` and
//! `\` part components, except after a verbatim prefix (`\\?\`), where `\` alone does.

use vstd::prelude::*;

use crate::text::{
    chars_of, extend, find_separator, is_separator, part, segments, text_of, Separators,
};
use crate::text::{last_separator, next_separator, separates, split, texts};

verus! {

/// The kinds of prefix that a path can begin with.
#[derive(Clone, Copy, PartialEq, Eq, Structural, Debug)]
pub enum PrefixKind {
    /// No prefix.
    Absent,
    /// A drive: `C:`.
    Disk,
    /// A server and a share: `\\server\share`.
    Unc,
    /// A device: `\\.\COM42`.
    Device,
    /// What follows `\\?\` is taken as it is: `\\?\C:`, `\\?\UNC\server\share`, `\\?\name`.
    Verbatim,
}

/// One component of a path.
pub enum Component<T> {
    /// The prefix, as it is written.
    Prefix(T),
    /// The root directory.
    RootDir,
    /// The current directory, `.`.
    CurDir,
    /// The parent directory, `..`.
    ParentDir,
    /// A name.
    Normal(T),
}

/// `c` is one of the letters that a drive can have.
pub open spec fn drive_letter(c: char) -> bool {
    'a' <= c <= 'z' || 'A' <= c <= 'Z'
}

/// A drive and its colon stand at index `at`.
pub open spec fn drive_at(s: Seq<char>, at: int) -> bool {
    at + 1 < s.len() && drive_letter(s[at]) && s[at + 1] == ':'
}

/// `s` holds a separator at index `at`.
pub open spec fn separator_at(s: Seq<char>, at: int) -> bool {
    0 <= at < s.len() && separates(Separators::Both, s[at])
}

/// `s` begins with `\\?\`, with backslashes alone.
pub open spec fn verbatim_start(s: Seq<char>) -> bool {
    s.len() >= 4 && s[0] == '\\' && s[1] == '\\' && s[2] == '?' && s[3] == '\\'
}

/// `s` begins with `\\.\`, with either separator.
pub open spec fn device_start(s: Seq<char>) -> bool {
    separator_at(s, 0) && separator_at(s, 1) && separator_at(s, 3) && s[2] == '.'
}

/// Where the name of a server ends, in a path that begins with two separators.
pub open spec fn server_end(s: Seq<char>) -> int {
    next_separator(s, 2, Separators::Both)
}

/// Where the name of a share ends, in a path that begins with two separators.
pub open spec fn share_end(s: Seq<char>) -> int {
    next_separator(s, server_end(s) + 1, Separators::Both)
}

/// The kind of the prefix.
pub open spec fn prefix_kind(s: Seq<char>) -> PrefixKind {
    if separator_at(s, 0) && separator_at(s, 1) {
        if verbatim_start(s) {
            PrefixKind::Verbatim
        } else if device_start(s) {
            PrefixKind::Device
        } else if 2 < server_end(s) && server_end(s) + 1 < share_end(s) {
            PrefixKind::Unc
        } else {
            PrefixKind::Absent
        }
    } else if drive_at(s, 0) {
        PrefixKind::Disk
    } else {
        PrefixKind::Absent
    }
}

/// The length of a prefix that begins with `\\?\`.
pub open spec fn verbatim_len(s: Seq<char>) -> int {
    if s.len() >= 8 && s[4] == 'U' && s[5] == 'N' && s[6] == 'C' && separator_at(s, 7) {
        let server = next_separator(s, 8, Separators::Backslash);
        let share = next_separator(s, server + 1, Separators::Backslash);
        if server + 1 < share {
            share
        } else {
            server
        }
    } else if drive_at(s, 4) && (s.len() == 6 || separator_at(s, 6)) {
        6
    } else {
        next_separator(s, 4, Separators::Backslash)
    }
}

/// The length of the prefix.
pub open spec fn prefix_len(s: Seq<char>) -> int {
    match prefix_kind(s) {
        PrefixKind::Absent => 0,
        PrefixKind::Disk => 2,
        PrefixKind::Unc => share_end(s),
        PrefixKind::Device => next_separator(s, 4, Separators::Both),
        PrefixKind::Verbatim => verbatim_len(s),
    }
}

/// The characters that part the components after the prefix.
pub open spec fn body_separators(s: Seq<char>) -> Separators {
    if prefix_kind(s) == PrefixKind::Verbatim {
        Separators::Backslash
    } else {
        Separators::Both
    }
}

/// The root is written down: a separator follows the prefix.
pub open spec fn written_root(s: Seq<char>) -> bool {
    separator_at(s, prefix_len(s))
}

/// The path has a root. Every prefix but that of a drive implies one.
pub open spec fn has_root(s: Seq<char>) -> bool {
    written_root(s) || !(prefix_kind(s) == PrefixKind::Absent || prefix_kind(s)
        == PrefixKind::Disk)
}

/// The path begins with a `.` component.
pub open spec fn leading_dot(s: Seq<char>) -> bool {
    prefix_kind(s) == PrefixKind::Absent && s.len() > 0 && s[0] == '.' && (s.len() == 1
        || separator_at(s, 1))
}

/// Where the components after prefix, root and leading `.` begin.
pub open spec fn body_start(s: Seq<char>) -> int {
    prefix_len(s) + if written_root(s) || leading_dot(s) {
        1int
    } else {
        0
    }
}

/// The name of the current directory.
pub open spec fn dot() -> Seq<char> {
    seq!['.']
}

/// The name of the parent directory.
pub open spec fn dot_dot() -> Seq<char> {
    seq!['.', '.']
}

/// The component that a segment stands for, if any: a `.` counts after a verbatim prefix only.
pub open spec fn segment_component(segment: Seq<char>, verbatim: bool) -> Option<
    Component<Seq<char>>,
> {
    if segment.len() == 0 {
        None
    } else if segment == dot() {
        if verbatim {
            Some(Component::CurDir)
        } else {
            None
        }
    } else if segment == dot_dot() {
        Some(Component::ParentDir)
    } else {
        Some(Component::Normal(segment))
    }
}

/// The components that a list of segments stands for.
pub open spec fn body_components(list: Seq<Seq<char>>, verbatim: bool) -> Seq<
    Component<Seq<char>>,
>
    decreases list.len(),
{
    if list.len() == 0 {
        Seq::empty()
    } else {
        let before = body_components(list.drop_last(), verbatim);
        match segment_component(list.last(), verbatim) {
            Some(component) => before.push(component),
            None => before,
        }
    }
}

/// What stands before the body: the prefix, the root, or a leading `.`. A verbatim prefix
/// has a root component only where the root is written down.
pub open spec fn head_components(s: Seq<char>) -> Seq<Component<Seq<char>>> {
    let kind = prefix_kind(s);
    let prefix = if kind == PrefixKind::Absent {
        Seq::empty()
    } else {
        seq![Component::Prefix(s.take(prefix_len(s)))]
    };
    if written_root(s) || kind == PrefixKind::Unc || kind == PrefixKind::Device {
        prefix.push(Component::RootDir)
    } else if leading_dot(s) {
        prefix.push(Component::CurDir)
    } else {
        prefix
    }
}

/// The components of a path, in order.
pub open spec fn components(s: Seq<char>) -> Seq<Component<Seq<char>>> {
    head_components(s) + body_components(
        split(s.skip(body_start(s)), body_separators(s)),
        prefix_kind(s) == PrefixKind::Verbatim,
    )
}

/// The text of a component.
pub open spec fn component_text(component: Component<Seq<char>>) -> Seq<char> {
    match component {
        Component::Prefix(text) => text,
        Component::RootDir => seq!['\\'],
        Component::CurDir => dot(),
        Component::ParentDir => dot_dot(),
        Component::Normal(text) => text,
    }
}

/// A component that holds characters, as one that holds a text.
pub open spec fn component_view(component: Component<Vec<char>>) -> Component<Seq<char>> {
    match component {
        Component::Prefix(chars) => Component::Prefix(chars@),
        Component::RootDir => Component::RootDir,
        Component::CurDir => Component::CurDir,
        Component::ParentDir => Component::ParentDir,
        Component::Normal(chars) => Component::Normal(chars@),
    }
}

/// Components that hold characters, as components that hold texts.
pub open spec fn component_views(list: Seq<Component<Vec<char>>>) -> Seq<Component<Seq<char>>> {
    Seq::new(list.len(), |i: int| component_view(list[i]))
}

proof fn next_separator_bounds(s: Seq<char>, from: int, set: Separators)
    requires
        from <= s.len(),
    ensures
        from <= next_separator(s, from, set) <= s.len(),
    decreases s.len() - from,
{
    if from < s.len() {
        next_separator_bounds(s, from + 1, set);
    }
}

/// The prefix lies inside the path, and so does what stands before the body.
pub proof fn prefix_fits(s: Seq<char>)
    ensures
        0 <= prefix_len(s) <= s.len(),
        prefix_len(s) <= body_start(s) <= s.len(),
        prefix_kind(s) == PrefixKind::Absent <==> prefix_len(s) == 0,
{
    if separator_at(s, 0) && separator_at(s, 1) {
        next_separator_bounds(s, 2, Separators::Both);
        if server_end(s) < s.len() {
            next_separator_bounds(s, server_end(s) + 1, Separators::Both);
        }
        if s.len() >= 4 {
            next_separator_bounds(s, 4, Separators::Both);
            next_separator_bounds(s, 4, Separators::Backslash);
        }
        if s.len() >= 8 {
            next_separator_bounds(s, 8, Separators::Backslash);
            let server = next_separator(s, 8, Separators::Backslash);
            if server < s.len() {
                next_separator_bounds(s, server + 1, Separators::Backslash);
            }
        }
    }
}

/// Whether a drive and its colon stand at index `at`.
pub fn is_drive_at(s: &Vec<char>, at: usize) -> (r: bool)
    requires
        at < usize::MAX,
    ensures
        r == drive_at(s@, at as int),
{
    at + 1 < s.len() && (('a' <= s[at] && s[at] <= 'z') || ('A' <= s[at] && s[at] <= 'Z')) && s[at
        + 1] == ':'
}

/// Whether `s` holds a separator at index `at`.
pub fn is_separator_at(s: &Vec<char>, at: usize) -> (r: bool)
    ensures
        r == separator_at(s@, at as int),
{
    at < s.len() && is_separator(Separators::Both, s[at])
}

/// The end of a verbatim prefix.
fn verbatim_end(s: &Vec<char>) -> (r: usize)
    requires
        verbatim_start(s@),
    ensures
        r == verbatim_len(s@),
{
    if s.len() >= 8 && s[4] == 'U' && s[5] == 'N' && s[6] == 'C' && is_separator_at(s, 7) {
        let server = find_separator(s, 8, Separators::Backslash);
        if server == s.len() {
            return server;
        }
        let share = find_separator(s, server + 1, Separators::Backslash);
        if server + 1 < share {
            share
        } else {
            server
        }
    } else if is_drive_at(s, 4) && (s.len() == 6 || is_separator_at(s, 6)) {
        6
    } else {
        find_separator(s, 4, Separators::Backslash)
    }
}

/// The prefix of a path: its kind and its length.
pub fn read_prefix(s: &Vec<char>) -> (r: (PrefixKind, usize))
    ensures
        r.0 == prefix_kind(s@),
        r.1 == prefix_len(s@),
        r.1 <= s@.len(),
{
    proof {
        prefix_fits(s@);
    }
    if is_separator_at(s, 0) && is_separator_at(s, 1) {
        if s.len() >= 4 && s[0] == '\\' && s[1] == '\\' && s[2] == '?' && s[3] == '\\' {
            (PrefixKind::Verbatim, verbatim_end(s))
        } else if s.len() >= 4 && s[2] == '.' && is_separator_at(s, 3) {
            (PrefixKind::Device, find_separator(s, 4, Separators::Both))
        } else {
            let server = find_separator(s, 2, Separators::Both);
            if server == s.len() {
                return (PrefixKind::Absent, 0);
            }
            let share = find_separator(s, server + 1, Separators::Both);
            if 2 < server && server + 1 < share {
                (PrefixKind::Unc, share)
            } else {
                (PrefixKind::Absent, 0)
            }
        }
    } else if is_drive_at(s, 0) {
        (PrefixKind::Disk, 2)
    } else {
        (PrefixKind::Absent, 0)
    }
}

/// Whether a path has a root.
pub fn path_has_root(s: &Vec<char>) -> (r: bool)
    ensures
        r == has_root(s@),
{
    let (kind, len) = read_prefix(s);
    is_separator_at(s, len) || !(kind == PrefixKind::Absent || kind == PrefixKind::Disk)
}

/// Whether the segment is `.`.
pub fn is_dot(segment: &Vec<char>) -> (r: bool)
    ensures
        r == (segment@ == dot()),
{
    let r = segment.len() == 1 && segment[0] == '.';
    proof {
        if r {
            assert(segment@ == dot());
        }
    }
    r
}

/// Whether the segment is `..`.
pub fn is_dot_dot(segment: &Vec<char>) -> (r: bool)
    ensures
        r == (segment@ == dot_dot()),
{
    let r = segment.len() == 2 && segment[0] == '.' && segment[1] == '.';
    proof {
        if r {
            assert(segment@ == dot_dot());
        }
    }
    r
}

/// The components of a path, in order.
pub fn read_components(s: &Vec<char>) -> (r: Vec<Component<Vec<char>>>)
    ensures
        component_views(r@) == components(s@),
{
    proof {
        prefix_fits(s@);
    }
    let (kind, len) = read_prefix(s);
    let verbatim = kind == PrefixKind::Verbatim;
    let set = if verbatim {
        Separators::Backslash
    } else {
        Separators::Both
    };
    let root = is_separator_at(s, len);
    let dotted = kind == PrefixKind::Absent && s.len() > 0 && s[0] == '.' && (s.len() == 1
        || is_separator_at(s, 1));
    let mut r: Vec<Component<Vec<char>>> = Vec::new();
    if kind != PrefixKind::Absent {
        r.push(Component::Prefix(part(s, 0, len)));
    }
    if root || kind == PrefixKind::Unc || kind == PrefixKind::Device {
        r.push(Component::RootDir);
    } else if dotted {
        r.push(Component::CurDir);
    }
    proof {
        assert(s@.subrange(0, len as int) == s@.take(len as int));
        assert(component_views(r@) == head_components(s@));
    }
    let start = if root || dotted {
        assert(len < s.len());
        len + 1
    } else {
        len
    };
    let body = part(s, start, s.len());
    proof {
        assert(body@ == s@.skip(start as int));
    }
    let list = segments(&body, set);
    for i in 0..list.len()
        invariant
            component_views(r@) == head_components(s@) + body_components(
                texts(list@).take(i as int),
                verbatim,
            ),
    {
        let ghost before = component_views(r@);
        proof {
            assert(texts(list@).take(i + 1).drop_last() == texts(list@).take(i as int));
        }
        let segment = &list[i];
        if segment.len() == 0 {
        } else if is_dot(segment) {
            if verbatim {
                r.push(Component::CurDir);
                proof {
                    assert(component_views(r@) == before.push(Component::CurDir));
                }
            }
        } else if is_dot_dot(segment) {
            r.push(Component::ParentDir);
            proof {
                assert(component_views(r@) == before.push(Component::ParentDir));
            }
        } else {
            r.push(Component::Normal(part(segment, 0, segment.len())));
            proof {
                assert(segment@.subrange(0, segment@.len() as int) == segment@);
                assert(component_views(r@) == before.push(Component::Normal(segment@)));
            }
        }
    }
    proof {
        assert(texts(list@).take(list@.len() as int) == texts(list@));
    }
    r
}

/// `components` with `more` pushed onto them one by one, as is done after a verbatim prefix:
/// a root goes back to the prefix, `.` is left out, and `..` takes a name away.
pub open spec fn pushed_components(
    base: Seq<Component<Seq<char>>>,
    more: Seq<Component<Seq<char>>>,
) -> Seq<Component<Seq<char>>>
    decreases more.len(),
{
    if more.len() == 0 {
        base
    } else {
        let before = pushed_components(base, more.drop_last());
        match more.last() {
            Component::RootDir => if before.len() > 0 {
                seq![before[0], Component::RootDir]
            } else {
                seq![Component::RootDir]
            },
            Component::CurDir => before,
            Component::ParentDir => if before.len() > 0 && before.last() is Normal {
                before.drop_last()
            } else {
                before
            },
            component => before.push(component),
        }
    }
}

/// The path that a list of components makes: a backslash goes between two components of
/// which neither is the root.
pub open spec fn rendered(list: Seq<Component<Seq<char>>>) -> Seq<char>
    decreases list.len(),
{
    if list.len() == 0 {
        Seq::empty()
    } else {
        let before = rendered(list.drop_last());
        let apart = list.len() > 1 && !(list.last() is RootDir) && !(list[list.len() - 2]
            is RootDir);
        if apart {
            before.push('\\') + component_text(list.last())
        } else {
            before + component_text(list.last())
        }
    }
}

/// Something pushed onto the path goes behind a separator of its own.
pub open spec fn needs_separator(base: Seq<char>) -> bool {
    &&& base.len() > 0
    &&& !separates(Separators::Both, base.last())
    &&& !(prefix_kind(base) == PrefixKind::Disk && base.len() == 2)
}

/// The path `base` with `path` pushed onto it. A path with a prefix takes the place of all of
/// `base`; a rooted one, of what follows the prefix of `base`. After a verbatim prefix the
/// path is put together anew from its components.
pub open spec fn pushed(base: Seq<char>, path: Seq<char>) -> Seq<char> {
    if prefix_kind(path) != PrefixKind::Absent {
        path
    } else if prefix_kind(base) == PrefixKind::Verbatim && path.len() > 0 {
        rendered(pushed_components(components(base), components(path)))
    } else if has_root(path) {
        base.take(prefix_len(base)) + path
    } else if needs_separator(base) {
        base.push('\\') + path
    } else {
        base + path
    }
}

/// Pushes components onto components, as is done after a verbatim prefix.
fn push_components(base: Vec<Component<Vec<char>>>, more: Vec<Component<Vec<char>>>) -> (r: Vec<
    Component<Vec<char>>,
>)
    ensures
        component_views(r@) == pushed_components(component_views(base@), component_views(more@)),
{
    let mut r = base;
    let ghost first = component_views(base@);
    let ghost list = component_views(more@);
    for i in 0..more.len()
        invariant
            list == component_views(more@),
            component_views(r@) == pushed_components(first, list.take(i as int)),
    {
        let ghost before = component_views(r@);
        proof {
            assert(list.take(i + 1).drop_last() == list.take(i as int));
            assert(list.take(i + 1).last() == component_view(more@[i as int]));
        }
        match &more[i] {
            Component::RootDir => {
                r.truncate(1);
                r.push(Component::RootDir);
                proof {
                    if before.len() > 0 {
                        assert(component_views(r@) == seq![before[0], Component::RootDir]);
                    } else {
                        assert(component_views(r@) == seq![
                            Component::<Seq<char>>::RootDir,
                        ]);
                    }
                }
            },
            Component::CurDir => {},
            Component::ParentDir => {
                let named = r.len() > 0 && matches!(&r[r.len() - 1], Component::Normal(_));
                proof {
                    if r@.len() > 0 {
                        assert(before.last() == component_view(r@.last()));
                    }
                }
                if named {
                    r.pop();
                    proof {
                        assert(component_views(r@) == before.drop_last());
                    }
                }
            },
            Component::Prefix(text) => {
                r.push(Component::Prefix(part(text, 0, text.len())));
                proof {
                    assert(text@.subrange(0, text@.len() as int) == text@);
                    assert(component_views(r@) == before.push(Component::Prefix(text@)));
                }
            },
            Component::Normal(text) => {
                r.push(Component::Normal(part(text, 0, text.len())));
                proof {
                    assert(text@.subrange(0, text@.len() as int) == text@);
                    assert(component_views(r@) == before.push(Component::Normal(text@)));
                }
            },
        }
    }
    proof {
        assert(list.take(more@.len() as int) == list);
    }
    r
}

/// The path that a list of components makes.
fn render(list: &Vec<Component<Vec<char>>>) -> (r: Vec<char>)
    ensures
        r@ == rendered(component_views(list@)),
{
    let mut r: Vec<char> = Vec::new();
    let ghost views = component_views(list@);
    for i in 0..list.len()
        invariant
            views == component_views(list@),
            r@ == rendered(views.take(i as int)),
    {
        proof {
            assert(views.take(i + 1).drop_last() == views.take(i as int));
            assert(views.take(i + 1).last() == component_view(list@[i as int]));
            if i > 0 {
                assert(views.take(i + 1)[i - 1] == component_view(list@[i - 1]));
            }
        }
        if i > 0 && !matches!(&list[i], Component::RootDir) && !matches!(
            &list[i - 1],
            Component::RootDir
        ) {
            r.push('\\');
        }
        match &list[i] {
            Component::Prefix(text) => {
                extend(&mut r, text);
            },
            Component::RootDir => {
                r.push('\\');
            },
            Component::CurDir => {
                r.push('.');
            },
            Component::ParentDir => {
                r.push('.');
                r.push('.');
            },
            Component::Normal(text) => {
                extend(&mut r, text);
            },
        }
    }
    proof {
        assert(views.take(list@.len() as int) == views);
    }
    r
}

/// Pushes `path` onto the path `base`.
pub fn push_path(base: Vec<char>, path: &Vec<char>) -> (r: Vec<char>)
    ensures
        r@ == pushed(base@, path@),
{
    let (path_kind, _) = read_prefix(path);
    let (base_kind, base_len) = read_prefix(&base);
    if path_kind != PrefixKind::Absent {
        let r = part(path, 0, path.len());
        proof {
            assert(path@.subrange(0, path@.len() as int) == path@);
        }
        r
    } else if base_kind == PrefixKind::Verbatim && path.len() > 0 {
        let list = push_components(read_components(&base), read_components(path));
        render(&list)
    } else if path_has_root(path) {
        let mut r = part(&base, 0, base_len);
        extend(&mut r, path);
        r
    } else {
        let mut r = base;
        if r.len() > 0 && !is_separator(Separators::Both, r[r.len() - 1]) && !(base_kind
            == PrefixKind::Disk && r.len() == 2) {
            r.push('\\');
        }
        extend(&mut r, path);
        r
    }
}

/// Where the last segment of `s` that stands for a component ends, looking back from `end`
/// and no further than `start`; `start` if there is none.
pub open spec fn body_end(s: Seq<char>, start: int, end: int) -> int
    decreases end - start,
{
    if end <= start {
        start
    } else {
        let from = segment_start(s, start, end);
        if segment_component(
            s.subrange(from, end),
            prefix_kind(s) == PrefixKind::Verbatim,
        ) is Some {
            end
        } else if from <= start || from > end {
            start
        } else {
            body_end(s, start, from - 1)
        }
    }
}

/// Where the segment that ends at `end` begins: behind the last separator, or at `start`.
pub open spec fn segment_start(s: Seq<char>, start: int, end: int) -> int {
    let at = last_separator(s, end, body_separators(s));
    if at < start {
        start
    } else {
        at + 1
    }
}

/// The path without its last component, where that is `.`, `..` or a name. The separators
/// before the component go with it.
pub open spec fn parent(s: Seq<char>) -> Option<Seq<char>> {
    let start = body_start(s);
    let end = body_end(s, start, s.len() as int);
    if end > start {
        Some(s.take(body_end(s, start, segment_start(s, start, end) - 1)))
    } else if leading_dot(s) {
        Some(Seq::empty())
    } else {
        None
    }
}

/// The name at the end of a path, if its last component is one.
pub open spec fn file_name(s: Seq<char>) -> Option<Seq<char>> {
    let list = components(s);
    if list.len() > 0 {
        match list.last() {
            Component::Normal(name) => Some(name),
            _ => None,
        }
    } else {
        None
    }
}

proof fn last_separator_bounds(s: Seq<char>, end: int, set: Separators)
    requires
        end <= s.len(),
    ensures
        -1 <= last_separator(s, end, set),
        end > 0 ==> last_separator(s, end, set) < end,
    decreases end,
{
    if end > 0 {
        last_separator_bounds(s, end - 1, set);
    }
}

/// Where the segment that ends at `end` begins.
fn find_segment_start(s: &Vec<char>, start: usize, end: usize, set: Separators) -> (r: usize)
    requires
        start < end <= s@.len(),
        set == body_separators(s@),
    ensures
        r == segment_start(s@, start as int, end as int),
        start <= r <= end,
{
    proof {
        last_separator_bounds(s@, end as int, set);
    }
    let mut i: usize = end;
    while i > start
        invariant
            start <= i <= end <= s@.len(),
            last_separator(s@, end as int, set) == last_separator(s@, i as int, set),
            set == body_separators(s@),
        decreases i,
    {
        if is_separator(set, s[i - 1]) {
            return i;
        }
        i -= 1;
    }
    proof {
        last_separator_bounds(s@, start as int, set);
    }
    i
}

/// Where the last segment that stands for a component ends.
fn find_body_end(s: &Vec<char>, start: usize, end: usize, verbatim: bool) -> (r: usize)
    requires
        end <= s@.len(),
        start <= s@.len(),
        verbatim == (prefix_kind(s@) == PrefixKind::Verbatim),
    ensures
        r == body_end(s@, start as int, end as int),
        start <= r <= s@.len(),
{
    let set = if verbatim {
        Separators::Backslash
    } else {
        Separators::Both
    };
    let mut to: usize = end;
    while to > start
        invariant
            to <= s@.len(),
            start <= s@.len(),
            body_end(s@, start as int, end as int) == body_end(s@, start as int, to as int),
            set == body_separators(s@),
            verbatim == (prefix_kind(s@) == PrefixKind::Verbatim),
        decreases to,
    {
        let from = find_segment_start(s, start, to, set);
        let segment = part(s, from, to);
        if segment.len() > 0 && (verbatim || !is_dot(&segment)) {
            return to;
        }
        if from == start {
            return start;
        }
        to = from - 1;
    }
    start
}

/// The path without its last component.
pub fn path_parent(path: &str) -> (r: Option<String>)
    ensures
        match r {
            Some(text) => parent(path@) == Some(text@),
            None => parent(path@) is None,
        },
{
    let s = chars_of(path);
    proof {
        prefix_fits(s@);
    }
    let (kind, len) = read_prefix(&s);
    let verbatim = kind == PrefixKind::Verbatim;
    let dotted = kind == PrefixKind::Absent && s.len() > 0 && s[0] == '.' && (s.len() == 1
        || is_separator_at(&s, 1));
    let start = if is_separator_at(&s, len) || dotted {
        assert(len < s.len());
        len + 1
    } else {
        len
    };
    let end = find_body_end(&s, start, s.len(), verbatim);
    if end > start {
        let set = if verbatim {
            Separators::Backslash
        } else {
            Separators::Both
        };
        let from = find_segment_start(&s, start, end, set);
        let to = if from == 0 {
            0
        } else {
            from - 1
        };
        let r = part(&s, 0, find_body_end(&s, start, to, verbatim));
        proof {
            assert(s@.subrange(0, r@.len() as int) == s@.take(r@.len() as int));
        }
        Some(text_of(&r))
    } else if dotted {
        Some(String::new())
    } else {
        None
    }
}

/// The name at the end of a path.
pub fn path_file_name(path: &str) -> (r: Option<String>)
    ensures
        match r {
            Some(text) => file_name(path@) == Some(text@),
            None => file_name(path@) is None,
        },
{
    let list = read_components(&chars_of(path));
    proof {
        if list@.len() > 0 {
            assert(components(path@).last() == component_view(list@.last()));
        }
    }
    if list.len() == 0 {
        return None;
    }
    match &list[list.len() - 1] {
        Component::Normal(name) => Some(text_of(name)),
        _ => None,
    }
}

/// How many components a path has.
pub fn component_count(path: &str) -> (r: usize)
    ensures
        r == components(path@).len(),
{
    let list = read_components(&chars_of(path));
    proof {
        assert(component_views(list@).len() == list@.len());
    }
    list.len()
}

/// The texts of the components of a path, in order. Two texts name the same path where these
/// lists are equal.
pub fn component_texts(path: &str) -> (r: Vec<String>)
    ensures
        r@.len() == components(path@).len(),
        forall|i: int|
            0 <= i < r@.len() ==> (#[trigger] r@[i])@ == component_text(components(path@)[i]),
{
    let list = read_components(&chars_of(path));
    let mut r: Vec<String> = Vec::new();
    for i in 0..list.len()
        invariant
            component_views(list@) == components(path@),
            r@.len() == i,
            forall|j: int|
                0 <= j < i ==> (#[trigger] r@[j])@ == component_text(components(path@)[j]),
    {
        proof {
            assert(components(path@)[i as int] == component_view(list@[i as int]));
        }
        let mut text: Vec<char> = Vec::new();
        match &list[i] {
            Component::Prefix(chars) => extend(&mut text, chars),
            Component::RootDir => text.push('\\'),
            Component::CurDir => text.push('.'),
            Component::ParentDir => {
                text.push('.');
                text.push('.');
            },
            Component::Normal(chars) => extend(&mut text, chars),
        }
        proof {
            assert(text@ == component_text(components(path@)[i as int]));
        }
        r.push(text_of(&text));
    }
    r
}

} // verus!
