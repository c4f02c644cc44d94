//! The path names that clients send, and the Windows paths they stand for.
//!
//! A client sees one tree. Below its root `/` there is one directory for each drive, named
//! after the drive's letter: `/C/Windows` stands for `C:\Windows`.

use vstd::prelude::*;

use crate::full_path::{answered, answers, full_form, full_path, settled};
use crate::text::{chars_of, extend, joined, part, segments, text_of, Separators};
use crate::text::{join, split, text_view, texts};
use crate::windows_path::{component_view, component_views, components, has_root, pushed};
use crate::windows_path::{path_has_root, push_path, read_components, Component};

verus! {

/// What is left of a list of components where `..` takes away the part before it, and `.` and
/// the root count for nothing. A `..` with no part before it counts for nothing either.
pub open spec fn canonical_parts(list: Seq<Component<Seq<char>>>) -> Seq<Seq<char>>
    decreases list.len(),
{
    if list.len() == 0 {
        Seq::empty()
    } else {
        let before = canonical_parts(list.drop_last());
        match list.last() {
            Component::RootDir => before,
            Component::CurDir => before,
            Component::ParentDir => if before.len() > 0 {
                before.drop_last()
            } else {
                before
            },
            Component::Prefix(text) => before.push(text),
            Component::Normal(text) => before.push(text),
        }
    }
}

/// The canonical form of a path name: a slash, and the parts with slashes between them.
pub open spec fn canonical_name(path: Seq<char>) -> Seq<char> {
    seq!['/'] + join(canonical_parts(components(path)), '/')
}

/// Brings a path name into its canonical form.
pub fn canonizalize_unix_path_name(path: &str) -> (r: String)
    ensures
        r@ == canonical_name(path@),
{
    let list = read_components(&chars_of(path));
    let ghost views = component_views(list@);
    let mut parts: Vec<Vec<char>> = Vec::new();
    for i in 0..list.len()
        invariant
            views == component_views(list@),
            texts(parts@) == canonical_parts(views.take(i as int)),
    {
        let ghost before = texts(parts@);
        proof {
            assert(views.take(i + 1).drop_last() == views.take(i as int));
            assert(views.take(i + 1).last() == component_view(list@[i as int]));
        }
        match &list[i] {
            Component::RootDir => {},
            Component::CurDir => {},
            Component::ParentDir => {
                if parts.len() > 0 {
                    parts.pop();
                    proof {
                        assert(texts(parts@) == before.drop_last());
                    }
                }
            },
            Component::Prefix(text) => {
                parts.push(part(text, 0, text.len()));
                proof {
                    assert(text@.subrange(0, text@.len() as int) == text@);
                    assert(texts(parts@) == before.push(text@));
                }
            },
            Component::Normal(text) => {
                parts.push(part(text, 0, text.len()));
                proof {
                    assert(text@.subrange(0, text@.len() as int) == text@);
                    assert(texts(parts@) == before.push(text@));
                }
            },
        }
    }
    proof {
        assert(views.take(list@.len() as int) == views);
    }
    let mut r: Vec<char> = Vec::new();
    r.push('/');
    extend(&mut r, &joined(&parts, '/'));
    text_of(&r)
}

/// The path name of the root of the tree.
pub open spec fn root_name() -> Seq<char> {
    seq!['/']
}

/// The first `n` segments of a path name as a Windows path. The segment before the first
/// slash is left out, the next one names the drive, and each one after that is pushed onto
/// the root of the drive.
pub open spec fn below_drive(list: Seq<Seq<char>>, n: int) -> Seq<char>
    decreases n,
{
    if n <= 2 {
        list[1].push(':').push('\\')
    } else {
        pushed(below_drive(list, n - 1), list[n - 1])
    }
}

/// The Windows path that a path name stands for, before it is made full: none where the name
/// has no root, and the root of the tree where it names no drive.
pub open spec fn windows_path(path: Seq<char>) -> Option<Seq<char>> {
    let list = split(path, Separators::Slash);
    if !has_root(path) {
        None
    } else if path == root_name() || list.len() < 2 {
        Some(root_name())
    } else {
        Some(below_drive(list, list.len() as int))
    }
}

/// The path name stands for the root of the tree, which is on no drive.
pub open spec fn names_tree_root(path: Seq<char>) -> bool {
    path == root_name() || split(path, Separators::Slash).len() < 2
}

/// `r` is what a path name comes to: nothing where it has no root, the root of the tree where
/// it names no drive, else the full form of the Windows path it stands for. Of a path that is
/// not settled the full form is what the operating system answers for it.
pub open spec fn translates(path: Seq<char>, r: Option<Seq<char>>) -> bool {
    match windows_path(path) {
        None => r is None,
        Some(target) => {
            &&& r is Some
            &&& names_tree_root(path) ==> r == Some(root_name())
            &&& !names_tree_root(path) && settled(target) ==> r == Some(full_form(target))
            &&& !names_tree_root(path) && !settled(target) ==> exists|answer: Option<Seq<char>>|
                #[trigger] answers(target, answer) && r == Some(answered(target, answer))
        },
    }
}

/// The Windows path that a path name stands for, before it is made full.
pub fn below_drive_path(list: &Vec<Vec<char>>) -> (r: Vec<char>)
    requires
        list@.len() >= 2,
    ensures
        r@ == below_drive(texts(list@), list@.len() as int),
{
    let mut r = part(&list[1], 0, list[1].len());
    proof {
        assert(r@ == texts(list@)[1]);
    }
    r.push(':');
    r.push('\\');
    for i in 2..list.len()
        invariant
            list@.len() >= 2,
            r@ == below_drive(texts(list@), i as int),
    {
        r = push_path(r, &list[i]);
    }
    r
}

/// The Windows path that a path name stands for. Only full path names stand for one.
pub fn unix_like_path_to_windows_path(unix_path: &str) -> (r: Option<String>)
    ensures
        translates(unix_path@, text_view(r)),
{
    let path = chars_of(unix_path);
    if !path_has_root(&path) {
        return None;
    }
    let list = segments(&path, Separators::Slash);
    proof {
        assert(texts(list@).len() == list@.len());
    }
    if (path.len() == 1 && path[0] == '/') || list.len() < 2 {
        proof {
            if list@.len() >= 2 {
                assert(path@ == root_name());
            }
        }
        let mut root = String::new();
        root.push('/');
        proof {
            assert(root@ == root_name());
        }
        return Some(root);
    }
    Some(full_path(text_of(&below_drive_path(&list))))
}

} // verus!
