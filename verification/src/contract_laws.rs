//! What the functions of the library return, whatever they are given: the laws on names, paths
//! and requests speak of these functions.

use std::collections::HashMap;

use vstd::prelude::*;

use crate::full_path::{answers, full_form, full_path, settle, settled};
use crate::handles::{HandleTable, InternalHandle, OurHandle};
use crate::protocol::{File, FileAttributes, FileEx, OpenFlags, Status, StatusCode, Version};
use crate::request_laws::{made_up, modes_follow_flags, same_attributes, same_but_for, shows};
use crate::session::{
    check_leads, drives_lead, fsetstat_starts, fstat_starts, link_leads, list_leads, mkdir_starts,
    open_leads, open_starts, opendir_starts, read_leads, read_starts, readdir_starts,
    readlink_starts, remove_starts, rename_starts, rmdir_starts, run_leads, set_file_attributes,
    setstat_starts, size_leads, stat_leads, stat_starts, symlink_starts, write_starts, SftpSession,
};
use crate::steps::{
    CheckTask, DrivesTask, LinkEnd, LinkTask, ListTask, ListedEntry, OpenMode, OpenTask, Question,
    ReadTask, Reply, RunTask, SizeTask, StatTask, Step,
};
use crate::text::{chars_of, text_of, text_view};
use crate::unix_path::{
    canonical_name, canonizalize_unix_path_name, translates, unix_like_path_to_windows_path,
};
use crate::windows_path::{
    component_count, component_texts, components, file_name, has_root, parent, path_file_name,
    path_has_root, path_parent, push_path, pushed, Component,
};

verus! {

/// The Windows path and the canonical form that a client's name is answered with are those that
/// the laws on names speak of.
pub proof fn names_are_answered_as_stated(path: &str, r: Option<String>, canonical: String)
    ensures
        call_ensures(unix_like_path_to_windows_path, (path,), r) ==> translates(
            path@,
            text_view(r),
        ),
        call_ensures(canonizalize_unix_path_name, (path,), canonical) ==> canonical@
            == canonical_name(path@),
{
}

/// Every request that names a path begins as the laws on requests say.
pub proof fn requests_begin_as_stated<F>(
    s: &SftpSession<F>,
    id: u32,
    path: String,
    other: String,
    flags: OpenFlags,
    attrs: FileAttributes,
    step: Step<F>,
)
    ensures
        call_ensures(SftpSession::<F>::opendir, (s, id, path), step) ==> opendir_starts(
            id,
            path,
            step,
        ),
        call_ensures(SftpSession::<F>::open, (s, id, path, flags, attrs), step) ==> open_starts(
            id,
            path,
            flags,
            step,
        ),
        call_ensures(SftpSession::<F>::stat, (s, id, path), step) ==> stat_starts(id, path, step),
        call_ensures(SftpSession::<F>::lstat, (s, id, path), step) ==> stat_starts(id, path, step),
        call_ensures(SftpSession::<F>::setstat, (s, id, path, attrs), step) ==> setstat_starts(
            id,
            path,
            attrs,
            step,
        ),
        call_ensures(SftpSession::<F>::remove, (s, id, path), step) ==> remove_starts(
            id,
            path,
            step,
        ),
        call_ensures(SftpSession::<F>::mkdir, (s, id, path, attrs), step) ==> mkdir_starts(
            id,
            path,
            step,
        ),
        call_ensures(SftpSession::<F>::rmdir, (s, id, path), step) ==> rmdir_starts(
            id,
            path,
            step,
        ),
        call_ensures(SftpSession::<F>::rename, (s, id, path, other), step) ==> rename_starts(
            id,
            path,
            other,
            step,
        ),
        call_ensures(SftpSession::<F>::readlink, (s, id, path), step) ==> readlink_starts(
            id,
            path,
            step,
        ),
        call_ensures(SftpSession::<F>::symlink, (s, id, path, other), step) ==> symlink_starts(
            id,
            path,
            other,
            step,
        ),
        call_ensures(SftpSession::<F>::realpath, (s, id, path), step) ==> (step matches Step::Done(
            Ok(Reply::Name(reply)),
        ) && reply.id == id && reply.files@.len() == 1 && shows(
            reply.files@[0],
            canonical_name(path@),
            None,
        )),
{
}

/// Every request that names a handle begins as the laws on requests say.
pub proof fn requests_on_handles_begin_as_stated<F>(
    s: &SftpSession<F>,
    id: u32,
    handle: String,
    offset: u64,
    len: u32,
    data: Vec<u8>,
    attrs: FileAttributes,
    step: Step<F>,
)
    ensures
        call_ensures(SftpSession::<F>::read, (s, id, handle, offset, len), step) ==> read_starts(
            s.open_handles(),
            id,
            handle,
            offset,
            len,
            step,
        ),
        call_ensures(SftpSession::<F>::write, (s, id, handle, offset, data), step)
            ==> write_starts(s.open_handles(), id, handle, offset, data, step),
        call_ensures(SftpSession::<F>::fstat, (s, id, handle), step) ==> fstat_starts(
            s.open_handles(),
            id,
            handle,
            step,
        ),
        call_ensures(SftpSession::<F>::fsetstat, (s, id, handle, attrs), step)
            ==> fsetstat_starts(s.open_handles(), id, handle, attrs, step),
        forall|t: &mut SftpSession<F>| #[trigger]
            call_ensures(SftpSession::<F>::readdir, (t, id, handle), step) ==> readdir_starts(
                t.open_handles(),
                id,
                handle,
                final(t).open_handles(),
                step,
            ) && final(t).wf() && final(t).client_version() == t.client_version(),
{
}

/// Every outcome that the host reports leads where the laws on requests say.
pub proof fn outcomes_lead_as_stated<F>(
    s: &SftpSession<F>,
    running: RunTask<F>,
    yes: bool,
    statting: StatTask,
    attrs: Option<FileAttributes>,
    sizing: SizeTask<F>,
    size: Option<u64>,
    reading: ReadTask,
    read: Option<usize>,
    linking: LinkTask,
    end: Option<LinkEnd>,
    listing: ListTask,
    entries: Option<Vec<Option<ListedEntry>>>,
    telling: DrivesTask,
    drives: u32,
    step: Step<F>,
)
    ensures
        call_ensures(SftpSession::<F>::ran, (s, running, yes), step) ==> run_leads(
            running,
            yes,
            step,
        ),
        call_ensures(SftpSession::<F>::statted, (s, statting, attrs), step) ==> stat_leads(
            statting,
            attrs,
            step,
        ),
        call_ensures(SftpSession::<F>::sized, (s, sizing, size), step) ==> size_leads(
            sizing,
            size,
            step,
        ),
        call_ensures(SftpSession::<F>::read_done, (s, reading, read), step) ==> read_leads(
            reading,
            read,
            step,
        ),
        call_ensures(SftpSession::<F>::link_read, (s, linking, end), step) ==> link_leads(
            linking,
            end,
            step,
        ),
        call_ensures(SftpSession::<F>::listed, (s, listing, entries), step) ==> list_leads(
            listing,
            entries,
            step,
        ),
        call_ensures(SftpSession::<F>::drives_told, (s, telling, drives), step) ==> drives_lead(
            telling,
            drives,
            step,
        ),
{
}

/// The outcomes that can change what is open lead where the laws on requests say.
pub proof fn openings_lead_as_stated<F>(
    checking: CheckTask,
    yes: bool,
    opening: OpenTask,
    file: Option<F>,
    step: Step<F>,
)
    ensures
        forall|s: &mut SftpSession<F>| #[trigger]
            call_ensures(SftpSession::<F>::checked, (s, checking, yes), step) ==> check_leads(
                s.open_handles(),
                checking,
                yes,
                final(s).open_handles(),
                step,
            ) && final(s).wf() && final(s).client_version() == s.client_version(),
        forall|s: &mut SftpSession<F>| #[trigger]
            call_ensures(SftpSession::<F>::opened, (s, opening, file), step) ==> open_leads(
                s.open_handles(),
                opening,
                file,
                final(s).open_handles(),
                step,
            ) && final(s).wf() && final(s).client_version() == s.client_version(),
{
}

/// A session begins with nothing open and no version. The first version that the client names
/// is kept and answered with version 3 of the protocol and no extensions; every other one is
/// refused. Neither opens or closes anything.
pub proof fn versions_are_named_once<F>(
    version: u32,
    extensions: HashMap<String, String>,
    r: Result<Version, StatusCode>,
    s: SftpSession<F>,
)
    ensures
        call_ensures(SftpSession::<F>::new, (), s) ==> s.wf() && s.client_version() is None
            && forall|handle: Seq<char>| !(#[trigger] s.open_handles().contains_key(handle)),
        forall|t: &mut SftpSession<F>| #[trigger]
            call_ensures(SftpSession::<F>::init, (t, version, extensions), r) ==> {
                &&& final(t).wf()
                &&& final(t).open_handles() == t.open_handles()
                &&& t.client_version() is None ==> final(t).client_version() == Some(version)
                    && r is Ok && r->Ok_0.version == 3 && forall|name: String|
                    !(#[trigger] r->Ok_0.extensions@.contains_key(name))
                &&& t.client_version() is Some ==> final(t).client_version()
                    == t.client_version() && r is Err && r->Err_0 == StatusCode::ConnectionLost
            },
{
}

/// Closing a handle always succeeds. Afterwards it is not open, and all others are as they were.
pub proof fn handles_are_closed<F>(id: u32, handle: String, r: Result<Status, StatusCode>)
    ensures
        forall|t: &mut SftpSession<F>| #[trigger]
            call_ensures(SftpSession::<F>::close, (t, id, handle), r) ==> {
                &&& final(t).wf()
                &&& final(t).client_version() == t.client_version()
                &&& !final(t).open_handles().contains_key(handle@)
                &&& same_but_for(t.open_handles(), final(t).open_handles(), handle@)
                &&& r is Ok
                &&& r->Ok_0.id == id
                &&& r->Ok_0.status_code == StatusCode::Success
                &&& r->Ok_0.error_message@ == "Ok"@
                &&& r->Ok_0.language_tag@ == "en-US"@
            },
{
}

/// The host gets at the file behind a handle if and only if there is an open one. What it does
/// with it changes nothing else.
pub proof fn files_are_found_by_handle<F>(handle: &String)
    ensures
        forall|t: &mut SftpSession<F>, r: Result<&mut F, StatusCode>| #[trigger]
            call_ensures(SftpSession::<F>::file, (t, handle), r) ==> {
                &&& final(t).wf()
                &&& final(t).client_version() == t.client_version()
                &&& same_but_for(t.open_handles(), final(t).open_handles(), handle@)
                &&& match r {
                    Ok(file) => {
                        &&& t.open_handles().contains_key(handle@)
                        &&& t.open_handles()[handle@].handle == OurHandle::File(*file)
                        &&& final(t).open_handles().contains_key(handle@)
                        &&& final(t).open_handles()[handle@].handle == OurHandle::File(*final(file))
                        &&& final(t).open_handles()[handle@].path
                            == t.open_handles()[handle@].path
                    },
                    Err(code) => {
                        &&& final(t).open_handles() == t.open_handles()
                        &&& !t.open_handles().contains_key(handle@) ==> code
                            == StatusCode::BadMessage
                        &&& t.open_handles().contains_key(handle@) ==> code
                            == StatusCode::NoSuchFile && t.open_handles()[handle@].handle is Dir
                    },
                }
            },
{
}

/// What is not known is told to be not supported, and success is told in these words.
pub proof fn short_answers_are_exact<F>(
    s: &SftpSession<F>,
    id: u32,
    request: String,
    data: Vec<u8>,
    extended: Result<Reply, StatusCode>,
    code: StatusCode,
    status: Status,
)
    ensures
        call_ensures(SftpSession::<F>::extended, (s, id, request, data), extended) ==> extended
            == Err::<Reply, StatusCode>(StatusCode::OpUnsupported),
        call_ensures(SftpSession::<F>::unimplemented, (s,), code) ==> code
            == StatusCode::OpUnsupported,
        call_ensures(SftpSession::<F>::success, (s, id), status) ==> status.id == id
            && status.status_code == StatusCode::Success && status.error_message@ == "Ok"@
            && status.language_tag@ == "en-US"@,
{
}

/// What the smaller functions return: the question that a task asks, the way of opening that
/// flags ask for, the size that a file is cut to, the file that a listing shows, and a directory
/// that has not been read.
pub proof fn small_answers_are_exact<F>(
    task: &CheckTask,
    question: (Question, &String),
    flags: OpenFlags,
    mode: OpenMode,
    attrs: &FileAttributes,
    size: u64,
    cut: Option<u64>,
    entry: FileEx,
    file: File,
    path: &String,
    dir: InternalHandle<F>,
)
    ensures
        call_ensures(CheckTask::question, (task,), question) ==> question.0 == task.asks()
            && *question.1 == task.about(),
        call_ensures(OpenMode::of_flags, (flags,), mode) ==> {
            &&& mode.read <==> flags.bits & 0x1u32 != 0
            &&& mode.write <==> flags.bits & 0x2u32 != 0
            &&& mode.append <==> flags.bits & 0x4u32 != 0
            &&& mode.create <==> flags.bits & 0x8u32 != 0
            &&& mode.truncate <==> flags.bits & 0x10u32 != 0
        },
        call_ensures(set_file_attributes, (attrs, size), cut) ==> (cut is Some <==> attrs.size
            is Some && attrs.size->0 <= size) && (cut is Some ==> cut == attrs.size),
        call_ensures(FileEx::into, (entry,), file) ==> shows(
            file,
            entry.filename@,
            Some(entry.attrs),
        ) && same_attributes(file.attrs, entry.attrs),
        call_ensures(InternalHandle::<F>::new_dir, (path,), dir) ==> dir.path@ == path@
            && dir.handle == OurHandle::<F>::Dir(false),
{
    modes_follow_flags(flags);
}

/// What the functions on paths return is what the laws on paths speak of.
pub proof fn paths_are_answered_as_stated(
    path: &str,
    text: String,
    native: Option<String>,
    r: String,
    part: Option<String>,
    count: usize,
    chars: Vec<char>,
    base: Vec<char>,
    whole: Vec<char>,
    rooted: bool,
)
    ensures
        call_ensures(path_parent, (path,), part) ==> text_view(part) == parent(path@),
        call_ensures(path_file_name, (path,), part) ==> text_view(part) == file_name(path@),
        call_ensures(component_count, (path,), count) ==> count == components(path@).len(),
        call_ensures(push_path, (base, &chars), whole) ==> whole@ == pushed(base@, chars@),
        call_ensures(path_has_root, (&chars,), rooted) ==> rooted == has_root(chars@),
        call_ensures(chars_of, (path,), chars) ==> chars@ == path@,
        call_ensures(text_of, (&chars,), text) ==> text@ == chars@,
        call_ensures(full_path, (text,), r) && settled(text@) ==> r@ == full_form(text@),
        call_ensures(full_path, (text,), r) && !settled(text@) ==> exists|answer: Option<Seq<char>>|
            #[trigger] answers(text@, answer) && (answer is Some ==> r@ == answer->0) && (answer
                is None ==> r@ == text@),
        call_ensures(settle, (text, native), r) && settled(text@) ==> r@ == full_form(text@),
        call_ensures(settle, (text, native), r) && !settled(text@) && native is Some ==> r
            == native->0,
        call_ensures(settle, (text, native), r) && !settled(text@) && native is None ==> r == text,
{
}

/// A table of handles gives back under each name what was put there last.
pub proof fn tables_keep_what_they_are_given<F>(name: String, entry: InternalHandle<F>)
    ensures
        forall|t: &mut HandleTable<F>| #[trigger]
            call_ensures(HandleTable::<F>::insert, (t, name, entry), ()) ==> {
                &&& final(t).wf()
                &&& final(t)@.contains_key(name@)
                &&& final(t)@[name@] == entry
                &&& same_but_for(t@, final(t)@, name@)
            },
        forall|t: &mut HandleTable<F>| #[trigger]
            call_ensures(HandleTable::<F>::remove, (t, &name), ()) ==> {
                &&& final(t).wf()
                &&& !final(t)@.contains_key(name@)
                &&& same_but_for(t@, final(t)@, name@)
            },
        forall|t: &HandleTable<F>, r: Option<&InternalHandle<F>>| #[trigger]
            call_ensures(HandleTable::<F>::get, (t, &name), r) ==> (r is Some
                <==> t@.contains_key(name@)) && (r is Some ==> *r->0 == t@[name@]),
{
}

/// What the functions on attributes and flags return or change.
pub proof fn attributes_and_flags_are_exact(
    flags: &OpenFlags,
    flag: u32,
    has: bool,
    attrs: FileAttributes,
    version: Version,
    entry: FileEx,
    line: String,
    file: File,
)
    ensures
        call_ensures(OpenFlags::contains, (flags, flag), has) ==> (has <==> flags.bits & flag
            == flag),
        call_ensures(FileAttributes::default, (), attrs) ==> made_up(attrs),
        call_ensures(Version::new, (), version) ==> version.version == 3 && forall|name: String|
            !(#[trigger] version.extensions@.contains_key(name)),
        call_ensures(FileEx::with_longname, (entry, line), file) ==> file.filename == entry.filename
            && file.longname == line && file.attrs == entry.attrs,
        forall|t: &mut FileAttributes| #[trigger]
            call_ensures(FileAttributes::set_dir, (t,), ()) ==> {
                &&& final(t).permissions == Some(
                    (if t.permissions is Some {
                        t.permissions->0
                    } else {
                        0u32
                    }) | 0x4000u32,
                )
                &&& final(t).size == t.size
                &&& final(t).uid == t.uid
                &&& final(t).user == t.user
                &&& final(t).gid == t.gid
                &&& final(t).group == t.group
                &&& final(t).atime == t.atime
                &&& final(t).mtime == t.mtime
            },
{
}

/// The texts of the components of a path are told one by one.
pub proof fn components_are_told(path: &str, list: Vec<String>, i: int)
    requires
        call_ensures(component_texts, (path,), list),
    ensures
        list@.len() == components(path@).len(),
        0 <= i < list@.len() ==> match components(path@)[i] {
            Component::Prefix(text) => list@[i]@ == text,
            Component::RootDir => list@[i]@ == seq!['\\'],
            Component::CurDir => list@[i]@ == seq!['.'],
            Component::ParentDir => list@[i]@ == seq!['.', '.'],
            Component::Normal(text) => list@[i]@ == text,
        },
{
}

} // verus!
