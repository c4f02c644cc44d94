//! What holds of a session as a whole, whatever the client asks and the host reports.

use vstd::prelude::*;

use crate::full_path::resolved_names;
use crate::handles::OurHandle;
use crate::path_laws::{
    drive_roots_have_two_components, ordinary_name, ordinary_names_stand_for_paths,
    plain_canonical_names_stay,
};
use crate::protocol::{dummy_attributes, FileAttributes, OpenFlags, StatusCode, CREATE};
use crate::session::{
    check_leads, drive_names, drive_told, drives_lead, fails, fsetstat_starts, leads_to,
    link_leads, list_leads, mkdir_starts, names_one, not_a_file, open_leads, open_starts,
    opendir_starts, read_leads, readdir_starts, readlink_starts, remove_starts, rename_starts,
    rmdir_starts, run_leads, setstat_starts, size_leads, stat_leads, stat_starts, symlink_starts,
    Handles, FIRST_DRIVE,
};
use crate::steps::{
    CheckTask, LinkEnd, ListedEntry, OpenPurpose, OpenTask, ReadTask, Reply, RunTask, SizeTask,
    StatTask, Step,
};
use crate::text::{join, split, text_view, Separators};
use crate::unix_path::{canonical_name, root_name};
use crate::windows_path::{components, has_root, prefix_kind, PrefixKind};

verus! {

/// What the host reports of a task.
pub enum Outcome<F> {
    Checked(bool),
    Ran(bool),
    Statted(Option<FileAttributes>),
    Sized(Option<u64>),
    Opened(Option<F>),
    Read(Option<usize>),
    Listed(Option<Vec<Option<ListedEntry>>>),
    Drives(u32),
    Link(Option<LinkEnd>),
}

/// The request goes on from `step` to `next` when the host reports `outcome`.
pub open spec fn goes_on<F>(
    before: Handles<F>,
    step: Step<F>,
    outcome: Outcome<F>,
    after: Handles<F>,
    next: Step<F>,
) -> bool {
    match (step, outcome) {
        (Step::Check(task), Outcome::Checked(yes)) => check_leads(before, task, yes, after, next),
        (Step::Open(task), Outcome::Opened(file)) => open_leads(before, task, file, after, next),
        (Step::Run(task), Outcome::Ran(done)) => run_leads(task, done, next) && after == before,
        (Step::Stat(task), Outcome::Statted(attrs)) => stat_leads(task, attrs, next) && after
            == before,
        (Step::Size(task), Outcome::Sized(size)) => size_leads(task, size, next) && after
            == before,
        (Step::Read(task), Outcome::Read(read)) => read_leads(task, read, next) && after
            == before,
        (Step::List(task), Outcome::Listed(listing)) => list_leads(task, listing, next) && after
            == before,
        (Step::Drives(task), Outcome::Drives(drives)) => drives_lead(task, drives, next) && after
            == before,
        (Step::Link(task), Outcome::Link(end)) => link_leads(task, end, next) && after == before,
        _ => false,
    }
}

/// How many tasks a request can still hand out, that of `step` included.
pub open spec fn tasks_left<F>(step: Step<F>) -> nat {
    match step {
        Step::Done(_) => 0,
        Step::Check(task) => match task {
            CheckTask::OpendirIsDir { .. } => 1,
            CheckTask::ReaddirExists { .. } => 2,
            CheckTask::OpenIsFile { .. } => 3,
            CheckTask::OpenIsDir { .. } => 2,
            CheckTask::SetstatIsFile { .. } => 4,
            CheckTask::RemoveIsFile { .. } => 2,
            CheckTask::MkdirParentIsDir { .. } => 2,
            CheckTask::RmdirExists { .. } => 3,
            CheckTask::RmdirIsDir { .. } => 2,
            CheckTask::RenameSourceExists { .. } => 3,
            CheckTask::RenameDestExists { .. } => 2,
            CheckTask::ReadlinkExists { .. } => 3,
            CheckTask::ReadlinkIsSymlink { .. } => 2,
            CheckTask::SymlinkTargetExists { .. } => 2,
        },
        Step::Run(task) => match task {
            RunTask::ReadSeek { .. } => 2,
            RunTask::WriteSeek { .. } => 2,
            _ => 1,
        },
        Step::Size(task) => match task {
            SizeTask::ReadEnd { .. } => 3,
            SizeTask::FileSize { .. } => 2,
        },
        Step::Open(task) => match task.purpose {
            OpenPurpose::Handle { .. } => 1,
            OpenPurpose::Setstat { .. } => 3,
        },
        _ => 1,
    }
}

/// Every request ends: with each outcome that the host reports there is at least one task
/// less to come, and no request ever hands out more than four.
pub proof fn requests_end<F>(
    before: Handles<F>,
    step: Step<F>,
    outcome: Outcome<F>,
    after: Handles<F>,
    next: Step<F>,
)
    requires
        goes_on(before, step, outcome, after, next),
    ensures
        tasks_left(next) < tasks_left(step) <= 4,
{
}

/// The request that a step belongs to. A bare code names none.
pub open spec fn request_of<F>(step: Step<F>) -> Option<u32> {
    match step {
        Step::Done(Ok(reply)) => match reply {
            Reply::Status(status) => Some(status.id),
            Reply::Handle(handle) => Some(handle.id),
            Reply::Name(name) => Some(name.id),
            Reply::Attrs(attrs) => Some(attrs.id),
            Reply::Data(data) => Some(data.id),
        },
        Step::Done(Err(_)) => None,
        Step::Check(task) => match task {
            CheckTask::OpendirIsDir { id, .. } => Some(id),
            CheckTask::ReaddirExists { id, .. } => Some(id),
            CheckTask::OpenIsFile { id, .. } => Some(id),
            CheckTask::OpenIsDir { id, .. } => Some(id),
            CheckTask::SetstatIsFile { id, .. } => Some(id),
            CheckTask::RemoveIsFile { id, .. } => Some(id),
            CheckTask::MkdirParentIsDir { id, .. } => Some(id),
            CheckTask::RmdirExists { id, .. } => Some(id),
            CheckTask::RmdirIsDir { id, .. } => Some(id),
            CheckTask::RenameSourceExists { id, .. } => Some(id),
            CheckTask::RenameDestExists { id, .. } => Some(id),
            CheckTask::ReadlinkExists { id, .. } => Some(id),
            CheckTask::ReadlinkIsSymlink { id, .. } => Some(id),
            CheckTask::SymlinkTargetExists { id, .. } => Some(id),
        },
        Step::Run(task) => match task {
            RunTask::RemoveFile { id, .. } => Some(id),
            RunTask::CreateDir { id, .. } => Some(id),
            RunTask::RemoveDir { id, .. } => Some(id),
            RunTask::Rename { id, .. } => Some(id),
            RunTask::HardLink { id, .. } => Some(id),
            RunTask::ReadSeek { id, .. } => Some(id),
            RunTask::WriteSeek { id, .. } => Some(id),
            RunTask::WriteData { id, .. } => Some(id),
            RunTask::SetLen { id, .. } => Some(id),
        },
        Step::Stat(task) => match task {
            StatTask::Path { id, .. } => Some(id),
            StatTask::Handle { id, .. } => Some(id),
        },
        Step::Size(task) => match task {
            SizeTask::ReadEnd { id, .. } => Some(id),
            SizeTask::FileSize { id, .. } => Some(id),
        },
        Step::Open(task) => match task.purpose {
            OpenPurpose::Handle { id, .. } => Some(id),
            OpenPurpose::Setstat { id, .. } => Some(id),
        },
        Step::Read(task) => Some(task.id),
        Step::List(task) => Some(task.id),
        Step::Drives(task) => Some(task.id),
        Step::Link(task) => Some(task.id),
    }
}

/// Replies go to the request they answer: its number stays the same from step to step.
pub proof fn requests_keep_their_number<F>(
    before: Handles<F>,
    step: Step<F>,
    outcome: Outcome<F>,
    after: Handles<F>,
    next: Step<F>,
)
    requires
        goes_on(before, step, outcome, after, next),
    ensures
        request_of(next) == request_of(step) || next matches Step::Done(Err(_)),
{
}

/// The kinds of reply.
pub enum ReplyKind {
    Status,
    Handle,
    Name,
    Attrs,
    Data,
}

/// The kind of the reply that a request comes to, if it comes to one.
pub open spec fn reply_kind<F>(step: Step<F>) -> Option<ReplyKind> {
    match step {
        Step::Done(Ok(reply)) => match reply {
            Reply::Status(_) => Some(ReplyKind::Status),
            Reply::Handle(_) => Some(ReplyKind::Handle),
            Reply::Name(_) => Some(ReplyKind::Name),
            Reply::Attrs(_) => Some(ReplyKind::Attrs),
            Reply::Data(_) => Some(ReplyKind::Data),
        },
        Step::Done(Err(_)) => None,
        Step::Check(task) => match task {
            CheckTask::OpendirIsDir { .. } => Some(ReplyKind::Handle),
            CheckTask::ReaddirExists { .. } => Some(ReplyKind::Name),
            CheckTask::OpenIsFile { .. } => Some(ReplyKind::Handle),
            CheckTask::OpenIsDir { .. } => Some(ReplyKind::Handle),
            CheckTask::ReadlinkExists { .. } => Some(ReplyKind::Name),
            CheckTask::ReadlinkIsSymlink { .. } => Some(ReplyKind::Name),
            _ => Some(ReplyKind::Status),
        },
        Step::Run(task) => match task {
            RunTask::ReadSeek { .. } => Some(ReplyKind::Data),
            _ => Some(ReplyKind::Status),
        },
        Step::Stat(_) => Some(ReplyKind::Attrs),
        Step::Size(task) => match task {
            SizeTask::ReadEnd { .. } => Some(ReplyKind::Data),
            SizeTask::FileSize { .. } => Some(ReplyKind::Status),
        },
        Step::Open(task) => match task.purpose {
            OpenPurpose::Handle { .. } => Some(ReplyKind::Handle),
            OpenPurpose::Setstat { .. } => Some(ReplyKind::Status),
        },
        Step::Read(_) => Some(ReplyKind::Data),
        Step::List(_) => Some(ReplyKind::Name),
        Step::Drives(_) => Some(ReplyKind::Name),
        Step::Link(_) => Some(ReplyKind::Name),
    }
}

/// A request that does not end with a bare code ends with the kind of reply that its first
/// step has: the kind stays the same from step to step.
pub proof fn requests_keep_their_kind<F>(
    before: Handles<F>,
    step: Step<F>,
    outcome: Outcome<F>,
    after: Handles<F>,
    next: Step<F>,
)
    requires
        goes_on(before, step, outcome, after, next),
    ensures
        reply_kind(next) == reply_kind(step) || next matches Step::Done(Err(_)),
{
}

/// Nothing on disk is changed unasked. A file is removed, a directory made or removed, a name
/// changed, a link made only after the host has told that this is in order; a drive is never
/// removed, and no name is given that is in use.
pub proof fn changes_are_checked<F>(
    before: Handles<F>,
    step: Step<F>,
    outcome: Outcome<F>,
    after: Handles<F>,
    task: RunTask<F>,
)
    requires
        goes_on(before, step, outcome, after, Step::Run(task)),
    ensures
        match task {
            RunTask::RemoveFile { id, target } => {
                &&& step == Step::<F>::Check(CheckTask::RemoveIsFile { id, target })
                &&& outcome == Outcome::<F>::Checked(true)
            },
            RunTask::CreateDir { id, target } => {
                &&& step matches Step::Check(
                    CheckTask::MkdirParentIsDir { id: i, target: t, parent: _ },
                )
                &&& i == id
                &&& t == target
                &&& outcome == Outcome::<F>::Checked(true)
            },
            RunTask::RemoveDir { id, target } => {
                &&& step == Step::<F>::Check(CheckTask::RmdirIsDir { id, target })
                &&& outcome == Outcome::<F>::Checked(true)
                &&& components(target@).len() > 2
            },
            RunTask::Rename { id, source, dest } => {
                &&& step == Step::<F>::Check(CheckTask::RenameDestExists { id, source, dest })
                &&& outcome == Outcome::<F>::Checked(false)
            },
            RunTask::HardLink { id, original, link } => {
                &&& step == Step::<F>::Check(
                    CheckTask::SymlinkTargetExists { id, target: link, link: Some(original) },
                )
                &&& outcome == Outcome::<F>::Checked(true)
            },
            RunTask::ReadSeek { id, handle, offset, len } => {
                &&& step == Step::Size(SizeTask::<F>::ReadEnd { id, handle, offset, len })
                &&& outcome matches Outcome::Sized(Some(size)) && offset < size
            },
            RunTask::WriteSeek { .. } => false,
            RunTask::WriteData { id, handle, data } => {
                &&& step matches Step::Run(
                    RunTask::WriteSeek { id: i, handle: h, offset: _, data: d },
                )
                &&& i == id
                &&& h == handle
                &&& d == data
                &&& outcome == Outcome::<F>::Ran(true)
            },
            RunTask::SetLen { id, file, size } => {
                &&& step matches Step::Size(SizeTask::FileSize { id: i, file: f, attrs })
                &&& i == id
                &&& f == file
                &&& attrs.size == Some(size)
                &&& outcome matches Outcome::Sized(Some(actual)) && size <= actual
            },
        },
{
}

/// A rename comes about only where the source was told to be there and the new name comes to
/// a path; a symbolic link is read only where the path was told to be there.
pub proof fn questions_follow_in_order<F>(
    before: Handles<F>,
    step: Step<F>,
    outcome: Outcome<F>,
    after: Handles<F>,
    task: CheckTask,
)
    requires
        goes_on(before, step, outcome, after, Step::Check(task)),
    ensures
        match task {
            CheckTask::OpenIsDir { id, filename, target, flags } => {
                &&& step == Step::<F>::Check(
                    CheckTask::OpenIsFile { id, filename, target, flags },
                )
                &&& outcome == Outcome::<F>::Checked(true) || flags.has(CREATE)
            },
            CheckTask::RmdirIsDir { id, target } => {
                &&& step == Step::<F>::Check(CheckTask::RmdirExists { id, target })
                &&& outcome == Outcome::<F>::Checked(true)
            },
            CheckTask::RenameDestExists { id, source, dest } => {
                &&& step == Step::<F>::Check(
                    CheckTask::RenameSourceExists { id, source, translated: Some(dest) },
                )
                &&& outcome == Outcome::<F>::Checked(true)
            },
            CheckTask::ReadlinkIsSymlink { id, target } => {
                &&& step == Step::<F>::Check(CheckTask::ReadlinkExists { id, target })
                &&& outcome == Outcome::<F>::Checked(true)
            },
            _ => false,
        },
{
}

/// Only full path names are accepted: a name without a root is refused at once, before the
/// host is asked anything.
pub proof fn names_without_root_are_refused<F>(
    id: u32,
    path: String,
    flags: OpenFlags,
    attrs: FileAttributes,
    other: String,
    step: Step<F>,
)
    requires
        !has_root(path@),
        opendir_starts(id, path, step) || open_starts(id, path, flags, step) || stat_starts(
            id,
            path,
            step,
        ) || setstat_starts(id, path, attrs, step) || remove_starts(id, path, step)
            || mkdir_starts(id, path, step) || rmdir_starts(id, path, step) || rename_starts(
            id,
            path,
            other,
            step,
        ) || readlink_starts(id, path, step),
    ensures
        fails(step, StatusCode::NoSuchFile),
{
    if path@ == root_name() {
        assert(path@[0] == '/');
    }
}

/// A link to a name without a root is refused at once too, with a code of its own.
pub proof fn links_without_root_are_refused<F>(
    id: u32,
    linkpath: String,
    targetpath: String,
    step: Step<F>,
)
    requires
        !has_root(targetpath@),
        symlink_starts(id, linkpath, targetpath, step),
    ensures
        fails(step, StatusCode::Failure),
{
}

/// A link from a name without a root, and a new name without a root, are refused as soon as
/// the other name has been looked up.
pub proof fn second_names_without_root_are_refused<F>(
    before: Handles<F>,
    id: u32,
    path: String,
    other: String,
    step: Step<F>,
    yes: bool,
    after: Handles<F>,
    next: Step<F>,
)
    requires
        !has_root(other@),
        rename_starts(id, path, other, step) || symlink_starts(id, other, path, step),
        goes_on(before, step, Outcome::Checked(yes), after, next),
    ensures
        next matches Step::Done(Err(_)),
{
}

/// An opened directory can be read, once: the first time it is not at its end, and every time
/// after that it is, until it is opened again.
pub proof fn directories_are_read_once<F>(
    before: Handles<F>,
    id: u32,
    path: String,
    target: String,
    opened: Handles<F>,
    reply: Step<F>,
    handle: String,
    first: Step<F>,
    read: Handles<F>,
    second: Step<F>,
    after: Handles<F>,
)
    requires
        check_leads(
            before,
            CheckTask::OpendirIsDir { id, path, target },
            true,
            opened,
            reply,
        ),
        handle@ == path@,
        readdir_starts(opened, id, handle, read, first),
        readdir_starts(read, id, handle, after, second),
    ensures
        !fails(first, StatusCode::Eof),
        fails(second, StatusCode::Eof),
        after == read,
{
}

/// What is closed is not open: whatever asks for the handle afterwards is refused.
pub proof fn closed_handles_are_unknown<F>(
    before: Handles<F>,
    id: u32,
    handle: String,
    attrs: FileAttributes,
    listed: Handles<F>,
    listing: Step<F>,
    setting: Step<F>,
)
    requires
        readdir_starts(before.remove(handle@), id, handle, listed, listing),
        fsetstat_starts(before.remove(handle@), id, handle, attrs, setting),
    ensures
        not_a_file(before.remove(handle@), handle@) == Some(StatusCode::BadMessage),
        fails(listing, StatusCode::NoSuchFile),
        fails(setting, StatusCode::NoSuchFile),
{
}

/// An opened file stands behind the handle that the client is given, and can be read and
/// written through it; it is not a directory. All other handles stay what they were.
pub proof fn opened_files_are_found<F>(
    before: Handles<F>,
    id: u32,
    filename: String,
    task: OpenTask,
    file: F,
    after: Handles<F>,
    reply: Step<F>,
    listed: Handles<F>,
    listing: Step<F>,
)
    requires
        task.purpose == (OpenPurpose::Handle { id, filename }),
        open_leads(before, task, Some(file), after, reply),
        readdir_starts(after, id, filename, listed, listing),
    ensures
        reply matches Step::Done(Ok(Reply::Handle(handle))) && handle.handle == filename
            && handle.id == id,
        not_a_file(after, filename@) is None,
        after[filename@].handle == OurHandle::File(file),
        fails(listing, StatusCode::NoSuchFile),
        forall|other: Seq<char>|
            other != filename@ ==> (#[trigger] after.contains_key(other) == before.contains_key(
                other,
            )) && (before.contains_key(other) ==> after[other] == before[other]),
{
}

/// An opened directory stands behind the handle that the client is given; it is not a file.
/// All other handles stay what they were.
pub proof fn opened_directories_are_found<F>(
    before: Handles<F>,
    id: u32,
    path: String,
    target: String,
    after: Handles<F>,
    reply: Step<F>,
)
    requires
        check_leads(before, CheckTask::OpendirIsDir { id, path, target }, true, after, reply),
    ensures
        reply matches Step::Done(Ok(Reply::Handle(handle))) && handle.handle == path
            && handle.id == id,
        not_a_file(after, path@) == Some(StatusCode::NoSuchFile),
        after[path@].handle == OurHandle::<F>::Dir(false),
        forall|other: Seq<char>|
            other != path@ ==> (#[trigger] after.contains_key(other) == before.contains_key(other))
                && (before.contains_key(other) ==> after[other] == before[other]),
{
}

/// What is open stays as it is while a request goes on, except where a directory or a file is
/// opened for the client.
pub proof fn only_opening_changes_handles<F>(
    before: Handles<F>,
    step: Step<F>,
    outcome: Outcome<F>,
    after: Handles<F>,
    next: Step<F>,
)
    requires
        goes_on(before, step, outcome, after, next),
        after != before,
    ensures
        next matches Step::Done(Ok(Reply::Handle(handle))) && after.contains_key(handle.handle@),
        step matches Step::Check(CheckTask::OpendirIsDir { .. }) || step matches Step::Open(_),
{
}

/// Reading a directory changes what is known of that directory, and of nothing else.
pub proof fn reading_marks_one_directory<F>(
    before: Handles<F>,
    id: u32,
    handle: String,
    after: Handles<F>,
    step: Step<F>,
    other: Seq<char>,
)
    requires
        readdir_starts(before, id, handle, after, step),
    ensures
        after.contains_key(other) == before.contains_key(other),
        before.contains_key(other) ==> after[other].path == before[other].path,
        before.contains_key(other) && other != handle@ ==> after[other] == before[other],
{
}

/// A client that asks for the canonical form of the name it was answered is answered that name
/// again, with the same dummy attributes. This holds where the name it asked for first has no
/// prefix, or that of a drive.
pub proof fn canonical_answers_stay<F>(
    path: String,
    id: u32,
    step: Step<F>,
    answered: String,
    next_id: u32,
    next: Step<F>,
)
    requires
        prefix_kind(path@) == PrefixKind::Absent || prefix_kind(path@) == PrefixKind::Disk,
        names_one(step, id, canonical_name(path@), dummy_attributes()),
        step matches Step::Done(Ok(Reply::Name(name))) && answered@ == name.files@[0].filename@,
        names_one(next, next_id, canonical_name(answered@), dummy_attributes()),
    ensures
        names_one(next, next_id, answered@, dummy_attributes()),
{
    plain_canonical_names_stay(path@);
}

/// No more is sent than was asked for.
pub proof fn no_more_is_sent_than_asked<F>(
    id: u32,
    handle: String,
    offset: u64,
    len: u32,
    step: Step<F>,
    filled: ReadTask,
    read: Option<usize>,
    next: Step<F>,
)
    requires
        run_leads(RunTask::<F>::ReadSeek { id, handle, offset, len }, true, step),
        step matches Step::Read(task) && filled.id == task.id && filled.buffer@.len()
            == task.buffer@.len(),
        read_leads(filled, read, next),
    ensures
        match read {
            Some(read) => next matches Step::Done(Ok(Reply::Data(reply))) && reply.id == id
                && reply.data@.len() <= len && reply.data@.len() <= read
                && reply.data@ == filled.buffer@.take(reply.data@.len() as int),
            None => fails(next, StatusCode::Failure),
        },
{
    assert(filled.buffer@.take(filled.buffer@.len() as int) == filled.buffer@);
}

/// The name of the drive that is the `i`th after `A`.
pub open spec fn drive_name(i: int) -> Seq<char> {
    seq![(FIRST_DRIVE + i) as u8 as char]
}

/// The root of the tree lists a name exactly where the host told of that drive.
pub proof fn drives_are_listed(drives: u32, n: int, i: int)
    requires
        0 <= i < n <= 27,
    ensures
        drive_names(drives, n).contains(drive_name(i)) <==> drive_told(drives, i),
{
    if drive_told(drives, i) {
        drive_is_in(drives, n, i);
    } else if drive_names(drives, n).contains(drive_name(i)) {
        let k = choose|k: int|
            0 <= k < drive_names(drives, n).len() && drive_names(drives, n)[k] == drive_name(i);
        let j = drive_is_told(drives, n, k);
        assert(drive_name(i)[0] == drive_name(j)[0]);
        assert((FIRST_DRIVE + i) as u8 as char == (FIRST_DRIVE + j) as u8 as char);
    }
}

proof fn drive_is_in(drives: u32, n: int, i: int)
    requires
        0 <= i < n,
        drive_told(drives, i),
    ensures
        drive_names(drives, n).contains(drive_name(i)),
    decreases n,
{
    let names = drive_names(drives, n);
    if i == n - 1 {
        assert(names.last() == drive_name(i));
        assert(names[names.len() - 1] == drive_name(i));
    } else {
        drive_is_in(drives, n - 1, i);
        let before = drive_names(drives, n - 1);
        let k = choose|k: int| 0 <= k < before.len() && before[k] == drive_name(i);
        assert(names[k] == drive_name(i));
    }
}

proof fn drive_is_told(drives: u32, n: int, k: int) -> (j: int)
    requires
        0 <= k < drive_names(drives, n).len(),
    ensures
        0 <= j < n,
        drive_told(drives, j),
        drive_name(j) == drive_names(drives, n)[k],
    decreases n,
{
    let before = drive_names(drives, n - 1);
    if k < before.len() {
        drive_is_told(drives, n - 1, k)
    } else {
        n - 1
    }
}

/// Every name is listed once.
pub proof fn drives_are_listed_once(drives: u32, n: int)
    requires
        n <= 27,
    ensures
        drive_names(drives, n).no_duplicates(),
    decreases n,
{
    if n > 0 {
        drives_are_listed_once(drives, n - 1);
        let before = drive_names(drives, n - 1);
        let names = drive_names(drives, n);
        assert forall|i: int, j: int|
            0 <= i < names.len() && 0 <= j < names.len() && i != j implies names[i]
            != names[j] by {
            let a = drive_is_told(drives, n, i);
            let b = drive_is_told(drives, n, j);
            if i < before.len() && j < before.len() {
                assert(names[i] == before[i] && names[j] == before[j]);
            } else if i < before.len() {
                let c = drive_is_told(drives, n - 1, i);
                assert(drive_name(c)[0] != drive_name(n - 1)[0]);
            } else {
                let c = drive_is_told(drives, n - 1, j);
                assert(drive_name(c)[0] != drive_name(n - 1)[0]);
            }
        }
    }
}

/// A drive is never removed: a request to remove one, by whatever ordinary name, ends without
/// anything having been asked to be removed.
pub proof fn drives_are_not_removed<F>(
    id: u32,
    path: String,
    letter: char,
    first: Step<F>,
    before: Handles<F>,
    exists_there: bool,
    second: Step<F>,
    between: Handles<F>,
    is_dir: bool,
    third: Step<F>,
    after: Handles<F>,
)
    requires
        ordinary_name(path@, letter),
        resolved_names(split(path@, Separators::Slash).skip(2)).len() == 0,
        rmdir_starts(id, path, first),
        goes_on(before, first, Outcome::Checked(exists_there), between, second),
        exists_there ==> goes_on(between, second, Outcome::Checked(is_dir), after, third),
    ensures
        if !exists_there {
            fails(second, StatusCode::NoSuchFile)
        } else if !is_dir {
            fails(third, StatusCode::NoSuchFile)
        } else {
            fails(third, StatusCode::PermissionDenied)
        },
{
    let target = choose|target: Option<String>| #[trigger]
        leads_to(path, target) && match target {
            Some(target) => first == Step::<F>::Check(CheckTask::RmdirExists { id, target }),
            None => fails(first, StatusCode::NoSuchFile),
        };
    ordinary_names_stand_for_paths(path@, letter, text_view(target));
    let names = resolved_names(split(path@, Separators::Slash).skip(2));
    assert(join(names, '\\') == Seq::<char>::empty());
    assert(seq![letter, ':', '\\'] + join(names, '\\') == seq![letter, ':', '\\']);
    drive_roots_have_two_components(letter);
}

} // verus!
