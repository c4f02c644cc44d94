//! What each request of a client comes to, from its arguments to its reply: what must be done,
//! what is done only then, and what the client is told.

use vstd::prelude::*;

use crate::canonical_laws::{
    as_directory, drive_roots_have_no_parent, is_name, leads_into, names_at_the_end_are_exact,
    parents_and_names_are_exact,
};
use crate::handles::OurHandle;
use crate::protocol::{
    dummy_attributes, listing_line, File, FileAttributes, Handle, OpenFlags, StatusCode,
};
use crate::session::{
    drive_names, drives_lead, fsetstat_starts, fstat_starts, leads_to, link_leads, list_leads,
    mkdir_starts, names_one, open_starts, opendir_starts, read_leads, read_starts, readdir_starts,
    readlink_starts, remove_starts, rename_starts, rmdir_starts, setstat_starts, stat_starts,
    symlink_starts, write_starts, Handles,
};
use crate::session_laws::{goes_on, Outcome};
use crate::steps::{
    CheckTask, DrivesTask, LinkEnd, LinkTask, ListTask, ListedEntry, OpenFile, OpenMode,
    OpenPurpose, OpenTask, Question, ReadTask, Reply, RunTask, SizeTask, StatTask, Step,
};
use crate::text::text_view;
use crate::unix_path::{root_name, translates};
use crate::windows_path::{parent, separator_at};

verus! {

/// The client is told that request `id` succeeded.
pub open spec fn told_success<F>(step: Step<F>, id: u32) -> bool {
    step matches Step::Done(Ok(Reply::Status(status))) && status.id == id && status.status_code
        == StatusCode::Success && status.error_message@ == "Ok"@ && status.language_tag@
        == "en-US"@
}

/// The client is told the code, and nothing else.
pub open spec fn told_code<F>(step: Step<F>, code: StatusCode) -> bool {
    step == Step::<F>::Done(Err(code))
}

/// The client is given the handle `handle`.
pub open spec fn given_handle<F>(step: Step<F>, id: u32, handle: String) -> bool {
    step == Step::<F>::Done(Ok(Reply::Handle(Handle { id, handle })))
}

/// The host is asked this about that path.
pub open spec fn asked<F>(step: Step<F>, question: Question, path: String) -> bool {
    step matches Step::Check(task) && task.asks() == question && task.about() == path
}

/// The attributes are the same, field by field.
pub open spec fn same_attributes(attrs: FileAttributes, other: FileAttributes) -> bool {
    &&& attrs.size == other.size
    &&& attrs.uid == other.uid
    &&& text_view(attrs.user) == text_view(other.user)
    &&& attrs.gid == other.gid
    &&& text_view(attrs.group) == text_view(other.group)
    &&& attrs.permissions == other.permissions
    &&& attrs.atime == other.atime
    &&& attrs.mtime == other.mtime
}

/// The attributes of an empty directory, of which nothing is known.
pub open spec fn made_up(attrs: FileAttributes) -> bool {
    &&& attrs.size == Some(0u64)
    &&& attrs.uid == Some(0u32)
    &&& attrs.user is None
    &&& attrs.gid == Some(0u32)
    &&& attrs.group is None
    &&& attrs.permissions == Some(0x41ffu32)
    &&& attrs.atime == Some(0u32)
    &&& attrs.mtime == Some(0u32)
}

/// `file` shows the name with its attributes, or with made up ones where there are none, and
/// with the line of a long listing for both.
pub open spec fn shows(file: File, name: Seq<char>, attrs: Option<FileAttributes>) -> bool {
    &&& file.filename@ == name
    &&& file.longname@ == listing_line(name, file.attrs@)
    &&& match attrs {
        Some(attrs) => same_attributes(file.attrs, attrs),
        None => made_up(file.attrs),
    }
}

/// `target` is a path that the name stands for.
pub open spec fn stands_for(path: String, target: String) -> bool {
    translates(path@, Some(target@))
}

/// The name stands for that path and for no other.
pub open spec fn stands_for_just(path: String, target: Seq<char>) -> bool {
    forall|r: Option<Seq<char>>| #[trigger] translates(path@, r) ==> r == Some(target)
}

/// Nothing but what is open under `name` is different.
pub open spec fn same_but_for<F>(before: Handles<F>, after: Handles<F>, name: Seq<char>) -> bool {
    forall|other: Seq<char>|
        other != name ==> (#[trigger] after.contains_key(other) == before.contains_key(other))
            && (before.contains_key(other) ==> after[other] == before[other])
}

// Directories.

/// A directory is opened if and only if the host tells that the name stands for one. Its handle
/// is the name, and it has not been read.
pub proof fn directories_are_opened<F>(
    id: u32,
    path: String,
    step: Step<F>,
    before: Handles<F>,
    yes: bool,
    after: Handles<F>,
    next: Step<F>,
)
    requires
        !translates(path@, None),
        opendir_starts(id, path, step),
        step is Check ==> goes_on(before, step, Outcome::Checked(yes), after, next),
    ensures
        exists|target: String| #[trigger]
            stands_for(path, target) && asked(step, Question::IsDir, target),
        if yes {
            &&& given_handle(next, id, path)
            &&& after.contains_key(path@)
            &&& after[path@].path@ == path@
            &&& after[path@].handle == OurHandle::<F>::Dir(false)
            &&& same_but_for(before, after, path@)
        } else {
            told_code(next, StatusCode::NoSuchFile) && after == before
        },
{
    let target = choose|target: Option<String>| #[trigger]
        leads_to(path, target) && match target {
            Some(target) => step == Step::<F>::Check(
                CheckTask::OpendirIsDir { id, path, target },
            ),
            None => told_code(step, StatusCode::NoSuchFile),
        };
    assert(stands_for(path, target->0));
}

/// A handle that is no open directory cannot be listed. One that has been listed is at its end.
/// Any other is listed now, and counts as listed from now on.
pub proof fn open_directories_are_listed<F>(
    before: Handles<F>,
    id: u32,
    handle: String,
    after: Handles<F>,
    step: Step<F>,
)
    requires
        readdir_starts(before, id, handle, after, step),
    ensures
        told_code(step, StatusCode::Eof) <==> before.contains_key(handle@)
            && before[handle@].handle == OurHandle::<F>::Dir(true),
        !before.contains_key(handle@) || before[handle@].handle is File ==> told_code(
            step,
            StatusCode::NoSuchFile,
        ),
        before.contains_key(handle@) && before[handle@].handle == OurHandle::<F>::Dir(false)
            ==> {
            &&& after.contains_key(handle@)
            &&& after[handle@].handle == OurHandle::<F>::Dir(true)
            &&& after[handle@].path == before[handle@].path
            &&& handle@ == seq!['/'] ==> step == Step::<F>::Drives(DrivesTask { id })
            &&& handle@ != seq!['/'] && translates(handle@, None) ==> told_code(
                step,
                StatusCode::NoSuchFile,
            )
            &&& handle@ != seq!['/'] && !translates(handle@, None) ==> exists|target: String|
                #[trigger] stands_for(handle, target) && asked(step, Question::Exists, target)
                    && step == Step::<F>::Check(CheckTask::ReaddirExists { id, target })
        },
        same_but_for(before, after, handle@),
        !(before.contains_key(handle@) && before[handle@].handle == OurHandle::<F>::Dir(false))
            ==> after == before,
{
    if before.contains_key(handle@) && before[handle@].handle == OurHandle::<F>::Dir(false) {
        assert(seq!['/'] == root_name());
        if handle@ != seq!['/'] {
            let target = choose|target: Option<String>| #[trigger]
                leads_to(handle, target) && match target {
                    Some(target) => step == Step::<F>::Check(
                        CheckTask::ReaddirExists { id, target },
                    ),
                    None => told_code(step, StatusCode::NoSuchFile),
                };
            if translates(handle@, None) {
                assert(target is None);
            } else {
                assert(stands_for(handle, target->0));
            }
        }
    }
}

/// A directory that is there is listed, one that is not is not.
pub proof fn directories_that_exist_are_listed<F>(
    before: Handles<F>,
    id: u32,
    target: String,
    yes: bool,
    after: Handles<F>,
    next: Step<F>,
)
    requires
        goes_on(
            before,
            Step::Check(CheckTask::ReaddirExists { id, target }),
            Outcome::Checked(yes),
            after,
            next,
        ),
    ensures
        after == before,
        yes ==> next == Step::<F>::List(ListTask { id, target }),
        !yes ==> told_code(next, StatusCode::NoSuchFile),
{
}

/// The reply to a listing holds every entry that the host listed, each in its place, with its
/// name and its attributes. Where the host could not list the directory, or not read one of the
/// entries, there is no listing.
pub proof fn listings_are_complete<F>(
    task: ListTask,
    listing: Option<Vec<Option<ListedEntry>>>,
    step: Step<F>,
)
    requires
        list_leads(task, listing, step),
    ensures
        told_code(step, StatusCode::PermissionDenied) <==> (listing is None || exists|i: int|
            0 <= i < listing->0@.len() && #[trigger] listing->0@[i] is None),
        listing is Some && (forall|i: int|
            0 <= i < listing->0@.len() ==> #[trigger] listing->0@[i] is Some) ==> {
            &&& step matches Step::Done(Ok(Reply::Name(name)))
            &&& name.id == task.id
            &&& name.files@.len() == listing->0@.len()
            &&& forall|i: int|
                0 <= i < listing->0@.len() ==> shows(
                    #[trigger] name.files@[i],
                    listing->0@[i]->0.name@,
                    listing->0@[i]->0.attrs,
                )
        },
{
}

/// The letter that is the `i`th after `A`.
pub open spec fn letter(i: int) -> char {
    (65 + i) as u8 as char
}

/// The bit of the `i`th drive after `A` is set.
pub open spec fn has_drive(drives: u32, i: int) -> bool {
    (drives >> (i as u32)) & 1u32 == 1u32
}

/// The places hold just the bits that are set, of the first `n`, from the lowest to the highest.
pub open spec fn drive_places(drives: u32, n: int, places: Seq<int>) -> bool {
    &&& forall|k: int|
        0 <= k < places.len() ==> 0 <= #[trigger] places[k] < n && has_drive(drives, places[k])
    &&& forall|j: int, k: int|
        0 <= j < k < places.len() ==> #[trigger] places[j] < #[trigger] places[k]
    &&& forall|i: int| 0 <= i < n && #[trigger] has_drive(drives, i) ==> places.contains(i)
}

/// The root of the tree lists a directory for every drive that the host told, and no other,
/// each by its letter, from the lowest bit to the highest.
pub proof fn drives_are_directories<F>(task: DrivesTask, drives: u32, step: Step<F>)
    requires
        drives_lead(task, drives, step),
    ensures
        step matches Step::Done(Ok(Reply::Name(name))) && name.id == task.id && exists|
            places: Seq<int>,
        |
            #[trigger] drive_places(drives, 27, places) && places.len() == name.files@.len()
                && forall|k: int|
                0 <= k < places.len() ==> shows(
                    #[trigger] name.files@[k],
                    seq![letter(places[k])],
                    None,
                ),
{
    let places = places_of_names(drives, 27);
    assert(0x41ffu32 | 0x4000u32 == 0x41ffu32) by (bit_vector);
    match step {
        Step::Done(Ok(Reply::Name(name))) => {
            assert forall|k: int| 0 <= k < places.len() implies shows(
                #[trigger] name.files@[k],
                seq![letter(places[k])],
                None,
            ) by {
                assert(drive_names(drives, 27)[k] == seq![letter(places[k])]);
            }
        },
        _ => {},
    }
}

proof fn places_of_names(drives: u32, n: int) -> (places: Seq<int>)
    requires
        0 <= n <= 27,
    ensures
        drive_places(drives, n, places),
        places.len() == drive_names(drives, n).len(),
        forall|k: int|
            0 <= k < places.len() ==> #[trigger] drive_names(drives, n)[k] == seq![
                letter(places[k]),
            ],
    decreases n,
{
    if n == 0 {
        Seq::empty()
    } else {
        let before = places_of_names(drives, n - 1);
        let last = (n - 1) as u8;
        assert((drives & (1u32 << last) != 0) <==> ((drives >> (last as u32)) & 1u32 == 1u32))
            by (bit_vector)
            requires
                last < 27,
        ;
        let places = if has_drive(drives, n - 1) {
            before.push(n - 1)
        } else {
            before
        };
        assert forall|i: int| 0 <= i < n && #[trigger] has_drive(drives, i) implies places.contains(
            i,
        ) by {
            if i < n - 1 {
                assert(before.contains(i));
                let k = choose|k: int| 0 <= k < before.len() && before[k] == i;
                assert(places[k] == i);
            } else {
                assert(places[before.len() as int] == i);
            }
        }
        places
    }
}

// Files.

/// Where a file is opened for the client, the host was told that there is one, or the client
/// asked for a new one, and that there is no directory in its place. Each way of opening it is
/// taken exactly where its own bit is set: read 0x1, write 0x2, append 0x4, create 0x8,
/// truncate 0x10.
pub proof fn files_are_opened_as_asked<F>(
    id: u32,
    filename: String,
    flags: OpenFlags,
    first: Step<F>,
    before: Handles<F>,
    is_file: bool,
    second: Step<F>,
    between: Handles<F>,
    is_dir: bool,
    third: Step<F>,
    after: Handles<F>,
)
    requires
        !translates(filename@, None),
        open_starts(id, filename, flags, first),
        first is Check ==> goes_on(before, first, Outcome::Checked(is_file), between, second),
        second is Check ==> goes_on(between, second, Outcome::Checked(is_dir), after, third),
    ensures
        between == before,
        exists|target: String| #[trigger]
            stands_for(filename, target) && asked(first, Question::IsFile, target) && if !is_file
                && flags.bits & 0x8u32 == 0 {
                told_code(second, StatusCode::NoSuchFile)
            } else {
                &&& asked(second, Question::IsDir, target)
                &&& after == before
                &&& if is_dir {
                    told_code(third, StatusCode::Failure)
                } else {
                    &&& third matches Step::Open(task)
                    &&& task.target == target
                    &&& task.purpose == (OpenPurpose::Handle { id, filename })
                    &&& task.mode.read <==> flags.bits & 0x1u32 != 0
                    &&& task.mode.write <==> flags.bits & 0x2u32 != 0
                    &&& task.mode.append <==> flags.bits & 0x4u32 != 0
                    &&& task.mode.create <==> flags.bits & 0x8u32 != 0
                    &&& task.mode.truncate <==> flags.bits & 0x10u32 != 0
                }
            },
{
    let target = choose|target: Option<String>| #[trigger]
        leads_to(filename, target) && match target {
            Some(target) => first == Step::<F>::Check(
                CheckTask::OpenIsFile { id, filename, target, flags },
            ),
            None => told_code(first, StatusCode::NoSuchFile),
        };
    assert(stands_for(filename, target->0));
    flag_bits(flags.bits);
}

proof fn flag_bits(bits: u32)
    ensures
        bits & 0x1u32 == 0x1u32 <==> bits & 0x1u32 != 0,
        bits & 0x2u32 == 0x2u32 <==> bits & 0x2u32 != 0,
        bits & 0x4u32 == 0x4u32 <==> bits & 0x4u32 != 0,
        bits & 0x8u32 == 0x8u32 <==> bits & 0x8u32 != 0,
        bits & 0x10u32 == 0x10u32 <==> bits & 0x10u32 != 0,
{
    assert(bits & 0x1u32 == 0x1u32 <==> bits & 0x1u32 != 0) by (bit_vector);
    assert(bits & 0x2u32 == 0x2u32 <==> bits & 0x2u32 != 0) by (bit_vector);
    assert(bits & 0x4u32 == 0x4u32 <==> bits & 0x4u32 != 0) by (bit_vector);
    assert(bits & 0x8u32 == 0x8u32 <==> bits & 0x8u32 != 0) by (bit_vector);
    assert(bits & 0x10u32 == 0x10u32 <==> bits & 0x10u32 != 0) by (bit_vector);
}

/// A way of opening follows from the flags bit by bit.
pub proof fn modes_follow_flags(flags: OpenFlags)
    ensures
        OpenMode::asked_by(flags).read <==> flags.bits & 0x1u32 != 0,
        OpenMode::asked_by(flags).write <==> flags.bits & 0x2u32 != 0,
        OpenMode::asked_by(flags).append <==> flags.bits & 0x4u32 != 0,
        OpenMode::asked_by(flags).create <==> flags.bits & 0x8u32 != 0,
        OpenMode::asked_by(flags).truncate <==> flags.bits & 0x10u32 != 0,
{
    flag_bits(flags.bits);
}

/// A file that the host opened for the client stands behind the handle that the client is
/// given, which is the name it asked for. If it could not be opened, nothing changes.
pub proof fn opened_files_get_handles<F>(
    before: Handles<F>,
    task: OpenTask,
    id: u32,
    filename: String,
    file: Option<F>,
    after: Handles<F>,
    next: Step<F>,
)
    requires
        task.purpose == (OpenPurpose::Handle { id, filename }),
        goes_on(before, Step::Open(task), Outcome::Opened(file), after, next),
    ensures
        match file {
            Some(file) => {
                &&& given_handle(next, id, filename)
                &&& after.contains_key(filename@)
                &&& after[filename@].path == task.target
                &&& after[filename@].handle == OurHandle::File(file)
                &&& same_but_for(before, after, filename@)
            },
            None => told_code(next, StatusCode::PermissionDenied) && after == before,
        },
{
}

/// What is asked of a handle is done if and only if an open file stands behind it.
pub proof fn only_open_files_are_used<F>(
    handles: Handles<F>,
    id: u32,
    handle: String,
    offset: u64,
    len: u32,
    data: Vec<u8>,
    reading: Step<F>,
    writing: Step<F>,
    asking: Step<F>,
)
    requires
        read_starts(handles, id, handle, offset, len, reading),
        write_starts(handles, id, handle, offset, data, writing),
        fstat_starts(handles, id, handle, asking),
    ensures
        handles.contains_key(handle@) && handles[handle@].handle is File ==> {
            &&& reading == Step::Size(SizeTask::<F>::ReadEnd { id, handle, offset, len })
            &&& writing == Step::Run(RunTask::<F>::WriteSeek { id, handle, offset, data })
            &&& asking == Step::<F>::Stat(StatTask::Handle { id, handle })
        },
        handles.contains_key(handle@) && handles[handle@].handle is Dir ==> {
            &&& told_code(reading, StatusCode::NoSuchFile)
            &&& told_code(writing, StatusCode::NoSuchFile)
            &&& told_code(asking, StatusCode::NoSuchFile)
        },
        !handles.contains_key(handle@) ==> {
            &&& told_code(reading, StatusCode::BadMessage)
            &&& told_code(writing, StatusCode::BadMessage)
            &&& told_code(asking, StatusCode::BadMessage)
        },
{
}

/// The client is told that a file is at its end if and only if it asked for something at or
/// past the end that the host told, whatever length it asked for. If it asked for something
/// before the end, that is where the host is sent next, to read that length.
pub proof fn files_are_read_up_to_their_end<F>(
    before: Handles<F>,
    id: u32,
    handle: String,
    offset: u64,
    len: u32,
    end: Option<u64>,
    after: Handles<F>,
    next: Step<F>,
)
    requires
        goes_on(
            before,
            Step::Size(SizeTask::ReadEnd { id, handle, offset, len }),
            Outcome::Sized(end),
            after,
            next,
        ),
    ensures
        after == before,
        told_code(next, StatusCode::Eof) <==> end is Some && end->0 <= offset,
        told_code(next, StatusCode::Failure) <==> end is None,
        next == Step::Run(RunTask::<F>::ReadSeek { id, handle, offset, len }) <==> end is Some
            && offset < end->0,
{
}

/// A host that has gone to the place reads into a buffer of the length that was asked for.
pub proof fn reads_have_the_length_asked_for<F>(
    before: Handles<F>,
    id: u32,
    handle: String,
    offset: u64,
    len: u32,
    done: bool,
    after: Handles<F>,
    next: Step<F>,
)
    requires
        goes_on(
            before,
            Step::Run(RunTask::ReadSeek { id, handle, offset, len }),
            Outcome::Ran(done),
            after,
            next,
        ),
    ensures
        after == before,
        done ==> (next matches Step::Read(task) && task.id == id && task.handle == handle
            && task.buffer@.len() == len),
        !done ==> told_code(next, StatusCode::Failure),
{
}

/// The bytes that were read are the bytes that are sent: as many, and each in its place.
pub proof fn what_is_read_is_sent<F>(task: ReadTask, read: Option<usize>, step: Step<F>)
    requires
        read_leads(task, read, step),
    ensures
        told_code(step, StatusCode::Failure) <==> read is None,
        read is Some && read->0 <= task.buffer@.len() ==> {
            &&& step matches Step::Done(Ok(Reply::Data(reply)))
            &&& reply.id == task.id
            &&& reply.data@.len() == read->0
            &&& forall|i: int|
                0 <= i < reply.data@.len() ==> #[trigger] reply.data@[i] == task.buffer@[i]
        },
{
}

/// A write succeeds if and only if the host has gone to the place and then written the data,
/// all of them and nothing else, to the file behind that handle. Going there is not enough, at
/// whatever place.
pub proof fn writes_succeed_once_written<F>(
    before: Handles<F>,
    id: u32,
    handle: String,
    offset: u64,
    data: Vec<u8>,
    gone: bool,
    between: Handles<F>,
    second: Step<F>,
    written: bool,
    after: Handles<F>,
    third: Step<F>,
)
    requires
        goes_on(
            before,
            Step::Run(RunTask::WriteSeek { id, handle, offset, data }),
            Outcome::Ran(gone),
            between,
            second,
        ),
        second is Run ==> goes_on(between, second, Outcome::Ran(written), after, third),
    ensures
        between == before,
        !gone ==> told_code(second, StatusCode::Failure),
        gone ==> {
            &&& second == Step::Run(RunTask::<F>::WriteData { id, handle, data })
            &&& after == before
            &&& told_success(third, id) <==> written
            &&& told_code(third, StatusCode::Failure) <==> !written
        },
{
}

// Attributes.

/// The attributes of a name are those that the host reads of the path that it stands for, and
/// the root of the tree has made up ones.
pub proof fn attributes_are_those_of_the_path<F>(
    id: u32,
    path: String,
    step: Step<F>,
    before: Handles<F>,
    attrs: Option<FileAttributes>,
    after: Handles<F>,
    next: Step<F>,
)
    requires
        !translates(path@, None),
        stat_starts(id, path, step),
        step is Stat ==> goes_on(before, step, Outcome::Statted(attrs), after, next),
    ensures
        path@ == seq!['/'] ==> (step matches Step::Done(Ok(Reply::Attrs(reply))) && reply.id == id
            && made_up(reply.attrs)),
        path@ != seq!['/'] ==> {
            &&& exists|target: String| #[trigger]
                stands_for(path, target) && step == Step::<F>::Stat(StatTask::Path { id, target })
            &&& after == before
            &&& match attrs {
                Some(attrs) => next matches Step::Done(Ok(Reply::Attrs(reply))) && reply.id == id
                    && same_attributes(reply.attrs, attrs),
                None => told_code(next, StatusCode::NoSuchFile),
            }
        },
{
    assert(seq!['/'] == root_name());
    if path@ != seq!['/'] {
        let target = choose|target: Option<String>| #[trigger]
            leads_to(path, target) && match target {
                Some(target) => step == Step::<F>::Stat(StatTask::Path { id, target }),
                None => told_code(step, StatusCode::NoSuchFile),
            };
        assert(stands_for(path, target->0));
    }
}

/// The attributes of an open file are those that the host reads of it.
pub proof fn attributes_are_those_of_the_file<F>(
    before: Handles<F>,
    id: u32,
    handle: String,
    attrs: Option<FileAttributes>,
    after: Handles<F>,
    next: Step<F>,
)
    requires
        goes_on(
            before,
            Step::Stat(StatTask::Handle { id, handle }),
            Outcome::Statted(attrs),
            after,
            next,
        ),
    ensures
        after == before,
        match attrs {
            Some(attrs) => next matches Step::Done(Ok(Reply::Attrs(reply))) && reply.id == id
                && same_attributes(reply.attrs, attrs),
            None => told_code(next, StatusCode::NoSuchFile),
        },
{
}

/// A file is opened to be given attributes, for writing and in no other way; what is no file
/// takes none, and that counts as a success.
pub proof fn files_are_opened_for_attributes<F>(
    id: u32,
    path: String,
    attrs: FileAttributes,
    first: Step<F>,
    before: Handles<F>,
    is_file: bool,
    between: Handles<F>,
    second: Step<F>,
    file: Option<F>,
    after: Handles<F>,
    third: Step<F>,
)
    requires
        !translates(path@, None),
        setstat_starts(id, path, attrs, first),
        first is Check ==> goes_on(before, first, Outcome::Checked(is_file), between, second),
        second is Open ==> goes_on(between, second, Outcome::Opened(file), after, third),
    ensures
        between == before,
        exists|target: String| #[trigger]
            stands_for(path, target) && asked(first, Question::IsFile, target) && if is_file {
                &&& second matches Step::Open(task)
                &&& task.target == target
                &&& !task.mode.read && task.mode.write && !task.mode.append && !task.mode.create
                    && !task.mode.truncate
                &&& after == before
                &&& match file {
                    Some(file) => third == Step::Size(
                        SizeTask::FileSize { id, file: OpenFile::Temporary(file), attrs },
                    ),
                    None => told_code(third, StatusCode::NoSuchFile),
                }
            } else {
                told_success(second, id)
            },
{
    let target = choose|target: Option<String>| #[trigger]
        leads_to(path, target) && match target {
            Some(target) => first == Step::<F>::Check(
                CheckTask::SetstatIsFile { id, target, attrs },
            ),
            None => told_code(first, StatusCode::NoSuchFile),
        };
    assert(stands_for(path, target->0));
}

/// An open file can be given attributes; an open directory takes none, and that counts as a
/// success; a handle that is not open is refused.
pub proof fn handles_are_given_attributes<F>(
    handles: Handles<F>,
    id: u32,
    handle: String,
    attrs: FileAttributes,
    step: Step<F>,
)
    requires
        fsetstat_starts(handles, id, handle, attrs, step),
    ensures
        told_code(step, StatusCode::NoSuchFile) <==> !handles.contains_key(handle@),
        told_success(step, id) <==> handles.contains_key(handle@) && handles[handle@].handle is Dir,
        step == Step::Size(
            SizeTask::<F>::FileSize { id, file: OpenFile::Handle(handle), attrs },
        ) <==> handles.contains_key(handle@) && handles[handle@].handle is File,
{
}

/// A file is cut to the size that it is to have if and only if it is not shorter than that. The
/// client is told of a success once that is done, or if there is nothing to do.
pub proof fn files_are_cut_if_long_enough<F>(
    before: Handles<F>,
    id: u32,
    file: OpenFile<F>,
    attrs: FileAttributes,
    size: Option<u64>,
    between: Handles<F>,
    second: Step<F>,
    done: bool,
    after: Handles<F>,
    third: Step<F>,
)
    requires
        goes_on(
            before,
            Step::Size(SizeTask::FileSize { id, file, attrs }),
            Outcome::Sized(size),
            between,
            second,
        ),
        second is Run ==> goes_on(between, second, Outcome::Ran(done), after, third),
    ensures
        between == before,
        told_code(second, StatusCode::Failure) <==> size is None,
        told_success(second, id) <==> size is Some && (attrs.size is None || attrs.size->0
            > size->0),
        size is Some && attrs.size is Some && attrs.size->0 <= size->0 ==> {
            &&& second == Step::Run(RunTask::SetLen { id, file, size: attrs.size->0 })
            &&& told_success(third, id) <==> done
            &&& told_code(third, StatusCode::Failure) <==> !done
        },
{
}

// Changes on disk.

/// A file is removed if and only if the host tells that the name stands for one. The client is
/// told the bare code of a success once it is removed.
pub proof fn files_are_removed<F>(
    id: u32,
    path: String,
    first: Step<F>,
    before: Handles<F>,
    is_file: bool,
    between: Handles<F>,
    second: Step<F>,
    done: bool,
    after: Handles<F>,
    third: Step<F>,
)
    requires
        !translates(path@, None),
        remove_starts(id, path, first),
        first is Check ==> goes_on(before, first, Outcome::Checked(is_file), between, second),
        second is Run ==> goes_on(between, second, Outcome::Ran(done), after, third),
    ensures
        between == before,
        exists|target: String| #[trigger]
            stands_for(path, target) && asked(first, Question::IsFile, target) && if is_file {
                &&& second == Step::Run(RunTask::<F>::RemoveFile { id, target })
                &&& told_code(third, StatusCode::Success) <==> done
                &&& told_code(third, StatusCode::Failure) <==> !done
                &&& after == before
            } else {
                told_code(second, StatusCode::PermissionDenied)
            },
{
    let target = choose|target: Option<String>| #[trigger]
        leads_to(path, target) && match target {
            Some(target) => first == Step::<F>::Check(CheckTask::RemoveIsFile { id, target }),
            None => told_code(first, StatusCode::NoSuchFile),
        };
    assert(stands_for(path, target->0));
}

/// A directory is made if and only if the host tells that what it is to stand in is one: of
/// `C:\a\b` that is `C:\a`, and of `C:\a` it is `C:\`.
pub proof fn directories_are_made<F>(
    id: u32,
    path: String,
    target: Seq<char>,
    base: Seq<char>,
    name: Seq<char>,
    first: Step<F>,
    before: Handles<F>,
    yes: bool,
    between: Handles<F>,
    second: Step<F>,
    done: bool,
    after: Handles<F>,
    third: Step<F>,
)
    requires
        leads_into(target, base, name),
        stands_for_just(path, target),
        mkdir_starts(id, path, first),
        first is Check ==> goes_on(before, first, Outcome::Checked(yes), between, second),
        second is Run ==> goes_on(between, second, Outcome::Ran(done), after, third),
    ensures
        between == before,
        exists|made: String, above: String|
            #![trigger stands_for(path, made), asked(first, Question::IsDir, above)]
            stands_for(path, made) && made@ == target && above@ == as_directory(base) && asked(
                first,
                Question::IsDir,
                above,
            ) && if yes {
                &&& second == Step::Run(RunTask::<F>::CreateDir { id, target: made })
                &&& told_success(third, id) <==> done
                &&& told_code(third, StatusCode::Failure) <==> !done
                &&& after == before
            } else {
                told_code(second, StatusCode::PermissionDenied)
            },
{
    let made = choose|target: Option<String>| #[trigger]
        leads_to(path, target) && match target {
            Some(target) => match parent(target@) {
                Some(above) => first matches Step::Check(
                    CheckTask::MkdirParentIsDir { id: i, target: t, parent: p },
                ) && i == id && t == target && p@ == above,
                None => told_code(first, StatusCode::PermissionDenied),
            },
            None => told_code(first, StatusCode::NoSuchFile),
        };
    assert(translates(path@, text_view(made)));
    parents_and_names_are_exact(target, base, name);
    match first {
        Step::Check(CheckTask::MkdirParentIsDir { id: _, target, parent }) => {
            assert(stands_for(path, target));
            assert(asked(first, Question::IsDir, parent));
        },
        _ => {},
    }
}

/// A drive is not made.
pub proof fn drives_are_not_made<F>(id: u32, path: String, letter: char, step: Step<F>)
    requires
        'a' <= letter <= 'z' || 'A' <= letter <= 'Z',
        stands_for_just(path, seq![letter, ':', '\\']),
        mkdir_starts(id, path, step),
    ensures
        told_code(step, StatusCode::PermissionDenied),
{
    let target = choose|target: Option<String>| #[trigger]
        leads_to(path, target) && match target {
            Some(target) => match parent(target@) {
                Some(above) => step matches Step::Check(
                    CheckTask::MkdirParentIsDir { id: i, target: t, parent: p },
                ) && i == id && t == target && p@ == above,
                None => told_code(step, StatusCode::PermissionDenied),
            },
            None => told_code(step, StatusCode::NoSuchFile),
        };
    assert(translates(path@, text_view(target)));
    drive_roots_have_no_parent(letter);
}

/// The first two questions about a directory that is to be removed: whether it is there, and
/// whether it is a directory.
pub proof fn directories_are_looked_up_to_be_removed<F>(
    id: u32,
    path: String,
    first: Step<F>,
    before: Handles<F>,
    there: bool,
    between: Handles<F>,
    second: Step<F>,
)
    requires
        !translates(path@, None),
        rmdir_starts(id, path, first),
        first is Check ==> goes_on(before, first, Outcome::Checked(there), between, second),
    ensures
        between == before,
        exists|target: String| #[trigger]
            stands_for(path, target) && asked(first, Question::Exists, target) && if there {
                &&& asked(second, Question::IsDir, target)
                &&& second == Step::<F>::Check(CheckTask::RmdirIsDir { id, target })
            } else {
                told_code(second, StatusCode::NoSuchFile)
            },
{
    let target = choose|target: Option<String>| #[trigger]
        leads_to(path, target) && match target {
            Some(target) => first == Step::<F>::Check(CheckTask::RmdirExists { id, target }),
            None => told_code(first, StatusCode::NoSuchFile),
        };
    assert(stands_for(path, target->0));
}

/// A directory below the root of a drive is removed; the root of a drive never is.
pub proof fn directories_are_removed_but_not_drives<F>(
    before: Handles<F>,
    id: u32,
    target: String,
    base: Seq<char>,
    name: Seq<char>,
    letter: char,
    is_dir: bool,
    between: Handles<F>,
    second: Step<F>,
    done: bool,
    after: Handles<F>,
    third: Step<F>,
)
    requires
        'a' <= letter <= 'z' || 'A' <= letter <= 'Z',
        goes_on(
            before,
            Step::Check(CheckTask::RmdirIsDir { id, target }),
            Outcome::Checked(is_dir),
            between,
            second,
        ),
        second is Run ==> goes_on(between, second, Outcome::Ran(done), after, third),
    ensures
        between == before,
        !is_dir ==> told_code(second, StatusCode::NoSuchFile),
        is_dir && target@ == seq![letter, ':', '\\'] ==> told_code(
            second,
            StatusCode::PermissionDenied,
        ),
        is_dir && leads_into(target@, base, name) ==> {
            &&& second == Step::Run(RunTask::<F>::RemoveDir { id, target })
            &&& told_success(third, id) <==> done
            &&& told_code(third, StatusCode::Failure) <==> !done
        },
{
    if leads_into(target@, base, name) {
        parents_and_names_are_exact(target@, base, name);
    }
    drive_roots_have_no_parent(letter);
}

/// A file or a directory gets another name if and only if the host tells that it is there and
/// that nothing has the other name.
pub proof fn names_are_changed<F>(
    id: u32,
    oldpath: String,
    newpath: String,
    first: Step<F>,
    before: Handles<F>,
    there: bool,
    between: Handles<F>,
    second: Step<F>,
    taken: bool,
    after: Handles<F>,
    third: Step<F>,
)
    requires
        !translates(oldpath@, None),
        !translates(newpath@, None),
        rename_starts(id, oldpath, newpath, first),
        first is Check ==> goes_on(before, first, Outcome::Checked(there), between, second),
        second is Check ==> goes_on(between, second, Outcome::Checked(taken), after, third),
    ensures
        between == before,
        exists|source: String, dest: String|
            #![trigger stands_for(oldpath, source), stands_for(newpath, dest)]
            stands_for(oldpath, source) && stands_for(newpath, dest) && asked(
                first,
                Question::Exists,
                source,
            ) && if !there {
                told_code(second, StatusCode::NoSuchFile)
            } else {
                &&& asked(second, Question::Exists, dest)
                &&& after == before
                &&& if taken {
                    told_code(third, StatusCode::OpUnsupported)
                } else {
                    third == Step::Run(RunTask::<F>::Rename { id, source, dest })
                }
            },
{
    let (source, dest) = choose|source: Option<String>, translated: Option<String>|
        #![trigger leads_to(oldpath, source), leads_to(newpath, translated)]
        leads_to(oldpath, source) && leads_to(newpath, translated) && match source {
            Some(source) => first == Step::<F>::Check(
                CheckTask::RenameSourceExists { id, source, translated },
            ),
            None => told_code(first, StatusCode::NoSuchFile),
        };
    assert(stands_for(oldpath, source->0));
    assert(stands_for(newpath, dest->0));
}

/// A link is made if and only if the host tells that what `targetpath` names is there. The host
/// is handed the path of `linkpath` as the one that is there, and that of `targetpath` as the
/// one to be made.
pub proof fn links_are_made<F>(
    id: u32,
    linkpath: String,
    targetpath: String,
    first: Step<F>,
    before: Handles<F>,
    there: bool,
    after: Handles<F>,
    second: Step<F>,
)
    requires
        !translates(linkpath@, None),
        !translates(targetpath@, None),
        symlink_starts(id, linkpath, targetpath, first),
        first is Check ==> goes_on(before, first, Outcome::Checked(there), after, second),
    ensures
        after == before,
        exists|target: String, link: String|
            #![trigger stands_for(targetpath, target), stands_for(linkpath, link)]
            stands_for(targetpath, target) && stands_for(linkpath, link) && asked(
                first,
                Question::Exists,
                target,
            ) && if there {
                second == Step::Run(RunTask::<F>::HardLink { id, original: link, link: target })
            } else {
                told_code(second, StatusCode::NoSuchFile)
            },
{
    let (target, link) = choose|target: Option<String>, link: Option<String>|
        #![trigger leads_to(targetpath, target), leads_to(linkpath, link)]
        leads_to(targetpath, target) && leads_to(linkpath, link) && match target {
            Some(target) => first == Step::<F>::Check(
                CheckTask::SymlinkTargetExists { id, target, link },
            ),
            None => told_code(first, StatusCode::Failure),
        };
    assert(stands_for(targetpath, target->0));
    assert(stands_for(linkpath, link->0));
}

/// What the client is told of a change: that it succeeded if and only if it was done, and else
/// the code for it.
pub proof fn changes_are_told<F>(
    before: Handles<F>,
    id: u32,
    target: String,
    other: String,
    done: bool,
    after: Handles<F>,
    next: Step<F>,
)
    requires
        goes_on(
            before,
            Step::Run(RunTask::Rename { id, source: target, dest: other }),
            Outcome::Ran(done),
            after,
            next,
        ) || goes_on(
            before,
            Step::Run(RunTask::HardLink { id, original: target, link: other }),
            Outcome::Ran(done),
            after,
            next,
        ),
    ensures
        after == before,
        done ==> told_success(next, id),
        !done && goes_on(
            before,
            Step::Run(RunTask::Rename { id, source: target, dest: other }),
            Outcome::Ran(done),
            after,
            next,
        ) ==> told_code(next, StatusCode::OpUnsupported),
        !done && goes_on(
            before,
            Step::Run(RunTask::HardLink { id, original: target, link: other }),
            Outcome::Ran(done),
            after,
            next,
        ) ==> told_code(next, StatusCode::Failure),
{
}

/// A link is read if and only if the host tells that the name stands for something, and that it
/// is a link.
pub proof fn links_are_read<F>(
    id: u32,
    path: String,
    first: Step<F>,
    before: Handles<F>,
    there: bool,
    between: Handles<F>,
    second: Step<F>,
    is_link: bool,
    after: Handles<F>,
    third: Step<F>,
)
    requires
        !translates(path@, None),
        readlink_starts(id, path, first),
        first is Check ==> goes_on(before, first, Outcome::Checked(there), between, second),
        second is Check ==> goes_on(between, second, Outcome::Checked(is_link), after, third),
    ensures
        between == before,
        exists|target: String| #[trigger]
            stands_for(path, target) && asked(first, Question::Exists, target) && if !there {
                told_code(second, StatusCode::NoSuchFile)
            } else {
                &&& asked(second, Question::IsSymlink, target)
                &&& after == before
                &&& if is_link {
                    third == Step::<F>::Link(LinkTask { id, target })
                } else {
                    told_code(third, StatusCode::OpUnsupported)
                }
            },
{
    let target = choose|target: Option<String>| #[trigger]
        leads_to(path, target) && match target {
            Some(target) => first == Step::<F>::Check(CheckTask::ReadlinkExists { id, target }),
            None => told_code(first, StatusCode::NoSuchFile),
        };
    assert(stands_for(path, target->0));
}

/// A path without a drive that ends in a name, which stands behind index `at`.
pub open spec fn ends_in_name(path: Seq<char>, at: int) -> bool {
    &&& -1 <= at < path.len()
    &&& at >= 0 ==> path[at] == '/' || path[at] == '\\'
    &&& is_name(path.skip(at + 1))
    &&& path.len() > 1 ==> path[1] != ':'
    &&& path.len() > 1 && (path[0] == '/' || path[0] == '\\') ==> path[1] != '/' && path[1] != '\\'
}

/// The client is told the name at the end of the path that the link leads to, with the
/// attributes of what is there. The root of a drive has no name and is told as the root of the
/// tree.
pub proof fn ends_of_links_are_told<F>(
    task: LinkTask,
    end: Option<LinkEnd>,
    base: Seq<char>,
    name: Seq<char>,
    letter: char,
    at: int,
    step: Step<F>,
)
    requires
        'a' <= letter <= 'z' || 'A' <= letter <= 'Z',
        link_leads(task, end, step),
    ensures
        told_code(step, StatusCode::Failure) <==> end is None,
        end is Some ==> {
            &&& step matches Step::Done(Ok(Reply::Name(reply)))
            &&& reply.id == task.id
            &&& reply.files@.len() == 1
            &&& leads_into(end->0.path@, base, name) ==> shows(
                reply.files@[0],
                name,
                end->0.attrs,
            )
            &&& ends_in_name(end->0.path@, at) ==> shows(
                reply.files@[0],
                end->0.path@.skip(at + 1),
                end->0.attrs,
            )
            &&& end->0.path@ == seq![letter, ':', '\\'] ==> shows(
                reply.files@[0],
                seq!['/'],
                end->0.attrs,
            )
        },
{
    if end is Some && leads_into(end->0.path@, base, name) {
        parents_and_names_are_exact(end->0.path@, base, name);
    }
    if end is Some && ends_in_name(end->0.path@, at) {
        names_at_the_end_are_exact(end->0.path@, at);
    }
    drive_roots_have_no_parent(letter);
    assert(seq!['/'] == root_name());
}

/// A name that is answered is answered alone, as it is, with made up attributes.
pub proof fn canonical_forms_are_answered_alone<F>(step: Step<F>, id: u32, name: Seq<char>)
    requires
        names_one(step, id, name, dummy_attributes()),
    ensures
        step matches Step::Done(Ok(Reply::Name(reply))) && reply.id == id && reply.files@.len()
            == 1 && shows(reply.files@[0], name, None),
{
}

// Refusals and successes.

/// A name that stands for nothing is refused at once.
pub proof fn names_that_stand_for_nothing_are_refused<F>(
    id: u32,
    path: String,
    flags: OpenFlags,
    attrs: FileAttributes,
    other: String,
    step: Step<F>,
)
    requires
        translates(path@, None),
    ensures
        opendir_starts(id, path, step) ==> told_code(step, StatusCode::NoSuchFile),
        open_starts(id, path, flags, step) ==> told_code(step, StatusCode::NoSuchFile),
        stat_starts(id, path, step) ==> told_code(step, StatusCode::NoSuchFile),
        setstat_starts(id, path, attrs, step) ==> told_code(step, StatusCode::NoSuchFile),
        remove_starts(id, path, step) ==> told_code(step, StatusCode::NoSuchFile),
        mkdir_starts(id, path, step) ==> told_code(step, StatusCode::NoSuchFile),
        rmdir_starts(id, path, step) ==> told_code(step, StatusCode::NoSuchFile),
        rename_starts(id, path, other, step) ==> told_code(step, StatusCode::NoSuchFile),
        readlink_starts(id, path, step) ==> told_code(step, StatusCode::NoSuchFile),
        symlink_starts(id, other, path, step) ==> told_code(step, StatusCode::Failure),
{
    if path@ == root_name() {
        assert(separator_at(path@, 0));
    }
}

/// A second name that stands for nothing is refused once the first has been looked up: the new
/// name of a file that is there, or the name of a link to something that is there.
pub proof fn second_names_that_stand_for_nothing_are_refused<F>(
    before: Handles<F>,
    id: u32,
    path: String,
    other: String,
    first: Step<F>,
    after: Handles<F>,
    second: Step<F>,
)
    requires
        !translates(path@, None),
        translates(other@, None),
        first is Check ==> goes_on(before, first, Outcome::Checked(true), after, second),
    ensures
        rename_starts(id, path, other, first) ==> told_code(second, StatusCode::NoSuchFile),
        symlink_starts(id, other, path, first) ==> told_code(second, StatusCode::Failure),
{
}

/// The client is told of a success only where the host has reported that what was asked for was
/// done, or where nothing was to be done: of attributes for what is no file, or of a size that a
/// file does not have or that none was given.
pub proof fn success_is_told_only_of_what_was_done<F>(
    before: Handles<F>,
    step: Step<F>,
    outcome: Outcome<F>,
    after: Handles<F>,
    next: Step<F>,
    id: u32,
)
    requires
        goes_on(before, step, outcome, after, next),
        told_success(next, id),
    ensures
        match (step, outcome) {
            (Step::Run(RunTask::CreateDir { id: i, .. }), Outcome::Ran(done)) => done && i == id,
            (Step::Run(RunTask::RemoveDir { id: i, .. }), Outcome::Ran(done)) => done && i == id,
            (Step::Run(RunTask::Rename { id: i, .. }), Outcome::Ran(done)) => done && i == id,
            (Step::Run(RunTask::HardLink { id: i, .. }), Outcome::Ran(done)) => done && i == id,
            (Step::Run(RunTask::WriteData { id: i, .. }), Outcome::Ran(done)) => done && i == id,
            (Step::Run(RunTask::SetLen { id: i, .. }), Outcome::Ran(done)) => done && i == id,
            (Step::Check(CheckTask::SetstatIsFile { id: i, .. }), Outcome::Checked(yes)) => !yes
                && i == id,
            (
                Step::Size(SizeTask::FileSize { id: i, attrs, .. }),
                Outcome::Sized(Some(size)),
            ) => i == id && (attrs.size is None || attrs.size->0 > size),
            _ => false,
        },
{
}

/// While a request goes on, the end of a file is told only of a read at or past it.
pub proof fn the_end_is_told_only_at_the_end<F>(
    before: Handles<F>,
    step: Step<F>,
    outcome: Outcome<F>,
    after: Handles<F>,
    next: Step<F>,
)
    requires
        goes_on(before, step, outcome, after, next),
        told_code(next, StatusCode::Eof),
    ensures
        match (step, outcome) {
            (
                Step::Size(SizeTask::ReadEnd { offset, .. }),
                Outcome::Sized(Some(end)),
            ) => end <= offset,
            _ => false,
        },
{
}

} // verus!
