use std::collections::HashMap;

use solstice_sftp::protocol::{
    Attrs, Data, FileAttributes, Handle, Name, OpenFlags, Status, StatusCode, APPEND, CREATE,
    READ, TRUNCATE, WRITE,
};
use solstice_sftp::session::{set_file_attributes, SftpSession};
use solstice_sftp::steps::{
    CheckTask, DrivesTask, LinkEnd, LinkTask, ListTask, ListedEntry, OpenFile, OpenMode,
    OpenPurpose, OpenTask, Question, ReadTask, Reply, RunTask, SizeTask, StatTask, Step,
};

type Session = SftpSession<u32>;

fn text(text: &str) -> String {
    text.to_string()
}

fn session() -> Session {
    SftpSession::new()
}

fn success(id: u32) -> Step<u32> {
    Step::Done(Ok(Reply::Status(Status {
        id,
        status_code: StatusCode::Success,
        error_message: text("Ok"),
        language_tag: text("en-US"),
    })))
}

fn failure(code: StatusCode) -> Step<u32> {
    Step::Done(Err(code))
}

/// Attributes of a file of the given size.
fn sized(size: u64) -> FileAttributes {
    FileAttributes { size: Some(size), permissions: Some(0o100644), ..FileAttributes::default() }
}

/// Attributes that ask for nothing.
fn nothing() -> FileAttributes {
    FileAttributes {
        size: None,
        uid: None,
        user: None,
        gid: None,
        group: None,
        permissions: None,
        atime: None,
        mtime: None,
    }
}

/// The task that a step hands out, asked about in the given way.
fn check(step: Step<u32>, question: Question, about: &str) -> CheckTask {
    match step {
        Step::Check(task) => {
            assert_eq!(task.question(), (question, &text(about)));
            task
        }
        other => panic!("{other:?}"),
    }
}

fn run(step: Step<u32>) -> RunTask<u32> {
    match step {
        Step::Run(task) => task,
        other => panic!("{other:?}"),
    }
}

fn names(step: Step<u32>, id: u32) -> Vec<(String, String, FileAttributes)> {
    match step {
        Step::Done(Ok(Reply::Name(name))) => {
            assert_eq!(name.id, id);
            name.files.into_iter().map(|f| (f.filename, f.longname, f.attrs)).collect()
        }
        other => panic!("{other:?}"),
    }
}

/// Opens a directory.
fn with_dir(session: &mut Session, path: &str) {
    let task = match session.opendir(1, text(path)) {
        Step::Check(task) => task,
        other => panic!("{other:?}"),
    };
    assert_eq!(
        session.checked(task, true),
        Step::Done(Ok(Reply::Handle(Handle { id: 1, handle: text(path) })))
    );
}

/// Opens the file `file` for reading.
fn with_file(session: &mut Session, path: &str, file: u32) {
    let task = OpenTask {
        target: text("C:\\f"),
        mode: OpenMode::of_flags(OpenFlags { bits: READ }),
        purpose: OpenPurpose::Handle { id: 1, filename: text(path) },
    };
    assert_eq!(
        session.opened(task, Some(file)),
        Step::Done(Ok(Reply::Handle(Handle { id: 1, handle: text(path) })))
    );
}

#[test]
fn the_version_is_named_once() {
    let mut session = session();
    let mut extensions = HashMap::new();
    extensions.insert(text("newline@vandyke.com"), text("\n"));
    let version = session.init(3, extensions).unwrap();
    assert_eq!(version.version, 3);
    assert!(version.extensions.is_empty());
    assert_eq!(session.init(3, HashMap::new()), Err(StatusCode::ConnectionLost));
    assert_eq!(session.init(4, HashMap::new()), Err(StatusCode::ConnectionLost));
}

#[test]
fn success_is_told_in_full() {
    let status = session().success(9);
    assert_eq!(status.id, 9);
    assert_eq!(status.status_code, StatusCode::Success);
    assert_eq!(status.error_message, "Ok");
    assert_eq!(status.language_tag, "en-US");
}

#[test]
fn extended_requests_are_not_supported() {
    let session = session();
    assert_eq!(session.unimplemented(), StatusCode::OpUnsupported);
    assert_eq!(
        session.extended(1, text("statvfs@openssh.com"), vec![1, 2]),
        Err(StatusCode::OpUnsupported)
    );
}

#[test]
fn directories_are_opened() {
    let mut session = session();
    let task = check(session.opendir(1, text("/C/Windows/")), Question::IsDir, "C:\\Windows\\");
    assert_eq!(session.checked(task, false), failure(StatusCode::NoSuchFile));
    assert_eq!(session.readdir(2, text("/C/Windows/")), failure(StatusCode::NoSuchFile));
    with_dir(&mut session, "/C/Windows/");
    assert!(matches!(session.readdir(2, text("/C/Windows/")), Step::Check(_)));
    assert_eq!(session.opendir(1, text("C/Windows")), failure(StatusCode::NoSuchFile));
}

#[test]
fn the_root_of_the_tree_lists_the_drives() {
    let mut session = session();
    with_dir(&mut session, "/");
    let step = session.readdir(2, text("/"));
    assert_eq!(step, Step::Drives(DrivesTask { id: 2 }));
    let listed = names(session.drives_told(DrivesTask { id: 2 }, 0b1101), 2);
    let filenames: Vec<&str> = listed.iter().map(|file| file.0.as_str()).collect();
    assert_eq!(filenames, ["A", "C", "D"]);
    assert_eq!(listed[1].1, "drwxrwxrwx 0 0 0 0 Jan 01 1970 00:00 C");
    assert_eq!(listed[2].2, FileAttributes::default());
    assert_eq!(session.readdir(3, text("/")), failure(StatusCode::Eof));
}

#[test]
fn all_letters_can_be_drives() {
    let listed = names(session().drives_told(DrivesTask { id: 2 }, u32::MAX), 2);
    let filenames: String = listed.iter().map(|file| file.0.as_str()).collect();
    assert_eq!(filenames, "ABCDEFGHIJKLMNOPQRSTUVWXYZ[");
    assert!(names(session().drives_told(DrivesTask { id: 2 }, 0), 2).is_empty());
    assert!(names(session().drives_told(DrivesTask { id: 2 }, 1 << 27), 2).is_empty());
}

#[test]
fn directories_are_read_once() {
    let mut session = session();
    with_dir(&mut session, "/C/x");
    with_dir(&mut session, "/C/y");
    let task = check(session.readdir(2, text("/C/x")), Question::Exists, "C:\\x");
    assert_eq!(session.checked(task, false), failure(StatusCode::NoSuchFile));
    assert_eq!(session.readdir(3, text("/C/x")), failure(StatusCode::Eof));
    assert_eq!(session.readdir(4, text("/C/x")), failure(StatusCode::Eof));
    assert!(matches!(session.readdir(5, text("/C/y")), Step::Check(_)));
    with_dir(&mut session, "/C/x");
    assert!(matches!(session.readdir(6, text("/C/x")), Step::Check(_)));
}

#[test]
fn only_directories_are_listed() {
    let mut session = session();
    assert_eq!(session.readdir(2, text("/C/x")), failure(StatusCode::NoSuchFile));
    with_file(&mut session, "/C/x", 7);
    assert_eq!(session.readdir(2, text("/C/x")), failure(StatusCode::NoSuchFile));
}

#[test]
fn listings_hold_every_entry() {
    let mut session = session();
    with_dir(&mut session, "/C/x");
    let task = check(session.readdir(2, text("/C/x")), Question::Exists, "C:\\x");
    let task = match session.checked(task, true) {
        Step::List(task) => task,
        other => panic!("{other:?}"),
    };
    assert_eq!(task, ListTask { id: 2, target: text("C:\\x") });
    let entries = vec![
        Some(ListedEntry { name: text("a"), attrs: Some(sized(5)) }),
        Some(ListedEntry { name: text("b"), attrs: None }),
    ];
    let listed = names(session.listed(task, Some(entries)), 2);
    assert_eq!(listed.len(), 2);
    assert_eq!(listed[0].0, "a");
    assert_eq!(listed[0].1, "-rw-r--r-- 0 0 0 5 Jan 01 1970 00:00 a");
    assert_eq!(listed[0].2, sized(5));
    assert_eq!(listed[1].0, "b");
    assert_eq!(listed[1].2, FileAttributes::default());
}

#[test]
fn listings_fail_as_a_whole() {
    let session = session();
    let task = || ListTask { id: 2, target: text("C:\\x") };
    let denied = failure(StatusCode::PermissionDenied);
    assert_eq!(session.listed(task(), None), denied);
    let entries = vec![Some(ListedEntry { name: text("a"), attrs: None }), None];
    assert_eq!(session.listed(task(), Some(entries)), denied);
    assert!(names(session.listed(task(), Some(Vec::new())), 2).is_empty());
}

#[test]
fn canonical_forms_are_one_name() {
    let session = session();
    for (asked, answered) in [
        ("/C/users/../x/.", "/C/x"),
        ("/C/x", "/C/x"),
        ("/C/users/..", "/C"),
        ("/", "/"),
        (".", "/"),
        ("a/b", "/a/b"),
    ] {
        let listed = names(session.realpath(4, text(asked)), 4);
        assert_eq!(listed.len(), 1);
        assert_eq!(listed[0].0, answered);
        assert_eq!(listed[0].1, text("drwxrwxrwx 0 0 0 0 Jan 01 1970 00:00 ") + answered);
        assert_eq!(listed[0].2, FileAttributes::default());
    }
}

#[test]
fn canonical_answers_stay() {
    let session = session();
    for asked in ["/C/users/../x/.", "a\\b/", "..", "C:/x"] {
        let answered = names(session.realpath(4, text(asked)), 4);
        let again = names(session.realpath(5, answered[0].0.clone()), 5);
        assert_eq!(again, answered);
    }
}

#[test]
fn files_are_opened() {
    let mut session = session();
    let flags = OpenFlags { bits: READ | WRITE };
    let step = session.open(1, text("/C/f"), flags, nothing());
    let task = check(step, Question::IsFile, "C:\\f");
    let task = check(session.checked(task, true), Question::IsDir, "C:\\f");
    let task = match session.checked(task, false) {
        Step::Open(task) => task,
        other => panic!("{other:?}"),
    };
    assert_eq!(task.target, "C:\\f");
    assert_eq!(
        task.mode,
        OpenMode { read: true, write: true, truncate: false, create: false, append: false }
    );
    assert_eq!(
        session.opened(task, Some(7)),
        Step::Done(Ok(Reply::Handle(Handle { id: 1, handle: text("/C/f") })))
    );
    assert_eq!(session.file(&text("/C/f")), Ok(&mut 7));
}

#[test]
fn files_that_are_not_there_are_opened_only_to_be_created() {
    let mut session = session();
    let step = session.open(1, text("/C/f"), OpenFlags { bits: WRITE }, nothing());
    let task = check(step, Question::IsFile, "C:\\f");
    assert_eq!(session.checked(task, false), failure(StatusCode::NoSuchFile));
    let flags = OpenFlags { bits: APPEND | CREATE | TRUNCATE };
    let step = session.open(1, text("/C/f"), flags, nothing());
    let task = check(step, Question::IsFile, "C:\\f");
    let task = check(session.checked(task, false), Question::IsDir, "C:\\f");
    assert_eq!(
        session.checked(task, false),
        Step::Open(OpenTask {
            target: text("C:\\f"),
            mode: OpenMode {
                read: false,
                write: false,
                truncate: true,
                create: true,
                append: true
            },
            purpose: OpenPurpose::Handle { id: 1, filename: text("/C/f") },
        })
    );
}

#[test]
fn some_files_are_not_opened() {
    let mut session = session();
    let flags = OpenFlags { bits: CREATE };
    assert_eq!(session.open(1, text("f"), flags, nothing()), failure(StatusCode::NoSuchFile));
    let task = CheckTask::OpenIsDir {
        id: 1,
        filename: text("/C/d"),
        target: text("C:\\d"),
        flags,
    };
    assert_eq!(session.checked(task, true), failure(StatusCode::Failure));
    let task = OpenTask {
        target: text("C:\\f"),
        mode: OpenMode::of_flags(flags),
        purpose: OpenPurpose::Handle { id: 1, filename: text("/C/f") },
    };
    assert_eq!(session.opened(task, None), failure(StatusCode::PermissionDenied));
    assert_eq!(session.file(&text("/C/f")), Err(StatusCode::BadMessage));
}

#[test]
fn files_are_found_by_their_handle() {
    let mut session = session();
    with_file(&mut session, "/C/f", 7);
    with_file(&mut session, "/C/g", 8);
    *session.file(&text("/C/f")).unwrap() = 9;
    assert_eq!(session.file(&text("/C/f")), Ok(&mut 9));
    assert_eq!(session.file(&text("/C/g")), Ok(&mut 8));
    with_file(&mut session, "/C/g", 1);
    assert_eq!(session.file(&text("/C/g")), Ok(&mut 1));
    with_dir(&mut session, "/C/f");
    assert_eq!(session.file(&text("/C/f")), Err(StatusCode::NoSuchFile));
}

#[test]
fn closed_handles_are_unknown() {
    let mut session = session();
    with_file(&mut session, "/C/f", 7);
    with_dir(&mut session, "/C/d");
    assert_eq!(session.close(3, text("/C/f")).map(|status| status.id), Ok(3));
    assert_eq!(session.file(&text("/C/f")), Err(StatusCode::BadMessage));
    assert_eq!(session.read(4, text("/C/f"), 0, 1), failure(StatusCode::BadMessage));
    assert_eq!(session.readdir(4, text("/C/f")), failure(StatusCode::NoSuchFile));
    assert_eq!(session.fsetstat(4, text("/C/f"), nothing()), failure(StatusCode::NoSuchFile));
    assert!(matches!(session.readdir(5, text("/C/d")), Step::Check(_)));
    let status = session.close(6, text("/C/f")).unwrap();
    assert_eq!(status.status_code, StatusCode::Success);
}

#[test]
fn files_are_read() {
    let mut session = session();
    with_file(&mut session, "/C/f", 7);
    let task = match session.read(2, text("/C/f"), 10, 4) {
        Step::Size(task) => task,
        other => panic!("{other:?}"),
    };
    assert_eq!(task, SizeTask::ReadEnd { id: 2, handle: text("/C/f"), offset: 10, len: 4 });
    let task = run(session.sized(task, Some(11)));
    assert_eq!(task, RunTask::ReadSeek { id: 2, handle: text("/C/f"), offset: 10, len: 4 });
    let mut task = match session.ran(task, true) {
        Step::Read(task) => task,
        other => panic!("{other:?}"),
    };
    assert_eq!(task, ReadTask { id: 2, handle: text("/C/f"), buffer: vec![0; 4] });
    task.buffer[0] = 65;
    assert_eq!(
        session.read_done(task, Some(1)),
        Step::Done(Ok(Reply::Data(Data { id: 2, data: vec![65] })))
    );
}

#[test]
fn nothing_is_read_past_the_end() {
    let session = session();
    let task = |offset: u64| SizeTask::ReadEnd { id: 2, handle: text("/C/f"), offset, len: 4 };
    assert_eq!(session.sized(task(10), Some(10)), failure(StatusCode::Eof));
    assert_eq!(session.sized(task(11), Some(10)), failure(StatusCode::Eof));
    assert_eq!(session.sized(task(0), Some(0)), failure(StatusCode::Eof));
    assert!(matches!(session.sized(task(9), Some(10)), Step::Run(_)));
}

#[test]
fn reading_can_fail() {
    let mut session = session();
    assert_eq!(session.read(2, text("/C/f"), 0, 4), failure(StatusCode::BadMessage));
    with_dir(&mut session, "/C/d");
    assert_eq!(session.read(2, text("/C/d"), 0, 4), failure(StatusCode::NoSuchFile));
    let task = SizeTask::ReadEnd { id: 2, handle: text("/C/f"), offset: 0, len: 4 };
    assert_eq!(session.sized(task, None), failure(StatusCode::Failure));
    let task = RunTask::ReadSeek { id: 2, handle: text("/C/f"), offset: 0, len: 4 };
    assert_eq!(session.ran(task, false), failure(StatusCode::Failure));
    let task = ReadTask { id: 2, handle: text("/C/f"), buffer: vec![0; 4] };
    assert_eq!(session.read_done(task, None), failure(StatusCode::Failure));
}

#[test]
fn no_more_is_sent_than_asked() {
    let session = session();
    let task = |buffer: Vec<u8>| ReadTask { id: 2, handle: text("/C/f"), buffer };
    assert_eq!(
        session.read_done(task(vec![1, 2, 3]), Some(9)),
        Step::Done(Ok(Reply::Data(Data { id: 2, data: vec![1, 2, 3] })))
    );
    assert_eq!(
        session.read_done(task(vec![1, 2, 3]), Some(0)),
        Step::Done(Ok(Reply::Data(Data { id: 2, data: Vec::new() })))
    );
}

#[test]
fn files_are_written() {
    let mut session = session();
    with_file(&mut session, "/C/f", 7);
    let task = run(session.write(2, text("/C/f"), 3, vec![1, 2]));
    assert_eq!(
        task,
        RunTask::WriteSeek { id: 2, handle: text("/C/f"), offset: 3, data: vec![1, 2] }
    );
    let task = run(session.ran(task, true));
    assert_eq!(task, RunTask::WriteData { id: 2, handle: text("/C/f"), data: vec![1, 2] });
    assert_eq!(session.ran(task, true), success(2));
}

#[test]
fn writing_can_fail() {
    let mut session = session();
    assert_eq!(session.write(2, text("/C/f"), 0, vec![1]), failure(StatusCode::BadMessage));
    with_dir(&mut session, "/C/d");
    assert_eq!(session.write(2, text("/C/d"), 0, vec![1]), failure(StatusCode::NoSuchFile));
    let task =
        RunTask::WriteSeek { id: 2, handle: text("/C/f"), offset: 3, data: vec![1, 2] };
    assert_eq!(session.ran(task, false), failure(StatusCode::Failure));
    let task = RunTask::WriteData { id: 2, handle: text("/C/f"), data: vec![1, 2] };
    assert_eq!(session.ran(task, false), failure(StatusCode::Failure));
}

#[test]
fn attributes_of_paths_are_told() {
    let session = session();
    let root = || Step::Done(Ok(Reply::Attrs(Attrs { id: 2, attrs: FileAttributes::default() })));
    assert_eq!(session.stat(2, text("/")), root());
    assert_eq!(session.lstat(2, text("/")), root());
    let task = || StatTask::Path { id: 2, target: text("C:\\f") };
    assert_eq!(session.stat(2, text("/C/f")), Step::Stat(task()));
    assert_eq!(session.lstat(2, text("/C/f")), Step::Stat(task()));
    assert_eq!(
        session.statted(task(), Some(sized(3))),
        Step::Done(Ok(Reply::Attrs(Attrs { id: 2, attrs: sized(3) })))
    );
    assert_eq!(session.statted(task(), None), failure(StatusCode::NoSuchFile));
}

#[test]
fn attributes_of_handles_are_told() {
    let mut session = session();
    assert_eq!(session.fstat(2, text("/C/f")), failure(StatusCode::BadMessage));
    with_dir(&mut session, "/C/d");
    assert_eq!(session.fstat(2, text("/C/d")), failure(StatusCode::NoSuchFile));
    with_file(&mut session, "/C/f", 7);
    let task = || StatTask::Handle { id: 2, handle: text("/C/f") };
    assert_eq!(session.fstat(2, text("/C/f")), Step::Stat(task()));
    assert_eq!(
        session.statted(task(), Some(sized(3))),
        Step::Done(Ok(Reply::Attrs(Attrs { id: 2, attrs: sized(3) })))
    );
    assert_eq!(session.statted(task(), None), failure(StatusCode::NoSuchFile));
}

#[test]
fn files_are_cut_and_never_made_longer() {
    assert_eq!(set_file_attributes(&sized(5), 9), Some(5));
    assert_eq!(set_file_attributes(&sized(9), 9), Some(9));
    assert_eq!(set_file_attributes(&sized(0), 9), Some(0));
    assert_eq!(set_file_attributes(&sized(10), 9), None);
    assert_eq!(set_file_attributes(&nothing(), 9), None);
}

#[test]
fn attributes_are_given_to_paths() {
    let mut session = session();
    let task = check(session.setstat(2, text("/C/f"), sized(5)), Question::IsFile, "C:\\f");
    let task = match session.checked(task, true) {
        Step::Open(task) => task,
        other => panic!("{other:?}"),
    };
    assert_eq!(
        task.mode,
        OpenMode { read: false, write: true, truncate: false, create: false, append: false }
    );
    let task = match session.opened(task, Some(7)) {
        Step::Size(task) => task,
        other => panic!("{other:?}"),
    };
    let task = run(session.sized(task, Some(9)));
    assert_eq!(task, RunTask::SetLen { id: 2, file: OpenFile::Temporary(7), size: 5 });
    assert_eq!(session.ran(task, true), success(2));
    let task = RunTask::SetLen { id: 2, file: OpenFile::Temporary(7), size: 5 };
    assert_eq!(session.ran(task, false), failure(StatusCode::Failure));
    assert_eq!(session.file(&text("/C/f")), Err(StatusCode::BadMessage));
}

#[test]
fn attributes_are_not_given_to_all_paths() {
    let mut session = session();
    assert_eq!(session.setstat(2, text("f"), sized(5)), failure(StatusCode::NoSuchFile));
    let task = check(session.setstat(2, text("/C/d"), sized(5)), Question::IsFile, "C:\\d");
    assert_eq!(session.checked(task, false), success(2));
    let task = OpenTask {
        target: text("C:\\f"),
        mode: OpenMode::of_flags(OpenFlags { bits: WRITE }),
        purpose: OpenPurpose::Setstat { id: 2, attrs: sized(5) },
    };
    assert_eq!(session.opened(task, None), failure(StatusCode::NoSuchFile));
    let task = || SizeTask::FileSize { id: 2, file: OpenFile::Temporary(7), attrs: sized(5) };
    assert_eq!(session.sized(task(), None), failure(StatusCode::Failure));
    assert_eq!(session.sized(task(), Some(4)), success(2));
}

#[test]
fn attributes_are_given_to_handles() {
    let mut session = session();
    assert_eq!(session.fsetstat(2, text("/C/f"), sized(5)), failure(StatusCode::NoSuchFile));
    with_dir(&mut session, "/C/d");
    assert_eq!(session.fsetstat(2, text("/C/d"), sized(5)), success(2));
    with_file(&mut session, "/C/f", 7);
    let task = match session.fsetstat(2, text("/C/f"), sized(5)) {
        Step::Size(task) => task,
        other => panic!("{other:?}"),
    };
    assert_eq!(
        run(session.sized(task, Some(5))),
        RunTask::SetLen { id: 2, file: OpenFile::Handle(text("/C/f")), size: 5 }
    );
}

#[test]
fn files_are_removed() {
    let mut session = session();
    assert_eq!(session.remove(2, text("f")), failure(StatusCode::NoSuchFile));
    let task = check(session.remove(2, text("/C/f")), Question::IsFile, "C:\\f");
    let task = run(session.checked(task, true));
    assert_eq!(task, RunTask::RemoveFile { id: 2, target: text("C:\\f") });
    assert_eq!(session.ran(task, true), failure(StatusCode::Success));
    let task = RunTask::RemoveFile { id: 2, target: text("C:\\f") };
    assert_eq!(session.ran(task, false), failure(StatusCode::Failure));
    let task = CheckTask::RemoveIsFile { id: 2, target: text("C:\\d") };
    assert_eq!(session.checked(task, false), failure(StatusCode::PermissionDenied));
}

#[test]
fn directories_are_made() {
    let mut session = session();
    assert_eq!(session.mkdir(2, text("d"), nothing()), failure(StatusCode::NoSuchFile));
    let denied = failure(StatusCode::PermissionDenied);
    assert_eq!(session.mkdir(2, text("/"), nothing()), denied);
    assert_eq!(session.mkdir(2, text("/C"), nothing()), denied);
    let task = check(session.mkdir(2, text("/C/a/d"), nothing()), Question::IsDir, "C:\\a");
    let task = run(session.checked(task, true));
    assert_eq!(task, RunTask::CreateDir { id: 2, target: text("C:\\a\\d") });
    assert_eq!(session.ran(task, true), success(2));
    let task = RunTask::CreateDir { id: 2, target: text("C:\\a\\d") };
    assert_eq!(session.ran(task, false), failure(StatusCode::Failure));
    let task = check(session.mkdir(2, text("/C/a/d"), nothing()), Question::IsDir, "C:\\a");
    assert_eq!(session.checked(task, false), denied);
}

#[test]
fn directories_are_removed() {
    let mut session = session();
    assert_eq!(session.rmdir(2, text("d")), failure(StatusCode::NoSuchFile));
    let task = check(session.rmdir(2, text("/C/d")), Question::Exists, "C:\\d");
    let task = check(session.checked(task, true), Question::IsDir, "C:\\d");
    let task = run(session.checked(task, true));
    assert_eq!(task, RunTask::RemoveDir { id: 2, target: text("C:\\d") });
    assert_eq!(session.ran(task, true), success(2));
    let task = RunTask::RemoveDir { id: 2, target: text("C:\\d") };
    assert_eq!(session.ran(task, false), failure(StatusCode::Failure));
    let task = CheckTask::RmdirExists { id: 2, target: text("C:\\d") };
    assert_eq!(session.checked(task, false), failure(StatusCode::NoSuchFile));
    let task = CheckTask::RmdirIsDir { id: 2, target: text("C:\\d") };
    assert_eq!(session.checked(task, false), failure(StatusCode::NoSuchFile));
}

#[test]
fn drives_are_not_removed() {
    let mut session = session();
    for name in ["/C", "/C/", "/C/a/..", "/C/../."] {
        let task = check(session.rmdir(2, text(name)), Question::Exists, "C:\\");
        let task = check(session.checked(task, true), Question::IsDir, "C:\\");
        assert_eq!(session.checked(task, true), failure(StatusCode::PermissionDenied));
    }
    let task = check(session.rmdir(2, text("/")), Question::Exists, "/");
    let task = check(session.checked(task, true), Question::IsDir, "/");
    assert_eq!(session.checked(task, true), failure(StatusCode::PermissionDenied));
}

#[test]
fn names_are_changed() {
    let mut session = session();
    let step = session.rename(2, text("/C/a"), text("/D/b"));
    let task = check(step, Question::Exists, "C:\\a");
    let task = check(session.checked(task, true), Question::Exists, "D:\\b");
    let task = run(session.checked(task, false));
    assert_eq!(task, RunTask::Rename { id: 2, source: text("C:\\a"), dest: text("D:\\b") });
    assert_eq!(session.ran(task, true), success(2));
    let task = RunTask::Rename { id: 2, source: text("C:\\a"), dest: text("D:\\b") };
    assert_eq!(session.ran(task, false), failure(StatusCode::OpUnsupported));
}

#[test]
fn names_are_not_changed_to_what_is_in_use() {
    let mut session = session();
    let task =
        CheckTask::RenameDestExists { id: 2, source: text("C:\\a"), dest: text("D:\\b") };
    assert_eq!(session.checked(task, true), failure(StatusCode::OpUnsupported));
    let missing = failure(StatusCode::NoSuchFile);
    assert_eq!(session.rename(2, text("a"), text("/D/b")), missing);
    let task = check(session.rename(2, text("/C/a"), text("b")), Question::Exists, "C:\\a");
    assert_eq!(session.checked(task, true), missing);
    let task = check(session.rename(2, text("/C/a"), text("/D/b")), Question::Exists, "C:\\a");
    assert_eq!(session.checked(task, false), missing);
}

#[test]
fn links_are_read() {
    let mut session = session();
    assert_eq!(session.readlink(2, text("l")), failure(StatusCode::NoSuchFile));
    let task = check(session.readlink(2, text("/C/l")), Question::Exists, "C:\\l");
    let task = check(session.checked(task, true), Question::IsSymlink, "C:\\l");
    assert_eq!(
        session.checked(task, true),
        Step::Link(LinkTask { id: 2, target: text("C:\\l") })
    );
    let task = || LinkTask { id: 2, target: text("C:\\l") };
    let end = LinkEnd { path: text("C:\\x\\y.txt"), attrs: Some(sized(3)) };
    let listed = names(session.link_read(task(), Some(end)), 2);
    assert_eq!(listed.len(), 1);
    assert_eq!(listed[0].0, "y.txt");
    assert_eq!(listed[0].2, sized(3));
    let end = LinkEnd { path: text("C:\\"), attrs: None };
    let listed = names(session.link_read(task(), Some(end)), 2);
    assert_eq!(listed[0].0, "/");
    assert_eq!(listed[0].2, FileAttributes::default());
    assert_eq!(session.link_read(task(), None), failure(StatusCode::Failure));
}

#[test]
fn only_links_are_read() {
    let mut session = session();
    let task = CheckTask::ReadlinkExists { id: 2, target: text("C:\\l") };
    assert_eq!(session.checked(task, false), failure(StatusCode::NoSuchFile));
    let task = CheckTask::ReadlinkIsSymlink { id: 2, target: text("C:\\l") };
    assert_eq!(session.checked(task, false), failure(StatusCode::OpUnsupported));
}

#[test]
fn links_are_made() {
    let mut session = session();
    let step = session.symlink(2, text("/C/link"), text("/C/target"));
    let task = check(step, Question::Exists, "C:\\target");
    let task = run(session.checked(task, true));
    assert_eq!(
        task,
        RunTask::HardLink { id: 2, original: text("C:\\link"), link: text("C:\\target") }
    );
    assert_eq!(session.ran(task, true), success(2));
    let task = RunTask::HardLink { id: 2, original: text("C:\\l"), link: text("C:\\t") };
    assert_eq!(session.ran(task, false), failure(StatusCode::Failure));
}

#[test]
fn some_links_are_not_made() {
    let mut session = session();
    let step = session.symlink(2, text("/C/link"), text("target"));
    assert_eq!(step, failure(StatusCode::Failure));
    let step = session.symlink(2, text("link"), text("/C/target"));
    let task = check(step, Question::Exists, "C:\\target");
    assert_eq!(session.checked(task, true), failure(StatusCode::Failure));
    let step = session.symlink(2, text("/C/link"), text("/C/target"));
    let task = check(step, Question::Exists, "C:\\target");
    assert_eq!(session.checked(task, false), failure(StatusCode::NoSuchFile));
}

#[test]
fn names_without_a_root_are_refused() {
    let session = session();
    let missing = failure(StatusCode::NoSuchFile);
    for name in ["", ".", "C", "C/x", "C:x"] {
        assert_eq!(session.opendir(1, text(name)), missing);
        assert_eq!(session.open(1, text(name), OpenFlags { bits: READ }, nothing()), missing);
        assert_eq!(session.stat(1, text(name)), missing);
        assert_eq!(session.lstat(1, text(name)), missing);
        assert_eq!(session.setstat(1, text(name), nothing()), missing);
        assert_eq!(session.remove(1, text(name)), missing);
        assert_eq!(session.mkdir(1, text(name), nothing()), missing);
        assert_eq!(session.rmdir(1, text(name)), missing);
        assert_eq!(session.rename(1, text(name), text("/C/x")), missing);
        assert_eq!(session.readlink(1, text(name)), missing);
        assert_eq!(session.symlink(1, text("/C/x"), text(name)), failure(StatusCode::Failure));
    }
}

#[test]
fn replies_name_their_request() {
    let session = session();
    let task = StatTask::Path { id: 77, target: text("C:\\f") };
    match session.statted(task, Some(sized(1))) {
        Step::Done(Ok(Reply::Attrs(reply))) => assert_eq!(reply.id, 77),
        other => panic!("{other:?}"),
    }
    let task = ListTask { id: 78, target: text("C:\\d") };
    assert_eq!(
        session.listed(task, Some(Vec::new())),
        Step::Done(Ok(Reply::Name(Name { id: 78, files: Vec::new() })))
    );
}
