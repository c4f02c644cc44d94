//! The conversation between a session and its host.
//!
//! A session decides; it touches no disk. Where it needs to know or to change something
//! outside, it hands out a task and goes on when the host reports the outcome. Each request
//! is a chain of such steps that ends in a reply.

use vstd::prelude::*;

use crate::protocol::{
    Attrs, Data, FileAttributes, Handle, Name, OpenFlags, Status, StatusCode, APPEND,
    CREATE, READ, TRUNCATE, WRITE,
};

verus! {

/// The answer to a request.
#[derive(PartialEq, Eq, Debug)]
pub enum Reply {
    Status(Status),
    Handle(Handle),
    Name(Name),
    Attrs(Attrs),
    Data(Data),
}

/// What can be asked about a path.
#[derive(Clone, Copy, PartialEq, Eq, Structural, Debug)]
pub enum Question {
    IsDir,
    IsFile,
    Exists,
    IsSymlink,
}

/// A question about a path, and what depends on it.
#[derive(PartialEq, Eq, Debug)]
pub enum CheckTask {
    OpendirIsDir { id: u32, path: String, target: String },
    ReaddirExists { id: u32, target: String },
    OpenIsFile { id: u32, filename: String, target: String, flags: OpenFlags },
    OpenIsDir { id: u32, filename: String, target: String, flags: OpenFlags },
    SetstatIsFile { id: u32, target: String, attrs: FileAttributes },
    RemoveIsFile { id: u32, target: String },
    MkdirParentIsDir { id: u32, target: String, parent: String },
    RmdirExists { id: u32, target: String },
    RmdirIsDir { id: u32, target: String },
    RenameSourceExists { id: u32, source: String, translated: Option<String> },
    RenameDestExists { id: u32, source: String, dest: String },
    ReadlinkExists { id: u32, target: String },
    ReadlinkIsSymlink { id: u32, target: String },
    SymlinkTargetExists { id: u32, target: String, link: Option<String> },
}

/// How a file is to be opened.
#[derive(Clone, Copy, PartialEq, Eq, Structural, Debug)]
pub struct OpenMode {
    pub read: bool,
    pub write: bool,
    pub truncate: bool,
    pub create: bool,
    pub append: bool,
}

/// An open file: one that a handle stands for, or one opened for a single request.
#[derive(PartialEq, Eq, Debug)]
pub enum OpenFile<F> {
    Handle(String),
    Temporary(F),
}

/// Something to be done, which succeeds or fails.
#[derive(PartialEq, Eq, Debug)]
pub enum RunTask<F> {
    RemoveFile { id: u32, target: String },
    CreateDir { id: u32, target: String },
    RemoveDir { id: u32, target: String },
    Rename { id: u32, source: String, dest: String },
    /// Makes `link` another name of the file `original`.
    HardLink { id: u32, original: String, link: String },
    /// Moves to `offset` from the start of the file, for reading.
    ReadSeek { id: u32, handle: String, offset: u64, len: u32 },
    /// Moves to `offset` from the start of the file, for writing.
    WriteSeek { id: u32, handle: String, offset: u64, data: Vec<u8> },
    /// Writes all of the data where the file stands.
    WriteData { id: u32, handle: String, data: Vec<u8> },
    SetLen { id: u32, file: OpenFile<F>, size: u64 },
}

/// A request for attributes, which may not be had.
#[derive(PartialEq, Eq, Debug)]
pub enum StatTask {
    Path { id: u32, target: String },
    Handle { id: u32, handle: String },
}

/// A request for a size, which may not be had.
#[derive(PartialEq, Eq, Debug)]
pub enum SizeTask<F> {
    /// Moves to the end of the file and tells where that is.
    ReadEnd { id: u32, handle: String, offset: u64, len: u32 },
    /// Reads the size of the file off its metadata.
    FileSize { id: u32, file: OpenFile<F>, attrs: FileAttributes },
}

/// What an opened file is for.
#[derive(PartialEq, Eq, Debug)]
pub enum OpenPurpose {
    /// To stand behind a handle.
    Handle { id: u32, filename: String },
    /// To be given attributes.
    Setstat { id: u32, attrs: FileAttributes },
}

/// A file to be opened, which may fail.
#[derive(PartialEq, Eq, Debug)]
pub struct OpenTask {
    pub target: String,
    pub mode: OpenMode,
    pub purpose: OpenPurpose,
}

/// A buffer to be filled from where the file stands; the host reports how much it read.
#[derive(PartialEq, Eq, Debug)]
pub struct ReadTask {
    pub id: u32,
    pub handle: String,
    pub buffer: Vec<u8>,
}

/// A directory to be listed, which may fail.
#[derive(PartialEq, Eq, Debug)]
pub struct ListTask {
    pub id: u32,
    pub target: String,
}

/// One entry of a directory. Its attributes may not be had.
#[derive(PartialEq, Eq, Debug)]
pub struct ListedEntry {
    pub name: String,
    pub attrs: Option<FileAttributes>,
}

/// The drives to be told, one bit for each letter, `A` lowest.
#[derive(PartialEq, Eq, Debug)]
pub struct DrivesTask {
    pub id: u32,
}

/// A link to be read, which may fail.
#[derive(PartialEq, Eq, Debug)]
pub struct LinkTask {
    pub id: u32,
    pub target: String,
}

/// What a link leads to. The attributes of that may not be had.
#[derive(PartialEq, Eq, Debug)]
pub struct LinkEnd {
    pub path: String,
    pub attrs: Option<FileAttributes>,
}

/// What comes next in the course of a request.
#[derive(PartialEq, Eq, Debug)]
pub enum Step<F> {
    Done(Result<Reply, StatusCode>),
    Check(CheckTask),
    Run(RunTask<F>),
    Stat(StatTask),
    Size(SizeTask<F>),
    Open(OpenTask),
    Read(ReadTask),
    List(ListTask),
    Drives(DrivesTask),
    Link(LinkTask),
}

impl CheckTask {
    /// What is asked.
    pub open spec fn asks(self) -> Question {
        match self {
            CheckTask::OpendirIsDir { .. } => Question::IsDir,
            CheckTask::ReaddirExists { .. } => Question::Exists,
            CheckTask::OpenIsFile { .. } => Question::IsFile,
            CheckTask::OpenIsDir { .. } => Question::IsDir,
            CheckTask::SetstatIsFile { .. } => Question::IsFile,
            CheckTask::RemoveIsFile { .. } => Question::IsFile,
            CheckTask::MkdirParentIsDir { .. } => Question::IsDir,
            CheckTask::RmdirExists { .. } => Question::Exists,
            CheckTask::RmdirIsDir { .. } => Question::IsDir,
            CheckTask::RenameSourceExists { .. } => Question::Exists,
            CheckTask::RenameDestExists { .. } => Question::Exists,
            CheckTask::ReadlinkExists { .. } => Question::Exists,
            CheckTask::ReadlinkIsSymlink { .. } => Question::IsSymlink,
            CheckTask::SymlinkTargetExists { .. } => Question::Exists,
        }
    }

    /// The path that is asked about.
    pub open spec fn about(self) -> String {
        match self {
            CheckTask::OpendirIsDir { target, .. } => target,
            CheckTask::ReaddirExists { target, .. } => target,
            CheckTask::OpenIsFile { target, .. } => target,
            CheckTask::OpenIsDir { target, .. } => target,
            CheckTask::SetstatIsFile { target, .. } => target,
            CheckTask::RemoveIsFile { target, .. } => target,
            CheckTask::MkdirParentIsDir { parent, .. } => parent,
            CheckTask::RmdirExists { target, .. } => target,
            CheckTask::RmdirIsDir { target, .. } => target,
            CheckTask::RenameSourceExists { source, .. } => source,
            CheckTask::RenameDestExists { dest, .. } => dest,
            CheckTask::ReadlinkExists { target, .. } => target,
            CheckTask::ReadlinkIsSymlink { target, .. } => target,
            CheckTask::SymlinkTargetExists { target, .. } => target,
        }
    }

    /// What is asked, and about which path.
    pub fn question(&self) -> (r: (Question, &String))
        ensures
            r.0 == self.asks(),
            *r.1 == self.about(),
    {
        match self {
            CheckTask::OpendirIsDir { target, .. } => (Question::IsDir, target),
            CheckTask::ReaddirExists { target, .. } => (Question::Exists, target),
            CheckTask::OpenIsFile { target, .. } => (Question::IsFile, target),
            CheckTask::OpenIsDir { target, .. } => (Question::IsDir, target),
            CheckTask::SetstatIsFile { target, .. } => (Question::IsFile, target),
            CheckTask::RemoveIsFile { target, .. } => (Question::IsFile, target),
            CheckTask::MkdirParentIsDir { parent, .. } => (Question::IsDir, parent),
            CheckTask::RmdirExists { target, .. } => (Question::Exists, target),
            CheckTask::RmdirIsDir { target, .. } => (Question::IsDir, target),
            CheckTask::RenameSourceExists { source, .. } => (Question::Exists, source),
            CheckTask::RenameDestExists { dest, .. } => (Question::Exists, dest),
            CheckTask::ReadlinkExists { target, .. } => (Question::Exists, target),
            CheckTask::ReadlinkIsSymlink { target, .. } => (Question::IsSymlink, target),
            CheckTask::SymlinkTargetExists { target, .. } => (Question::Exists, target),
        }
    }
}

impl OpenMode {
    /// The way of opening that flags ask for.
    pub open spec fn asked_by(flags: OpenFlags) -> OpenMode {
        OpenMode {
            read: flags.has(READ),
            write: flags.has(WRITE),
            truncate: flags.has(TRUNCATE),
            create: flags.has(CREATE),
            append: flags.has(APPEND),
        }
    }

    /// Open for writing, and in no other way.
    pub open spec fn write_only() -> OpenMode {
        OpenMode { read: false, write: true, truncate: false, create: false, append: false }
    }

    /// The way of opening that flags ask for.
    pub fn of_flags(flags: OpenFlags) -> (r: OpenMode)
        ensures
            r == OpenMode::asked_by(flags),
    {
        OpenMode {
            read: flags.contains(READ),
            write: flags.contains(WRITE),
            truncate: flags.contains(TRUNCATE),
            create: flags.contains(CREATE),
            append: flags.contains(APPEND),
        }
    }
}

} // verus!
