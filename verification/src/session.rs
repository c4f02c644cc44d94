//! The session with one client: what each request leads to, and what each outcome that the
//! host reports leads to in turn.

use vstd::prelude::*;

use crate::handles::{HandleTable, InternalHandle, OurHandle};
use crate::protocol::{
    Attrs, Data, File, FileAttributes, FileEx, Handle, Name, OpenFlags, Status, StatusCode,
    Version, CREATE, DIR,
};
use crate::protocol::{dummy_attributes, lists, FileAttributesView};
use crate::steps::{
    CheckTask, DrivesTask, LinkEnd, LinkTask, ListTask, ListedEntry, OpenFile, OpenMode,
    OpenPurpose, OpenTask, ReadTask, Reply, RunTask, SizeTask, StatTask, Step,
};
use crate::text::text_view;
use crate::unix_path::{canonical_name, root_name, translates};
use crate::unix_path::{canonizalize_unix_path_name, unix_like_path_to_windows_path};
use crate::windows_path::{component_count, path_file_name, path_parent};
use crate::windows_path::{components, file_name, parent};

verus! {

/// What a session holds: the version of the protocol that the client named, if it has, and
/// what is open.
pub struct SftpSession<F> {
    version: Option<u32>,
    handles: HandleTable<F>,
}

/// What is open in a session, by handle.
pub type Handles<F> = Map<Seq<char>, InternalHandle<F>>;

/// The code of the letter `A`, which the first drive has.
pub const FIRST_DRIVE: u8 = 65;

/// `status` tells the client that request `id` succeeded.
pub open spec fn is_success(status: Status, id: u32) -> bool {
    &&& status.id == id
    &&& status.status_code == StatusCode::Success
    &&& status.error_message@ == "Ok"@
    &&& status.language_tag@ == "en-US"@
}

/// Request `id` ends with the reply that it succeeded.
pub open spec fn succeeds<F>(step: Step<F>, id: u32) -> bool {
    step matches Step::Done(Ok(Reply::Status(status))) && is_success(status, id)
}

/// The request ends with the code `code`.
pub open spec fn fails<F>(step: Step<F>, code: StatusCode) -> bool {
    step == Step::<F>::Done(Err(code))
}

/// `target` is what the path name `path` comes to.
pub open spec fn leads_to(path: String, target: Option<String>) -> bool {
    translates(path@, text_view(target))
}

/// The code that is owed where `handle` is used as an open file, if it is not one.
pub open spec fn not_a_file<F>(handles: Handles<F>, handle: Seq<char>) -> Option<StatusCode> {
    if !handles.contains_key(handle) {
        Some(StatusCode::BadMessage)
    } else if handles[handle].handle is Dir {
        Some(StatusCode::NoSuchFile)
    } else {
        None
    }
}

impl<F> SftpSession<F> {
    /// The session keeps its table of handles in order.
    pub closed spec fn wf(&self) -> bool {
        self.handles.wf()
    }

    /// The version that the client named.
    pub closed spec fn client_version(&self) -> Option<u32> {
        self.version
    }

    /// What is open.
    pub closed spec fn open_handles(&self) -> Handles<F> {
        self.handles@
    }

    /// A session in which nothing has happened yet.
    pub fn new() -> (r: Self)
        ensures
            r.wf(),
            r.client_version() is None,
            r.open_handles() == Map::<Seq<char>, InternalHandle<F>>::empty(),
    {
        SftpSession { version: None, handles: HandleTable::new() }
    }

    /// The reply that request `id` succeeded.
    pub fn success(&self, id: u32) -> (r: Status)
        ensures
            is_success(r, id),
    {
        Status {
            id,
            status_code: StatusCode::Success,
            error_message: "Ok".to_string(),
            language_tag: "en-US".to_string(),
        }
    }

    fn succeed(&self, id: u32) -> (r: Step<F>)
        ensures
            succeeds(r, id),
    {
        Step::Done(Ok(Reply::Status(self.success(id))))
    }

    /// The code for what is not implemented.
    pub fn unimplemented(&self) -> (r: StatusCode)
        ensures
            r == StatusCode::OpUnsupported,
    {
        StatusCode::OpUnsupported
    }

    /// The client names its version of the protocol, once. The extensions that it names with
    /// it are ignored.
    pub fn init(
        &mut self,
        version: u32,
        extensions: std::collections::HashMap<String, String>,
    ) -> (r: Result<Version, StatusCode>)
        requires
            old(self).wf(),
        ensures
            final(self).wf(),
            final(self).open_handles() == old(self).open_handles(),
            match old(self).client_version() {
                Some(_) => {
                    &&& r matches Err(code) && code == StatusCode::ConnectionLost
                    &&& final(self).client_version() == old(self).client_version()
                },
                None => {
                    &&& r matches Ok(answer) && answer.version == 3 && answer.extensions@.dom()
                        == Set::<String>::empty()
                    &&& final(self).client_version() == Some(version)
                },
            },
    {
        if self.version.is_some() {
            return Err(StatusCode::ConnectionLost);
        }
        self.version = Some(version);
        Ok(Version::new())
    }

    /// Closes a handle. One that is not open counts as closed.
    pub fn close(&mut self, id: u32, handle: String) -> (r: Result<Status, StatusCode>)
        requires
            old(self).wf(),
        ensures
            final(self).wf(),
            final(self).client_version() == old(self).client_version(),
            final(self).open_handles() == old(self).open_handles().remove(handle@),
            r matches Ok(status) && is_success(status, id),
    {
        self.handles.remove(&handle);
        Ok(self.success(id))
    }

    /// An extended request. None is known here.
    pub fn extended(&self, id: u32, request: String, data: Vec<u8>) -> (r: Result<
        Reply,
        StatusCode,
    >)
        ensures
            r == Err::<Reply, StatusCode>(StatusCode::OpUnsupported),
    {
        Err(self.unimplemented())
    }

    /// The open file behind a handle, to be read or written by the host.
    pub fn file(&mut self, handle: &String) -> (r: Result<&mut F, StatusCode>)
        requires
            old(self).wf(),
        ensures
            final(self).wf(),
            final(self).client_version() == old(self).client_version(),
            match r {
                Ok(file) => {
                    &&& not_a_file(old(self).open_handles(), handle@) is None
                    &&& old(self).open_handles()[handle@].handle == OurHandle::File(*file)
                    &&& final(self).open_handles() == old(self).open_handles().insert(
                        handle@,
                        InternalHandle {
                            path: old(self).open_handles()[handle@].path,
                            handle: OurHandle::File(*final(file)),
                        },
                    )
                },
                Err(code) => {
                    &&& not_a_file(old(self).open_handles(), handle@) == Some(code)
                    &&& final(self).open_handles() == old(self).open_handles()
                },
            },
    {
        match self.handles.get_mut(handle) {
            Some(entry) => entry.file(),
            None => Err(StatusCode::BadMessage),
        }
    }

    /// The code that is owed where `handle` is used as an open file, if it is not one.
    fn file_error(&self, handle: &String) -> (r: Option<StatusCode>)
        requires
            self.wf(),
        ensures
            r == not_a_file(self.open_handles(), handle@),
    {
        match self.handles.get(handle) {
            None => Some(StatusCode::BadMessage),
            Some(entry) => match &entry.handle {
                OurHandle::File(_) => None,
                OurHandle::Dir(_) => Some(StatusCode::NoSuchFile),
            },
        }
    }

    /// Opens a directory, which has to be one on disk.
    pub fn opendir(&self, id: u32, path: String) -> (step: Step<F>)
        ensures
            opendir_starts(id, path, step),
    {
        let target = unix_like_path_to_windows_path(path.as_str());
        proof {
            assert(leads_to(path, target));
        }
        match target {
            Some(target) => Step::Check(CheckTask::OpendirIsDir { id, path, target }),
            None => Step::Done(Err(StatusCode::NoSuchFile)),
        }
    }

    /// Lists an open directory, the first time. The root of the tree has the drives in it.
    pub fn readdir(&mut self, id: u32, handle: String) -> (step: Step<F>)
        requires
            old(self).wf(),
        ensures
            final(self).wf(),
            final(self).client_version() == old(self).client_version(),
            readdir_starts(
                old(self).open_handles(),
                id,
                handle,
                final(self).open_handles(),
                step,
            ),
    {
        proof {
            let before = self.handles@;
            if before.contains_key(handle@) {
                assert(before.insert(handle@, before[handle@]) =~= before);
            }
        }
        let entry = match self.handles.get_mut(&handle) {
            Some(entry) => entry,
            None => return Step::Done(Err(StatusCode::NoSuchFile)),
        };
        let read = match entry.directory() {
            Ok(read) => read,
            Err(code) => return Step::Done(Err(code)),
        };
        if *read {
            return Step::Done(Err(StatusCode::Eof));
        }
        *read = true;
        if is_root_name(&handle) {
            return Step::Drives(DrivesTask { id });
        }
        let target = unix_like_path_to_windows_path(handle.as_str());
        proof {
            assert(leads_to(handle, target));
        }
        match target {
            Some(target) => Step::Check(CheckTask::ReaddirExists { id, target }),
            None => Step::Done(Err(StatusCode::NoSuchFile)),
        }
    }

    /// A reply with one name in it.
    fn one_name(&self, id: u32, filename: String, attrs: Option<FileAttributes>) -> (step: Step<F>)
        ensures
            names_one(step, id, filename@, attributes_or_dummy(attrs)),
    {
        let attrs = match attrs {
            Some(attrs) => attrs,
            None => FileAttributes::default(),
        };
        let mut files: Vec<File> = Vec::new();
        files.push(FileEx { filename, attrs }.into());
        Step::Done(Ok(Reply::Name(Name { id, files })))
    }

    /// Brings a path name into its canonical form. The answer is that one name, with dummy
    /// attributes, whatever is on disk.
    pub fn realpath(&self, id: u32, path: String) -> (step: Step<F>)
        ensures
            names_one(step, id, canonical_name(path@), dummy_attributes()),
    {
        self.one_name(id, canonizalize_unix_path_name(path.as_str()), None)
    }

    /// Opens a file. There has to be one already, unless the flags ask for a new one. The
    /// attributes are ignored.
    pub fn open(
        &self,
        id: u32,
        filename: String,
        pflags: OpenFlags,
        attrs: FileAttributes,
    ) -> (step: Step<F>)
        ensures
            open_starts(id, filename, pflags, step),
    {
        let target = unix_like_path_to_windows_path(filename.as_str());
        proof {
            assert(leads_to(filename, target));
        }
        match target {
            Some(target) => Step::Check(
                CheckTask::OpenIsFile { id, filename, target, flags: pflags },
            ),
            None => Step::Done(Err(StatusCode::NoSuchFile)),
        }
    }

    /// Reads a part of an open file.
    pub fn read(&self, id: u32, handle: String, offset: u64, len: u32) -> (step: Step<F>)
        requires
            self.wf(),
        ensures
            read_starts(self.open_handles(), id, handle, offset, len, step),
    {
        match self.file_error(&handle) {
            Some(code) => Step::Done(Err(code)),
            None => Step::Size(SizeTask::ReadEnd { id, handle, offset, len }),
        }
    }

    /// Writes into an open file.
    pub fn write(&self, id: u32, handle: String, offset: u64, data: Vec<u8>) -> (step: Step<F>)
        requires
            self.wf(),
        ensures
            write_starts(self.open_handles(), id, handle, offset, data, step),
    {
        match self.file_error(&handle) {
            Some(code) => Step::Done(Err(code)),
            None => Step::Run(RunTask::WriteSeek { id, handle, offset, data }),
        }
    }

    /// The attributes of what a path name stands for. Links are followed.
    pub fn lstat(&self, id: u32, path: String) -> (step: Step<F>)
        ensures
            stat_starts(id, path, step),
    {
        self.stat(id, path)
    }

    /// The attributes of what a path name stands for. The root of the tree is on no disk and
    /// has dummy ones.
    pub fn stat(&self, id: u32, path: String) -> (step: Step<F>)
        ensures
            stat_starts(id, path, step),
    {
        let target = unix_like_path_to_windows_path(path.as_str());
        proof {
            assert(leads_to(path, target));
        }
        match target {
            Some(target) => if is_root_name(&path) {
                let attrs = FileAttributes::default();
                Step::Done(Ok(Reply::Attrs(Attrs { id, attrs })))
            } else {
                Step::Stat(StatTask::Path { id, target })
            },
            None => Step::Done(Err(StatusCode::NoSuchFile)),
        }
    }

    /// The attributes of an open file.
    pub fn fstat(&self, id: u32, handle: String) -> (step: Step<F>)
        requires
            self.wf(),
        ensures
            fstat_starts(self.open_handles(), id, handle, step),
    {
        match self.file_error(&handle) {
            Some(code) => Step::Done(Err(code)),
            None => Step::Stat(StatTask::Handle { id, handle }),
        }
    }

    /// Gives attributes to what a path name stands for.
    pub fn setstat(&self, id: u32, path: String, attrs: FileAttributes) -> (step: Step<F>)
        ensures
            setstat_starts(id, path, attrs, step),
    {
        let target = unix_like_path_to_windows_path(path.as_str());
        proof {
            assert(leads_to(path, target));
        }
        match target {
            Some(target) => Step::Check(CheckTask::SetstatIsFile { id, target, attrs }),
            None => Step::Done(Err(StatusCode::NoSuchFile)),
        }
    }

    /// Gives attributes to what a handle stands for. A directory takes none.
    pub fn fsetstat(&self, id: u32, handle: String, attrs: FileAttributes) -> (step: Step<F>)
        requires
            self.wf(),
        ensures
            fsetstat_starts(self.open_handles(), id, handle, attrs, step),
    {
        match self.handles.get(&handle) {
            None => Step::Done(Err(StatusCode::NoSuchFile)),
            Some(entry) => match &entry.handle {
                OurHandle::File(_) => Step::Size(
                    SizeTask::FileSize { id, file: OpenFile::Handle(handle), attrs },
                ),
                OurHandle::Dir(_) => self.succeed(id),
            },
        }
    }

    /// Removes a file.
    pub fn remove(&self, id: u32, path: String) -> (step: Step<F>)
        ensures
            remove_starts(id, path, step),
    {
        let target = unix_like_path_to_windows_path(path.as_str());
        proof {
            assert(leads_to(path, target));
        }
        match target {
            Some(target) => Step::Check(CheckTask::RemoveIsFile { id, target }),
            None => Step::Done(Err(StatusCode::NoSuchFile)),
        }
    }

    /// Makes a directory in one that is there. The attributes are ignored.
    pub fn mkdir(&self, id: u32, path: String, attrs: FileAttributes) -> (step: Step<F>)
        ensures
            mkdir_starts(id, path, step),
    {
        let target = unix_like_path_to_windows_path(path.as_str());
        proof {
            assert(leads_to(path, target));
        }
        match target {
            Some(target) => match path_parent(target.as_str()) {
                Some(parent) => Step::Check(CheckTask::MkdirParentIsDir { id, target, parent }),
                None => Step::Done(Err(StatusCode::PermissionDenied)),
            },
            None => Step::Done(Err(StatusCode::NoSuchFile)),
        }
    }

    /// Removes a directory, but never a drive.
    pub fn rmdir(&self, id: u32, path: String) -> (step: Step<F>)
        ensures
            rmdir_starts(id, path, step),
    {
        let target = unix_like_path_to_windows_path(path.as_str());
        proof {
            assert(leads_to(path, target));
        }
        match target {
            Some(target) => Step::Check(CheckTask::RmdirExists { id, target }),
            None => Step::Done(Err(StatusCode::NoSuchFile)),
        }
    }

    /// Gives another name to a file or a directory. The new name must not be in use.
    pub fn rename(&self, id: u32, oldpath: String, newpath: String) -> (step: Step<F>)
        ensures
            rename_starts(id, oldpath, newpath, step),
    {
        let source = unix_like_path_to_windows_path(oldpath.as_str());
        let translated = unix_like_path_to_windows_path(newpath.as_str());
        proof {
            assert(leads_to(oldpath, source));
            assert(leads_to(newpath, translated));
        }
        match source {
            Some(source) => Step::Check(
                CheckTask::RenameSourceExists { id, source, translated },
            ),
            None => Step::Done(Err(StatusCode::NoSuchFile)),
        }
    }

    /// Tells where a link leads.
    pub fn readlink(&self, id: u32, path: String) -> (step: Step<F>)
        ensures
            readlink_starts(id, path, step),
    {
        let target = unix_like_path_to_windows_path(path.as_str());
        proof {
            assert(leads_to(path, target));
        }
        match target {
            Some(target) => Step::Check(CheckTask::ReadlinkExists { id, target }),
            None => Step::Done(Err(StatusCode::NoSuchFile)),
        }
    }

    /// Links two path names. What is there is named by `targetpath`.
    pub fn symlink(&self, id: u32, linkpath: String, targetpath: String) -> (step: Step<F>)
        ensures
            symlink_starts(id, linkpath, targetpath, step),
    {
        let target = unix_like_path_to_windows_path(targetpath.as_str());
        let link = unix_like_path_to_windows_path(linkpath.as_str());
        proof {
            assert(leads_to(targetpath, target));
            assert(leads_to(linkpath, link));
        }
        match target {
            Some(target) => Step::Check(CheckTask::SymlinkTargetExists { id, target, link }),
            None => Step::Done(Err(StatusCode::Failure)),
        }
    }

    /// The host has told whether it is so.
    pub fn checked(&mut self, task: CheckTask, yes: bool) -> (step: Step<F>)
        requires
            old(self).wf(),
        ensures
            final(self).wf(),
            final(self).client_version() == old(self).client_version(),
            check_leads(old(self).open_handles(), task, yes, final(self).open_handles(), step),
    {
        match task {
            CheckTask::OpendirIsDir { id, path, target: _ } => {
                if !yes {
                    return Step::Done(Err(StatusCode::NoSuchFile));
                }
                self.handles.insert(path.clone(), InternalHandle::new_dir(&path));
                Step::Done(Ok(Reply::Handle(Handle { id, handle: path })))
            },
            CheckTask::ReaddirExists { id, target } => {
                if yes {
                    Step::List(ListTask { id, target })
                } else {
                    Step::Done(Err(StatusCode::NoSuchFile))
                }
            },
            CheckTask::OpenIsFile { id, filename, target, flags } => {
                if !yes && !flags.contains(CREATE) {
                    Step::Done(Err(StatusCode::NoSuchFile))
                } else {
                    Step::Check(CheckTask::OpenIsDir { id, filename, target, flags })
                }
            },
            CheckTask::OpenIsDir { id, filename, target, flags } => {
                if yes {
                    return Step::Done(Err(StatusCode::Failure));
                }
                let mode = OpenMode::of_flags(flags);
                Step::Open(
                    OpenTask { target, mode, purpose: OpenPurpose::Handle { id, filename } },
                )
            },
            CheckTask::SetstatIsFile { id, target, attrs } => {
                if !yes {
                    return self.succeed(id);
                }
                let mode = OpenMode {
                    read: false,
                    write: true,
                    truncate: false,
                    create: false,
                    append: false,
                };
                Step::Open(OpenTask { target, mode, purpose: OpenPurpose::Setstat { id, attrs } })
            },
            CheckTask::RemoveIsFile { id, target } => {
                if yes {
                    Step::Run(RunTask::RemoveFile { id, target })
                } else {
                    Step::Done(Err(StatusCode::PermissionDenied))
                }
            },
            CheckTask::MkdirParentIsDir { id, target, parent: _ } => {
                if yes {
                    Step::Run(RunTask::CreateDir { id, target })
                } else {
                    Step::Done(Err(StatusCode::PermissionDenied))
                }
            },
            CheckTask::RmdirExists { id, target } => {
                if yes {
                    Step::Check(CheckTask::RmdirIsDir { id, target })
                } else {
                    Step::Done(Err(StatusCode::NoSuchFile))
                }
            },
            CheckTask::RmdirIsDir { id, target } => {
                if !yes {
                    Step::Done(Err(StatusCode::NoSuchFile))
                } else if component_count(target.as_str()) <= 2 {
                    Step::Done(Err(StatusCode::PermissionDenied))
                } else {
                    Step::Run(RunTask::RemoveDir { id, target })
                }
            },
            CheckTask::RenameSourceExists { id, source, translated } => {
                if !yes {
                    return Step::Done(Err(StatusCode::NoSuchFile));
                }
                match translated {
                    Some(dest) => Step::Check(CheckTask::RenameDestExists { id, source, dest }),
                    None => Step::Done(Err(StatusCode::NoSuchFile)),
                }
            },
            CheckTask::RenameDestExists { id, source, dest } => {
                if yes {
                    Step::Done(Err(StatusCode::OpUnsupported))
                } else {
                    Step::Run(RunTask::Rename { id, source, dest })
                }
            },
            CheckTask::ReadlinkExists { id, target } => {
                if yes {
                    Step::Check(CheckTask::ReadlinkIsSymlink { id, target })
                } else {
                    Step::Done(Err(StatusCode::NoSuchFile))
                }
            },
            CheckTask::ReadlinkIsSymlink { id, target } => {
                if yes {
                    Step::Link(LinkTask { id, target })
                } else {
                    Step::Done(Err(StatusCode::OpUnsupported))
                }
            },
            CheckTask::SymlinkTargetExists { id, target, link } => {
                if !yes {
                    return Step::Done(Err(StatusCode::NoSuchFile));
                }
                match link {
                    Some(link) => Step::Run(
                        RunTask::HardLink { id, original: link, link: target },
                    ),
                    None => Step::Done(Err(StatusCode::Failure)),
                }
            },
        }
    }

    /// The host has done it, or failed to.
    pub fn ran(&self, task: RunTask<F>, done: bool) -> (step: Step<F>)
        ensures
            run_leads(task, done, step),
    {
        match task {
            RunTask::RemoveFile { .. } => {
                if done {
                    Step::Done(Err(StatusCode::Success))
                } else {
                    Step::Done(Err(StatusCode::Failure))
                }
            },
            RunTask::CreateDir { id, .. } => self.succeed_if(id, done, StatusCode::Failure),
            RunTask::RemoveDir { id, .. } => self.succeed_if(id, done, StatusCode::Failure),
            RunTask::Rename { id, .. } => self.succeed_if(id, done, StatusCode::OpUnsupported),
            RunTask::HardLink { id, .. } => self.succeed_if(id, done, StatusCode::Failure),
            RunTask::ReadSeek { id, handle, offset: _, len } => {
                if done {
                    let buffer: Vec<u8> = vec![0u8; len as usize];
                    proof {
                        assert(buffer@ =~= Seq::new(len as nat, |i: int| 0u8));
                    }
                    Step::Read(ReadTask { id, handle, buffer })
                } else {
                    Step::Done(Err(StatusCode::Failure))
                }
            },
            RunTask::WriteSeek { id, handle, offset: _, data } => {
                if done {
                    Step::Run(RunTask::WriteData { id, handle, data })
                } else {
                    Step::Done(Err(StatusCode::Failure))
                }
            },
            RunTask::WriteData { id, .. } => self.succeed_if(id, done, StatusCode::Failure),
            RunTask::SetLen { id, .. } => self.succeed_if(id, done, StatusCode::Failure),
        }
    }

    fn succeed_if(&self, id: u32, done: bool, code: StatusCode) -> (step: Step<F>)
        ensures
            succeeds_if(step, id, done, code),
    {
        if done {
            self.succeed(id)
        } else {
            Step::Done(Err(code))
        }
    }

    /// The host has read the attributes, or failed to.
    pub fn statted(&self, task: StatTask, attrs: Option<FileAttributes>) -> (step: Step<F>)
        ensures
            stat_leads(task, attrs, step),
    {
        match task {
            StatTask::Path { id, .. } => match attrs {
                Some(attrs) => Step::Done(Ok(Reply::Attrs(Attrs { id, attrs }))),
                None => Step::Done(Err(StatusCode::NoSuchFile)),
            },
            StatTask::Handle { id, .. } => match attrs {
                Some(attrs) => Step::Done(Ok(Reply::Attrs(Attrs { id, attrs }))),
                None => Step::Done(Err(StatusCode::NoSuchFile)),
            },
        }
    }

    /// The host has found out the size, or failed to.
    pub fn sized(&self, task: SizeTask<F>, size: Option<u64>) -> (step: Step<F>)
        ensures
            size_leads(task, size, step),
    {
        let size = match size {
            Some(size) => size,
            None => return Step::Done(Err(StatusCode::Failure)),
        };
        match task {
            SizeTask::ReadEnd { id, handle, offset, len } => {
                if offset >= size {
                    Step::Done(Err(StatusCode::Eof))
                } else {
                    Step::Run(RunTask::ReadSeek { id, handle, offset, len })
                }
            },
            SizeTask::FileSize { id, file, attrs } => match set_file_attributes(&attrs, size) {
                Some(size) => Step::Run(RunTask::SetLen { id, file, size }),
                None => self.succeed(id),
            },
        }
    }

    /// The host has opened the file, or failed to.
    pub fn opened(&mut self, task: OpenTask, file: Option<F>) -> (step: Step<F>)
        requires
            old(self).wf(),
        ensures
            final(self).wf(),
            final(self).client_version() == old(self).client_version(),
            open_leads(old(self).open_handles(), task, file, final(self).open_handles(), step),
    {
        match task.purpose {
            OpenPurpose::Handle { id, filename } => match file {
                Some(file) => {
                    let entry = InternalHandle {
                        path: task.target,
                        handle: OurHandle::File(file),
                    };
                    self.handles.insert(filename.clone(), entry);
                    Step::Done(Ok(Reply::Handle(Handle { id, handle: filename })))
                },
                None => Step::Done(Err(StatusCode::PermissionDenied)),
            },
            OpenPurpose::Setstat { id, attrs } => match file {
                Some(file) => Step::Size(
                    SizeTask::FileSize { id, file: OpenFile::Temporary(file), attrs },
                ),
                None => Step::Done(Err(StatusCode::NoSuchFile)),
            },
        }
    }

    /// The host has read so much into the buffer, or failed to.
    pub fn read_done(&self, task: ReadTask, read: Option<usize>) -> (step: Step<F>)
        ensures
            read_leads(task, read, step),
    {
        match read {
            Some(read) => {
                let mut data = task.buffer;
                data.truncate(read);
                Step::Done(Ok(Reply::Data(Data { id: task.id, data })))
            },
            None => Step::Done(Err(StatusCode::Failure)),
        }
    }

    /// The host has read the link, or failed to.
    pub fn link_read(&self, task: LinkTask, end: Option<LinkEnd>) -> (step: Step<F>)
        ensures
            link_leads(task, end, step),
    {
        match end {
            Some(end) => {
                let filename = match path_file_name(end.path.as_str()) {
                    Some(name) => name,
                    None => {
                        let mut root = String::new();
                        root.push('/');
                        proof {
                            assert(root@ == root_name());
                        }
                        root
                    },
                };
                self.one_name(task.id, filename, end.attrs)
            },
            None => Step::Done(Err(StatusCode::Failure)),
        }
    }

    /// The host has listed the directory, or failed to. An entry that could not be read is
    /// none, and the listing fails with it.
    pub fn listed(&self, task: ListTask, listing: Option<Vec<Option<ListedEntry>>>) -> (step:
        Step<F>)
        ensures
            list_leads(task, listing, step),
    {
        let entries = match listing {
            Some(entries) => entries,
            None => return Step::Done(Err(StatusCode::PermissionDenied)),
        };
        let mut files: Vec<File> = Vec::new();
        for entry in it: entries
            invariant
                it.seq() == entries@,
                listing == Some(entries),
                files@.len() == it.index(),
                forall|i: int|
                    0 <= i < files@.len() ==> #[trigger] entries@[i] is Some && lists_entry(
                        files@[i],
                        entries@[i]->0,
                    ),
        {
            match entry {
                Some(entry) => {
                    let attrs = match entry.attrs {
                        Some(attrs) => attrs,
                        None => FileAttributes::default(),
                    };
                    files.push(FileEx { filename: entry.name, attrs }.into());
                },
                None => {
                    proof {
                        assert(entries@[files@.len() as int] is None);
                    }
                    return Step::Done(Err(StatusCode::PermissionDenied));
                },
            }
        }
        Step::Done(Ok(Reply::Name(Name { id: task.id, files })))
    }

    /// The host has told the drives.
    pub fn drives_told(&self, task: DrivesTask, drives: u32) -> (step: Step<F>)
        ensures
            drives_lead(task, drives, step),
    {
        let mut files: Vec<File> = Vec::new();
        for i in 0..27u8
            invariant
                files@.len() == drive_names(drives, i as int).len(),
                forall|k: int|
                    0 <= k < files@.len() ==> lists(
                        #[trigger] files@[k],
                        drive_names(drives, i as int)[k],
                        drive_attributes(),
                    ),
        {
            if drives & (1u32 << i) != 0 {
                let mut filename = String::new();
                filename.push((FIRST_DRIVE + i) as char);
                let mut attrs = FileAttributes::default();
                attrs.set_dir();
                files.push(FileEx { filename, attrs }.into());
            }
        }
        Step::Done(Ok(Reply::Name(Name { id: task.id, files })))
    }
}

/// The path name is that of the root of the tree.
fn is_root_name(path: &String) -> (r: bool)
    ensures
        r == (path@ == root_name()),
{
    let mut root = String::new();
    root.push('/');
    proof {
        assert(root@ == root_name());
    }
    *path == root
}

/// The first step of opening a directory.
pub open spec fn opendir_starts<F>(id: u32, path: String, step: Step<F>) -> bool {
    exists|target: Option<String>| #[trigger]
        leads_to(path, target) && match target {
            Some(target) => step == Step::<F>::Check(
                CheckTask::OpendirIsDir { id, path, target },
            ),
            None => fails(step, StatusCode::NoSuchFile),
        }
}

/// The directory behind `handle` counts as read.
pub open spec fn mark_read<F>(handles: Handles<F>, handle: Seq<char>) -> Handles<F> {
    handles.insert(
        handle,
        InternalHandle { path: handles[handle].path, handle: OurHandle::Dir(true) },
    )
}

/// The first step of listing a directory. A handle that is not that of a directory is
/// refused; one that has been read is at its end; another one counts as read from now on,
/// whatever comes of it.
pub open spec fn readdir_starts<F>(
    before: Handles<F>,
    id: u32,
    handle: String,
    after: Handles<F>,
    step: Step<F>,
) -> bool {
    if !before.contains_key(handle@) || before[handle@].handle is File {
        fails(step, StatusCode::NoSuchFile) && after == before
    } else if before[handle@].handle == OurHandle::<F>::Dir(true) {
        fails(step, StatusCode::Eof) && after == before
    } else {
        &&& after == mark_read(before, handle@)
        &&& if handle@ == root_name() {
            step == Step::<F>::Drives(DrivesTask { id })
        } else {
            exists|target: Option<String>| #[trigger]
                leads_to(handle, target) && match target {
                    Some(target) => step == Step::<F>::Check(
                        CheckTask::ReaddirExists { id, target },
                    ),
                    None => fails(step, StatusCode::NoSuchFile),
                }
        }
    }
}

/// The attributes, or dummy ones where there are none.
pub open spec fn attributes_or_dummy(attrs: Option<FileAttributes>) -> FileAttributesView {
    match attrs {
        Some(attrs) => attrs@,
        None => dummy_attributes(),
    }
}

/// Request `id` ends with a reply that holds one name.
pub open spec fn names_one<F>(
    step: Step<F>,
    id: u32,
    filename: Seq<char>,
    attrs: FileAttributesView,
) -> bool {
    step matches Step::Done(Ok(Reply::Name(name))) && name.id == id && name.files@.len() == 1
        && lists(name.files@[0], filename, attrs)
}

/// Request `id` ends with a reply that holds attributes.
pub open spec fn tells<F>(step: Step<F>, id: u32, attrs: FileAttributesView) -> bool {
    step matches Step::Done(Ok(Reply::Attrs(reply))) && reply.id == id && reply.attrs@ == attrs
}

/// The first step of opening a file.
pub open spec fn open_starts<F>(
    id: u32,
    filename: String,
    flags: OpenFlags,
    step: Step<F>,
) -> bool {
    exists|target: Option<String>| #[trigger]
        leads_to(filename, target) && match target {
            Some(target) => step == Step::<F>::Check(
                CheckTask::OpenIsFile { id, filename, target, flags },
            ),
            None => fails(step, StatusCode::NoSuchFile),
        }
}

/// The first step of reading from a handle.
pub open spec fn read_starts<F>(
    handles: Handles<F>,
    id: u32,
    handle: String,
    offset: u64,
    len: u32,
    step: Step<F>,
) -> bool {
    match not_a_file(handles, handle@) {
        Some(code) => fails(step, code),
        None => step == Step::<F>::Size(SizeTask::ReadEnd { id, handle, offset, len }),
    }
}

/// The first step of writing to a handle.
pub open spec fn write_starts<F>(
    handles: Handles<F>,
    id: u32,
    handle: String,
    offset: u64,
    data: Vec<u8>,
    step: Step<F>,
) -> bool {
    match not_a_file(handles, handle@) {
        Some(code) => fails(step, code),
        None => step == Step::<F>::Run(RunTask::WriteSeek { id, handle, offset, data }),
    }
}

/// The first step of asking for the attributes of a handle.
pub open spec fn fstat_starts<F>(
    handles: Handles<F>,
    id: u32,
    handle: String,
    step: Step<F>,
) -> bool {
    match not_a_file(handles, handle@) {
        Some(code) => fails(step, code),
        None => step == Step::<F>::Stat(StatTask::Handle { id, handle }),
    }
}

/// The first step of asking for the attributes of a path name.
pub open spec fn stat_starts<F>(id: u32, path: String, step: Step<F>) -> bool {
    if path@ == root_name() {
        tells(step, id, dummy_attributes())
    } else {
        exists|target: Option<String>| #[trigger]
            leads_to(path, target) && match target {
                Some(target) => step == Step::<F>::Stat(StatTask::Path { id, target }),
                None => fails(step, StatusCode::NoSuchFile),
            }
    }
}

/// The first step of giving attributes to a path name.
pub open spec fn setstat_starts<F>(
    id: u32,
    path: String,
    attrs: FileAttributes,
    step: Step<F>,
) -> bool {
    exists|target: Option<String>| #[trigger]
        leads_to(path, target) && match target {
            Some(target) => step == Step::<F>::Check(
                CheckTask::SetstatIsFile { id, target, attrs },
            ),
            None => fails(step, StatusCode::NoSuchFile),
        }
}

/// The first step of giving attributes to a handle.
pub open spec fn fsetstat_starts<F>(
    handles: Handles<F>,
    id: u32,
    handle: String,
    attrs: FileAttributes,
    step: Step<F>,
) -> bool {
    if !handles.contains_key(handle@) {
        fails(step, StatusCode::NoSuchFile)
    } else if handles[handle@].handle is Dir {
        succeeds(step, id)
    } else {
        step == Step::<F>::Size(
            SizeTask::FileSize { id, file: OpenFile::Handle(handle), attrs },
        )
    }
}

/// The first step of removing a file.
pub open spec fn remove_starts<F>(id: u32, path: String, step: Step<F>) -> bool {
    exists|target: Option<String>| #[trigger]
        leads_to(path, target) && match target {
            Some(target) => step == Step::<F>::Check(CheckTask::RemoveIsFile { id, target }),
            None => fails(step, StatusCode::NoSuchFile),
        }
}

/// The first step of making a directory. A path without a parent, such as the root of a drive,
/// cannot be made.
pub open spec fn mkdir_starts<F>(id: u32, path: String, step: Step<F>) -> bool {
    exists|target: Option<String>| #[trigger]
        leads_to(path, target) && match target {
            Some(target) => match parent(target@) {
                Some(above) => step matches Step::Check(
                    CheckTask::MkdirParentIsDir { id: i, target: t, parent: p },
                ) && i == id && t == target && p@ == above,
                None => fails(step, StatusCode::PermissionDenied),
            },
            None => fails(step, StatusCode::NoSuchFile),
        }
}

/// The first step of removing a directory.
pub open spec fn rmdir_starts<F>(id: u32, path: String, step: Step<F>) -> bool {
    exists|target: Option<String>| #[trigger]
        leads_to(path, target) && match target {
            Some(target) => step == Step::<F>::Check(CheckTask::RmdirExists { id, target }),
            None => fails(step, StatusCode::NoSuchFile),
        }
}

/// The first step of renaming.
pub open spec fn rename_starts<F>(
    id: u32,
    oldpath: String,
    newpath: String,
    step: Step<F>,
) -> bool {
    exists|source: Option<String>, translated: Option<String>|
        #![trigger leads_to(oldpath, source), leads_to(newpath, translated)]
        leads_to(oldpath, source) && leads_to(newpath, translated) && match source {
            Some(source) => step == Step::<F>::Check(
                CheckTask::RenameSourceExists { id, source, translated },
            ),
            None => fails(step, StatusCode::NoSuchFile),
        }
}

/// The first step of reading a link.
pub open spec fn readlink_starts<F>(id: u32, path: String, step: Step<F>) -> bool {
    exists|target: Option<String>| #[trigger]
        leads_to(path, target) && match target {
            Some(target) => step == Step::<F>::Check(CheckTask::ReadlinkExists { id, target }),
            None => fails(step, StatusCode::NoSuchFile),
        }
}

/// The first step of linking two path names.
pub open spec fn symlink_starts<F>(
    id: u32,
    linkpath: String,
    targetpath: String,
    step: Step<F>,
) -> bool {
    exists|target: Option<String>, link: Option<String>|
        #![trigger leads_to(targetpath, target), leads_to(linkpath, link)]
        leads_to(targetpath, target) && leads_to(linkpath, link) && match target {
            Some(target) => step == Step::<F>::Check(
                CheckTask::SymlinkTargetExists { id, target, link },
            ),
            None => fails(step, StatusCode::Failure),
        }
}

/// The length that a file is to be cut to, if any. A file is never made longer.
pub open spec fn cut_to(attrs: FileAttributes, size: u64) -> Option<u64> {
    match attrs.size {
        Some(wanted) => if wanted <= size {
            Some(wanted)
        } else {
            None
        },
        None => None,
    }
}

/// What the attributes mean for a file of the given size: the length it is to be cut to.
pub fn set_file_attributes(target_attrs: &FileAttributes, size: u64) -> (r: Option<u64>)
    ensures
        r == cut_to(*target_attrs, size),
{
    match target_attrs.size {
        Some(wanted) => if wanted <= size {
            Some(wanted)
        } else {
            None
        },
        None => None,
    }
}

/// What the answer to a question leads to. Only an opened directory changes what is open.
pub open spec fn check_leads<F>(
    before: Handles<F>,
    task: CheckTask,
    yes: bool,
    after: Handles<F>,
    step: Step<F>,
) -> bool {
    match task {
        CheckTask::OpendirIsDir { id, path, .. } => if yes {
            &&& after == before.insert(
                path@,
                InternalHandle { path, handle: OurHandle::Dir(false) },
            )
            &&& step == Step::<F>::Done(Ok(Reply::Handle(Handle { id, handle: path })))
        } else {
            fails(step, StatusCode::NoSuchFile) && after == before
        },
        _ => after == before && question_leads(task, yes, step),
    }
}

/// What the answer to a question leads to, where it is not about opening a directory.
pub open spec fn question_leads<F>(task: CheckTask, yes: bool, step: Step<F>) -> bool {
    match task {
        CheckTask::OpendirIsDir { .. } => true,
        CheckTask::ReaddirExists { id, target } => if yes {
            step == Step::<F>::List(ListTask { id, target })
        } else {
            fails(step, StatusCode::NoSuchFile)
        },
        CheckTask::OpenIsFile { id, filename, target, flags } => if yes || flags.has(CREATE) {
            step == Step::<F>::Check(CheckTask::OpenIsDir { id, filename, target, flags })
        } else {
            fails(step, StatusCode::NoSuchFile)
        },
        CheckTask::OpenIsDir { id, filename, target, flags } => if yes {
            fails(step, StatusCode::Failure)
        } else {
            step == Step::<F>::Open(
                OpenTask {
                    target,
                    mode: OpenMode::asked_by(flags),
                    purpose: OpenPurpose::Handle { id, filename },
                },
            )
        },
        CheckTask::SetstatIsFile { id, target, attrs } => if yes {
            step == Step::<F>::Open(
                OpenTask {
                    target,
                    mode: OpenMode::write_only(),
                    purpose: OpenPurpose::Setstat { id, attrs },
                },
            )
        } else {
            succeeds(step, id)
        },
        CheckTask::RemoveIsFile { id, target } => if yes {
            step == Step::Run(RunTask::<F>::RemoveFile { id, target })
        } else {
            fails(step, StatusCode::PermissionDenied)
        },
        CheckTask::MkdirParentIsDir { id, target, .. } => if yes {
            step == Step::Run(RunTask::<F>::CreateDir { id, target })
        } else {
            fails(step, StatusCode::PermissionDenied)
        },
        CheckTask::RmdirExists { id, target } => if yes {
            step == Step::<F>::Check(CheckTask::RmdirIsDir { id, target })
        } else {
            fails(step, StatusCode::NoSuchFile)
        },
        CheckTask::RmdirIsDir { id, target } => if !yes {
            fails(step, StatusCode::NoSuchFile)
        } else if components(target@).len() <= 2 {
            fails(step, StatusCode::PermissionDenied)
        } else {
            step == Step::Run(RunTask::<F>::RemoveDir { id, target })
        },
        CheckTask::RenameSourceExists { id, source, translated } => match translated {
            Some(dest) if yes => step == Step::<F>::Check(
                CheckTask::RenameDestExists { id, source, dest },
            ),
            _ => fails(step, StatusCode::NoSuchFile),
        },
        CheckTask::RenameDestExists { id, source, dest } => if yes {
            fails(step, StatusCode::OpUnsupported)
        } else {
            step == Step::Run(RunTask::<F>::Rename { id, source, dest })
        },
        CheckTask::ReadlinkExists { id, target } => if yes {
            step == Step::<F>::Check(CheckTask::ReadlinkIsSymlink { id, target })
        } else {
            fails(step, StatusCode::NoSuchFile)
        },
        CheckTask::ReadlinkIsSymlink { id, target } => if yes {
            step == Step::<F>::Link(LinkTask { id, target })
        } else {
            fails(step, StatusCode::OpUnsupported)
        },
        CheckTask::SymlinkTargetExists { id, target, link } => if !yes {
            fails(step, StatusCode::NoSuchFile)
        } else {
            match link {
                Some(link) => step == Step::Run(
                    RunTask::<F>::HardLink { id, original: link, link: target },
                ),
                None => fails(step, StatusCode::Failure),
            }
        },
    }
}

/// Request `id` succeeds if the task was done, else it ends with `code`.
pub open spec fn succeeds_if<F>(step: Step<F>, id: u32, done: bool, code: StatusCode) -> bool {
    if done {
        succeeds(step, id)
    } else {
        fails(step, code)
    }
}

/// What a task that was done, or failed, leads to. The reply to the removal of a file is a
/// bare code, also where it succeeded.
pub open spec fn run_leads<F>(task: RunTask<F>, done: bool, step: Step<F>) -> bool {
    match task {
        RunTask::RemoveFile { .. } => fails(
            step,
            if done {
                StatusCode::Success
            } else {
                StatusCode::Failure
            },
        ),
        RunTask::CreateDir { id, .. } => succeeds_if(step, id, done, StatusCode::Failure),
        RunTask::RemoveDir { id, .. } => succeeds_if(step, id, done, StatusCode::Failure),
        RunTask::Rename { id, .. } => succeeds_if(step, id, done, StatusCode::OpUnsupported),
        RunTask::HardLink { id, .. } => succeeds_if(step, id, done, StatusCode::Failure),
        RunTask::ReadSeek { id, handle, len, .. } => if done {
            step matches Step::Read(task) && task.id == id && task.handle == handle
                && task.buffer@ == Seq::new(len as nat, |i: int| 0u8)
        } else {
            fails(step, StatusCode::Failure)
        },
        RunTask::WriteSeek { id, handle, data, .. } => if done {
            step == Step::Run(RunTask::<F>::WriteData { id, handle, data })
        } else {
            fails(step, StatusCode::Failure)
        },
        RunTask::WriteData { id, .. } => succeeds_if(step, id, done, StatusCode::Failure),
        RunTask::SetLen { id, .. } => succeeds_if(step, id, done, StatusCode::Failure),
    }
}

/// What attributes, or the lack of them, lead to.
pub open spec fn stat_leads<F>(
    task: StatTask,
    attrs: Option<FileAttributes>,
    step: Step<F>,
) -> bool {
    match task {
        StatTask::Path { id, .. } => tells_if_any(step, id, attrs),
        StatTask::Handle { id, .. } => tells_if_any(step, id, attrs),
    }
}

/// Request `id` ends with a reply that holds the attributes, if there are any.
pub open spec fn tells_if_any<F>(step: Step<F>, id: u32, attrs: Option<FileAttributes>) -> bool {
    match attrs {
        Some(attrs) => step == Step::<F>::Done(Ok(Reply::Attrs(Attrs { id, attrs }))),
        None => fails(step, StatusCode::NoSuchFile),
    }
}

/// What a size, or the lack of one, leads to. Nothing is read at or past the end of a file.
pub open spec fn size_leads<F>(task: SizeTask<F>, size: Option<u64>, step: Step<F>) -> bool {
    match size {
        None => fails(step, StatusCode::Failure),
        Some(size) => match task {
            SizeTask::ReadEnd { id, handle, offset, len } => if offset >= size {
                fails(step, StatusCode::Eof)
            } else {
                step == Step::Run(RunTask::<F>::ReadSeek { id, handle, offset, len })
            },
            SizeTask::FileSize { id, file, attrs } => match cut_to(attrs, size) {
                Some(size) => step == Step::Run(RunTask::<F>::SetLen { id, file, size }),
                None => succeeds(step, id),
            },
        },
    }
}

/// What an opened file, or the lack of one, leads to. A handle is the name by which the file
/// was asked for.
pub open spec fn open_leads<F>(
    before: Handles<F>,
    task: OpenTask,
    file: Option<F>,
    after: Handles<F>,
    step: Step<F>,
) -> bool {
    match (task.purpose, file) {
        (OpenPurpose::Handle { id, filename }, Some(file)) => {
            &&& after == before.insert(
                filename@,
                InternalHandle { path: task.target, handle: OurHandle::File(file) },
            )
            &&& step == Step::<F>::Done(Ok(Reply::Handle(Handle { id, handle: filename })))
        },
        (OpenPurpose::Handle { .. }, None) => {
            fails(step, StatusCode::PermissionDenied) && after == before
        },
        (OpenPurpose::Setstat { id, attrs }, Some(file)) => {
            &&& after == before
            &&& step == Step::Size(
                SizeTask::FileSize { id, file: OpenFile::Temporary(file), attrs },
            )
        },
        (OpenPurpose::Setstat { .. }, None) => {
            fails(step, StatusCode::NoSuchFile) && after == before
        },
    }
}

/// What was read is what is sent, and no more than was read.
pub open spec fn read_leads<F>(task: ReadTask, read: Option<usize>, step: Step<F>) -> bool {
    match read {
        Some(read) => step matches Step::Done(Ok(Reply::Data(reply))) && reply.id == task.id
            && reply.data@ == if read <= task.buffer@.len() {
            task.buffer@.take(read as int)
        } else {
            task.buffer@
        },
        None => fails(step, StatusCode::Failure),
    }
}

/// What the end of a link, or the lack of one, leads to: its name, or the root of the tree
/// where it has none.
pub open spec fn link_leads<F>(task: LinkTask, end: Option<LinkEnd>, step: Step<F>) -> bool {
    match end {
        Some(end) => names_one(
            step,
            task.id,
            match file_name(end.path@) {
                Some(name) => name,
                None => root_name(),
            },
            attributes_or_dummy(end.attrs),
        ),
        None => fails(step, StatusCode::Failure),
    }
}

/// `file` is the entry of a directory.
pub open spec fn lists_entry(file: File, entry: ListedEntry) -> bool {
    lists(file, entry.name@, attributes_or_dummy(entry.attrs))
}

/// What a listing, or the lack of one, leads to: all entries in order, or nothing.
pub open spec fn list_leads<F>(
    task: ListTask,
    listing: Option<Vec<Option<ListedEntry>>>,
    step: Step<F>,
) -> bool {
    match listing {
        Some(listing) if forall|i: int|
            0 <= i < listing@.len() ==> #[trigger] listing@[i] is Some => {
            &&& step matches Step::Done(Ok(Reply::Name(name)))
            &&& name.id == task.id
            &&& name.files@.len() == listing@.len()
            &&& forall|i: int|
                0 <= i < listing@.len() ==> lists_entry(
                    #[trigger] name.files@[i],
                    listing@[i]->0,
                )
        },
        _ => fails(step, StatusCode::PermissionDenied),
    }
}

/// There is a drive behind the letter that is the `i`th after `A`.
pub open spec fn drive_told(drives: u32, i: int) -> bool {
    drives & (1u32 << i as u8) != 0
}

/// The names of the drives that are told, of the first `n` letters, in order.
pub open spec fn drive_names(drives: u32, n: int) -> Seq<Seq<char>>
    decreases n,
{
    if n <= 0 {
        Seq::empty()
    } else if drive_told(drives, n - 1) {
        drive_names(drives, n - 1).push(seq![(FIRST_DRIVE + n - 1) as u8 as char])
    } else {
        drive_names(drives, n - 1)
    }
}

/// The attributes of a drive: dummy ones, marked as those of a directory.
pub open spec fn drive_attributes() -> FileAttributesView {
    FileAttributesView { permissions: Some(0x41ffu32 | DIR), ..dummy_attributes() }
}

/// What the drives lead to: one directory for each.
pub open spec fn drives_lead<F>(task: DrivesTask, drives: u32, step: Step<F>) -> bool {
    &&& step matches Step::Done(Ok(Reply::Name(name)))
    &&& name.id == task.id
    &&& name.files@.len() == drive_names(drives, 27).len()
    &&& forall|k: int|
        0 <= k < name.files@.len() ==> lists(
            #[trigger] name.files@[k],
            drive_names(drives, 27)[k],
            drive_attributes(),
        )
}

} // verus!
