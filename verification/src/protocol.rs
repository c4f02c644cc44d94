//! What requests and replies are made of: plain values, which the server's transport turns
//! into packets and back.

use vstd::prelude::*;

use crate::text::text_view;

verus! {

/// The outcome that a reply reports.
#[derive(Clone, Copy, PartialEq, Eq, Structural, Debug)]
pub enum StatusCode {
    Success,
    Eof,
    NoSuchFile,
    PermissionDenied,
    Failure,
    BadMessage,
    NoConnection,
    ConnectionLost,
    OpUnsupported,
}

/// The answer to a request that gives nothing back but its outcome.
#[derive(PartialEq, Eq, Debug)]
pub struct Status {
    pub id: u32,
    pub status_code: StatusCode,
    pub error_message: String,
    pub language_tag: String,
}

/// The answer to a request that opened something.
#[derive(PartialEq, Eq, Debug)]
pub struct Handle {
    pub id: u32,
    pub handle: String,
}

/// What is known of a file or a directory.
#[derive(PartialEq, Eq, Debug)]
pub struct FileAttributes {
    pub size: Option<u64>,
    pub uid: Option<u32>,
    pub user: Option<String>,
    pub gid: Option<u32>,
    pub group: Option<String>,
    pub permissions: Option<u32>,
    pub atime: Option<u32>,
    pub mtime: Option<u32>,
}

/// A file or a directory by name.
#[derive(PartialEq, Eq, Debug)]
pub struct File {
    pub filename: String,
    /// The line that a long listing shows.
    pub longname: String,
    pub attrs: FileAttributes,
}

/// The answer to a request for names.
#[derive(PartialEq, Eq, Debug)]
pub struct Name {
    pub id: u32,
    pub files: Vec<File>,
}

/// The answer to a request for attributes.
#[derive(PartialEq, Eq, Debug)]
pub struct Attrs {
    pub id: u32,
    pub attrs: FileAttributes,
}

/// The answer to a request for a part of a file.
#[derive(PartialEq, Eq, Debug)]
pub struct Data {
    pub id: u32,
    pub data: Vec<u8>,
}

/// The answer to the first request of a session.
#[derive(PartialEq, Eq, Debug)]
pub struct Version {
    pub version: u32,
    pub extensions: std::collections::HashMap<String, String>,
}

/// The flags of a request to open a file.
#[derive(Clone, Copy, PartialEq, Eq, Structural, Debug)]
pub struct OpenFlags {
    pub bits: u32,
}

/// Open for reading.
pub const READ: u32 = 0x1;

/// Open for writing.
pub const WRITE: u32 = 0x2;

/// Write at the end of the file only.
pub const APPEND: u32 = 0x4;

/// Create the file if there is none.
pub const CREATE: u32 = 0x8;

/// Empty the file first.
pub const TRUNCATE: u32 = 0x10;

/// The permission bit of a directory.
pub const DIR: u32 = 0x4000;

/// Attributes by the texts that they hold.
pub struct FileAttributesView {
    pub size: Option<u64>,
    pub uid: Option<u32>,
    pub user: Option<Seq<char>>,
    pub gid: Option<u32>,
    pub group: Option<Seq<char>>,
    pub permissions: Option<u32>,
    pub atime: Option<u32>,
    pub mtime: Option<u32>,
}

impl View for FileAttributes {
    type V = FileAttributesView;

    open spec fn view(&self) -> FileAttributesView {
        FileAttributesView {
            size: self.size,
            uid: self.uid,
            user: text_view(self.user),
            gid: self.gid,
            group: text_view(self.group),
            permissions: self.permissions,
            atime: self.atime,
            mtime: self.mtime,
        }
    }
}

/// The line that `russh_sftp::protocol::File::longname` makes for a name and its attributes.
pub uninterp spec fn listing_line(filename: Seq<char>, attrs: FileAttributesView) -> Seq<char>;

/// `russh_sftp::protocol::File::longname` makes the line that a long listing shows. The line
/// depends on the name and the attributes alone: times are shown in UTC and without a locale.
#[verifier::external_body]
fn longname(filename: &str, attrs: &FileAttributes) -> (r: String)
    ensures
        r@ == listing_line(filename@, attrs@),
{
    let attrs = russh_sftp::protocol::FileAttributes {
        size: attrs.size,
        uid: attrs.uid,
        user: attrs.user.clone(),
        gid: attrs.gid,
        group: attrs.group.clone(),
        permissions: attrs.permissions,
        atime: attrs.atime,
        mtime: attrs.mtime,
    };
    let filename = filename.to_string();
    russh_sftp::protocol::File { filename, longname: String::new(), attrs }.longname()
}

/// The attributes that stand in where none are known: those of an empty directory that
/// anybody may use.
pub open spec fn dummy_attributes() -> FileAttributesView {
    FileAttributesView {
        size: Some(0),
        uid: Some(0),
        user: None,
        gid: Some(0),
        group: None,
        permissions: Some(0x41ff),
        atime: Some(0),
        mtime: Some(0),
    }
}

/// `russh_sftp::protocol::FileAttributes::default` gives dummy attributes: sizes, owners and
/// times of zero, and the permissions of a directory that anybody may use.
#[verifier::external_body]
fn default_attributes() -> (r: FileAttributes)
    ensures
        r@ == dummy_attributes(),
{
    let attrs = russh_sftp::protocol::FileAttributes::default();
    FileAttributes {
        size: attrs.size,
        uid: attrs.uid,
        user: attrs.user,
        gid: attrs.gid,
        group: attrs.group,
        permissions: attrs.permissions,
        atime: attrs.atime,
        mtime: attrs.mtime,
    }
}

impl Default for FileAttributes {
    fn default() -> (r: Self)
        ensures
            r@ == dummy_attributes(),
    {
        default_attributes()
    }
}

/// `russh_sftp::protocol::FileAttributes::set_dir`, called with `true`, adds the bit of a
/// directory to the permissions, which count as zero where there are none.
#[verifier::external_body]
fn with_dir_bit(permissions: Option<u32>) -> (r: Option<u32>)
    ensures
        r == Some((match permissions {
            Some(bits) => bits,
            None => 0u32,
        }) | DIR),
{
    let mut attrs = russh_sftp::protocol::FileAttributes::empty();
    attrs.permissions = permissions;
    attrs.set_dir(true);
    attrs.permissions
}

impl FileAttributes {
    /// Marks the attributes as those of a directory.
    pub fn set_dir(&mut self)
        ensures
            *final(self) == (FileAttributes {
                permissions: Some((match old(self).permissions {
                    Some(bits) => bits,
                    None => 0u32,
                }) | DIR),
                ..*old(self)
            }),
    {
        self.permissions = with_dir_bit(self.permissions);
    }
}

/// `russh_sftp::protocol::OpenFlags::contains` tells whether all bits of `flag` are set.
#[verifier::external_body]
fn flags_contain(bits: u32, flag: u32) -> (r: bool)
    ensures
        r == (bits & flag == flag),
{
    russh_sftp::protocol::OpenFlags::from_bits_retain(bits).contains(
        russh_sftp::protocol::OpenFlags::from_bits_retain(flag),
    )
}

impl OpenFlags {
    /// All bits of `flag` are set.
    pub open spec fn has(self, flag: u32) -> bool {
        self.bits & flag == flag
    }

    /// Whether all bits of `flag` are set.
    pub fn contains(&self, flag: u32) -> (r: bool)
        ensures
            r == self.has(flag),
    {
        flags_contain(self.bits, flag)
    }
}

/// `russh_sftp::protocol::Version::new` gives version 3 of the protocol and no extensions.
#[verifier::external_body]
fn protocol_version() -> (r: Version)
    ensures
        r.version == 3,
        r.extensions@.dom() == Set::<String>::empty(),
{
    let answer = russh_sftp::protocol::Version::new();
    Version { version: answer.version, extensions: answer.extensions }
}

impl Version {
    /// The version of the protocol that is spoken here, with no extensions.
    pub fn new() -> (r: Self)
        ensures
            r.version == 3,
            r.extensions@.dom() == Set::<String>::empty(),
    {
        protocol_version()
    }
}

/// A name with its attributes, not yet with the line of a long listing.
pub struct FileEx {
    pub filename: String,
    pub attrs: FileAttributes,
}

/// `file` is `filename` with the attributes `attrs` and the line that a long listing shows.
pub open spec fn lists(file: File, filename: Seq<char>, attrs: FileAttributesView) -> bool {
    &&& file.filename@ == filename
    &&& file.attrs@ == attrs
    &&& file.longname@ == listing_line(filename, attrs)
}

impl FileEx {
    /// The name with its attributes and the given line.
    pub fn with_longname(self, longname: String) -> (file: File)
        ensures
            file == (File { filename: self.filename, longname, attrs: self.attrs }),
    {
        File { filename: self.filename, longname, attrs: self.attrs }
    }

    /// The name with its attributes and the line that a long listing shows.
    pub fn into(self) -> (file: File)
        ensures
            lists(file, self.filename@, self.attrs@),
            file.filename == self.filename,
            file.attrs == self.attrs,
    {
        let longname = longname(self.filename.as_str(), &self.attrs);
        self.with_longname(longname)
    }
}

} // verus!
