use solstice_sftp::handles::{HandleTable, InternalHandle, OurHandle};
use solstice_sftp::protocol::{
    FileAttributes, FileEx, OpenFlags, StatusCode, Version, APPEND, CREATE, DIR, READ, TRUNCATE,
    WRITE,
};
use solstice_sftp::steps::OpenMode;

/// Attributes of which nothing is known.
fn unknown() -> FileAttributes {
    FileAttributes {
        size: None,
        uid: None,
        user: None,
        gid: None,
        group: None,
        permissions: None,
        atime: None,
        mtime: None,
    }
}

#[test]
fn dummy_attributes_are_those_of_a_directory() {
    let attrs = FileAttributes::default();
    assert_eq!(
        attrs,
        FileAttributes {
            size: Some(0),
            uid: Some(0),
            gid: Some(0),
            permissions: Some(0o40777),
            atime: Some(0),
            mtime: Some(0),
            ..unknown()
        }
    );
}

#[test]
fn directories_are_marked() {
    let mut attrs = unknown();
    attrs.set_dir();
    assert_eq!(attrs, FileAttributes { permissions: Some(DIR), ..unknown() });
    attrs.permissions = Some(0o644);
    attrs.size = Some(7);
    attrs.set_dir();
    assert_eq!(
        attrs,
        FileAttributes { permissions: Some(0o40644), size: Some(7), ..unknown() }
    );
}

#[test]
fn listing_lines_are_exact() {
    let attrs = FileAttributes {
        size: Some(1234),
        user: Some("ann".to_string()),
        gid: Some(5),
        permissions: Some(0o100640),
        mtime: Some(86_400),
        ..unknown()
    };
    let file = FileEx { filename: "notes.txt".to_string(), attrs }.into();
    assert_eq!(file.filename, "notes.txt");
    assert_eq!(file.longname, "-rw-r----- 0 ann 5 1234 Jan 02 1970 00:00 notes.txt");
    assert_eq!(file.attrs.size, Some(1234));
    let file = FileEx { filename: "C".to_string(), attrs: FileAttributes::default() }.into();
    assert_eq!(file.longname, "drwxrwxrwx 0 0 0 0 Jan 01 1970 00:00 C");
}

#[test]
fn a_given_line_is_kept() {
    let file = FileEx { filename: "a".to_string(), attrs: unknown() }
        .with_longname("line".to_string());
    assert_eq!(file.filename, "a");
    assert_eq!(file.longname, "line");
    assert_eq!(file.attrs, unknown());
}

#[test]
fn flags_have_the_bits_of_the_protocol() {
    assert_eq!(READ, russh_sftp::protocol::OpenFlags::READ.bits());
    assert_eq!(WRITE, russh_sftp::protocol::OpenFlags::WRITE.bits());
    assert_eq!(APPEND, russh_sftp::protocol::OpenFlags::APPEND.bits());
    assert_eq!(CREATE, russh_sftp::protocol::OpenFlags::CREATE.bits());
    assert_eq!(TRUNCATE, russh_sftp::protocol::OpenFlags::TRUNCATE.bits());
    assert_eq!(DIR, russh_sftp::protocol::FileMode::DIR.bits());
}

#[test]
fn flags_are_told_apart() {
    let flags = OpenFlags { bits: WRITE | CREATE | 0x80 };
    assert!(flags.contains(WRITE));
    assert!(flags.contains(WRITE | CREATE));
    assert!(!flags.contains(READ));
    assert!(!flags.contains(READ | WRITE));
    assert!(flags.contains(0));
}

#[test]
fn flags_become_a_way_of_opening() {
    assert_eq!(
        OpenMode::of_flags(OpenFlags { bits: READ | APPEND }),
        OpenMode { read: true, write: false, truncate: false, create: false, append: true }
    );
    assert_eq!(
        OpenMode::of_flags(OpenFlags { bits: WRITE | CREATE | TRUNCATE }),
        OpenMode { read: false, write: true, truncate: true, create: true, append: false }
    );
}

#[test]
fn the_third_version_is_spoken() {
    let version = Version::new();
    assert_eq!(version.version, 3);
    assert!(version.extensions.is_empty());
}

#[test]
fn entries_are_files_or_directories() {
    let mut dir: InternalHandle<u32> = InternalHandle::new_dir(&"/C".to_string());
    assert_eq!(dir.path, "/C");
    assert_eq!(dir.file(), Err(StatusCode::NoSuchFile));
    assert_eq!(dir.directory(), Ok(&mut false));
    *dir.directory().unwrap() = true;
    assert!(matches!(dir.handle, OurHandle::Dir(true)));
    let mut file = InternalHandle { path: "C:\\x".to_string(), handle: OurHandle::File(7u32) };
    assert_eq!(file.directory(), Err(StatusCode::NoSuchFile));
    *file.file().unwrap() += 1;
    assert!(matches!(file.handle, OurHandle::File(8)));
}

#[test]
fn tables_hold_each_name_once() {
    let file = |n: u32| InternalHandle { path: "C:\\x".to_string(), handle: OurHandle::File(n) };
    let number = |entry: Option<&InternalHandle<u32>>| match entry {
        Some(entry) => match entry.handle {
            OurHandle::File(n) => Some(n),
            OurHandle::Dir(_) => None,
        },
        None => None,
    };
    let a = "a".to_string();
    let b = "b".to_string();
    let mut table: HandleTable<u32> = HandleTable::new();
    assert!(table.get(&a).is_none());
    assert!(table.get_mut(&a).is_none());
    table.insert(a.clone(), file(1));
    table.insert(b.clone(), file(2));
    table.insert(a.clone(), file(3));
    assert_eq!(number(table.get(&a)), Some(3));
    assert_eq!(number(table.get(&b)), Some(2));
    table.get_mut(&b).unwrap().handle = OurHandle::File(4);
    assert_eq!(number(table.get(&b)), Some(4));
    table.remove(&a);
    assert!(table.get(&a).is_none());
    assert_eq!(number(table.get(&b)), Some(4));
    table.remove(&a);
    table.remove(&b);
    assert!(table.get(&b).is_none());
}
