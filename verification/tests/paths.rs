use solstice_sftp::full_path::{full_path, resolve, settle, LONGEST};
use solstice_sftp::text::{
    chars_of, extend, find_separator, is_separator, joined, part, segments, text_of, Separators,
};
use solstice_sftp::unix_path::{
    below_drive_path, canonizalize_unix_path_name, unix_like_path_to_windows_path,
};
use solstice_sftp::windows_path::{
    component_count, component_texts, is_dot, is_dot_dot, is_drive_at, is_separator_at,
    path_file_name, path_has_root, path_parent, push_path, read_prefix, PrefixKind,
};

/// The path of a text, told from other paths by its components.
fn path(text: &str) -> Vec<String> {
    component_texts(text)
}

/// The canonical form of a path name, as a path.
fn canonical(text: &str) -> Vec<String> {
    path(&canonizalize_unix_path_name(text))
}

/// The Windows path that a path name stands for.
fn windows(text: &str) -> Option<Vec<String>> {
    unix_like_path_to_windows_path(text).map(|text| path(&text))
}

#[test]
fn test_canonicalize_path_name() {
    assert_eq!(canonical("."), path("/"));
    assert_eq!(canonical("/"), path("/"));
    assert_eq!(canonical("/.."), path("/"));
    assert_eq!(canonical("/../.."), path("/"));
    assert_eq!(canonical("/C"), path("/C"));
    assert_eq!(canonical("/C/"), path("/C"));
    assert_eq!(canonical("/C/users/../.."), path("/"));
    assert_eq!(canonical("/C/users"), path("/C/users"));
    assert_eq!(canonical("/C/users/"), path("/C/users"));
    assert_eq!(canonical("/C/users/appdata/local/"), path("/C/users/appdata/local"));
    assert_eq!(canonical("/C/users/appdata/local/../"), path("/C/users/appdata"));
    assert_eq!(canonical("/C/users/.."), path("/C"));
    assert_eq!(canonical("/C/users/../."), path("/C"));
    assert_eq!(canonical("/C/../C/users/.././."), path("/C"));
}

#[test]
fn test_unix_style_to_windows_path() {
    assert_eq!(windows(""), None);
    assert_eq!(windows("C/"), None);
    assert_eq!(windows("C/Windows"), None);
    assert_eq!(windows("/").unwrap(), path("/"));
    assert_eq!(windows("/C").unwrap(), path("C:\\"));
    assert_eq!(windows("/C/").unwrap(), path("C:\\"));
    assert_eq!(windows("/C/./.").unwrap(), path("C:\\"));
    assert_eq!(windows("/C/././").unwrap(), path("C:\\"));
    assert_eq!(windows("/C/Windows").unwrap(), path("C:\\Windows"));
    assert_eq!(windows("/C/Windows/").unwrap(), path("C:\\Windows"));
    assert_eq!(windows("/C/./././Windows/").unwrap(), path("C:\\Windows"));
    assert_eq!(windows("/C/Windows/System32").unwrap(), path("C:\\Windows\\System32"));
    assert_eq!(windows("/C/Windows/System32/").unwrap(), path("C:\\Windows\\System32"));
    assert_eq!(windows("/C/Windows/././System32/").unwrap(), path("C:\\Windows\\System32"));
    assert_eq!(windows("/C/Windows/System32/..").unwrap(), path("C:\\Windows"));
    assert_eq!(windows("/C/Windows/System32/../").unwrap(), path("C:\\Windows"));
    assert_eq!(windows("/C/Windows/././System32/../").unwrap(), path("C:\\Windows"));
    assert_eq!(windows("/C/Windows/System32/../..").unwrap(), path("C:\\"));
    assert_eq!(windows("/C/Windows/System32/../../").unwrap(), path("C:\\"));
    assert_eq!(windows("/C/./././Windows/System32/../../").unwrap(), path("C:\\"));
}

/// The path `base` with `path` pushed onto it.
fn pushed(base: &str, path: &str) -> String {
    text_of(&push_path(chars_of(base), &chars_of(path)))
}

/// The kind of the prefix, and its text.
fn prefix(path: &str) -> (PrefixKind, String) {
    let chars = chars_of(path);
    let (kind, len) = read_prefix(&chars);
    (kind, text_of(&part(&chars, 0, len)))
}

/// The full form of a path, if it is settled.
fn full(path: &str) -> Option<String> {
    resolve(&chars_of(path)).map(|chars| text_of(&chars))
}

fn some(text: &str) -> Option<String> {
    Some(text.to_string())
}

#[test]
fn translated_paths_are_exact() {
    assert_eq!(unix_like_path_to_windows_path("/"), some("/"));
    assert_eq!(unix_like_path_to_windows_path("/C"), some("C:\\"));
    assert_eq!(unix_like_path_to_windows_path("/c/"), some("c:\\"));
    assert_eq!(unix_like_path_to_windows_path("/C/Windows"), some("C:\\Windows"));
    assert_eq!(unix_like_path_to_windows_path("/C/Windows/"), some("C:\\Windows\\"));
    assert_eq!(unix_like_path_to_windows_path("/C/Windows/.."), some("C:\\"));
    assert_eq!(unix_like_path_to_windows_path("/C/Windows/a/../"), some("C:\\Windows\\"));
    assert_eq!(unix_like_path_to_windows_path("/D/a//b/./c"), some("D:\\a\\b\\c"));
    assert_eq!(unix_like_path_to_windows_path("/D/Grüße/ß"), some("D:\\Grüße\\ß"));
}

#[test]
fn backslashes_part_names_too() {
    assert_eq!(unix_like_path_to_windows_path("/C/a\\..\\b"), some("C:\\b"));
    assert_eq!(unix_like_path_to_windows_path("/C/a\\b"), some("C:\\a\\b"));
    assert_eq!(unix_like_path_to_windows_path("/C/a/\\b"), some("C:\\b"));
}

#[test]
fn names_without_a_drive_are_the_root_of_the_tree() {
    assert_eq!(unix_like_path_to_windows_path("\\"), some("/"));
    assert_eq!(unix_like_path_to_windows_path("\\C"), some("/"));
}

#[test]
fn names_without_a_root_stand_for_nothing() {
    assert_eq!(unix_like_path_to_windows_path("."), None);
    assert_eq!(unix_like_path_to_windows_path("../C"), None);
    assert_eq!(unix_like_path_to_windows_path("C:"), None);
    assert_eq!(unix_like_path_to_windows_path("C:Windows/x"), None);
}

#[test]
fn a_later_segment_can_name_another_drive() {
    assert_eq!(unix_like_path_to_windows_path("/C/D:\\x/y"), some("D:\\x\\y"));
}

#[test]
fn ordinary_names_do_not_leave_their_drive() {
    assert_eq!(unix_like_path_to_windows_path("/C/../../x"), some("C:\\x"));
    assert_eq!(unix_like_path_to_windows_path("/C/a/../../../b/"), some("C:\\b\\"));
    assert_eq!(unix_like_path_to_windows_path("/C/a/C:\\x"), some("C:\\x"));
}

#[test]
fn idle_endings_change_nothing() {
    for name in ["/C", "/C/a", "/d/a b/c.txt"] {
        for ending in ["/", "/.", "/x/..", "/a.b/.."] {
            assert_eq!(windows(&(name.to_string() + ending)), windows(name));
        }
    }
}

#[test]
fn long_names_are_resolved_too() {
    let part = "/".to_string() + &"n".repeat(200);
    let name = "/C".to_string() + &part.repeat(150);
    let target = "C:".to_string() + &part.replace('/', "\\").repeat(150);
    assert_eq!(unix_like_path_to_windows_path(&name), Some(target.clone()));
    assert_eq!(unix_like_path_to_windows_path(&(name + "/x/..")), Some(target));
}

#[test]
fn segments_below_the_drive_are_pushed_one_by_one() {
    let list = segments(&chars_of("/C/a/./b"), Separators::Slash);
    assert_eq!(text_of(&below_drive_path(&list)), "C:\\a\\.\\b");
}

#[test]
fn canonical_names_are_exact() {
    assert_eq!(canonizalize_unix_path_name(""), "/");
    assert_eq!(canonizalize_unix_path_name("/C/users/"), "/C/users");
    assert_eq!(canonizalize_unix_path_name("./a"), "/a");
    assert_eq!(canonizalize_unix_path_name("a\\b/./c/../d"), "/a/b/d");
    assert_eq!(canonizalize_unix_path_name("\\C\\x"), "/C/x");
    assert_eq!(canonizalize_unix_path_name("C:/x"), "/C:/x");
    assert_eq!(canonizalize_unix_path_name("//server/share/x"), "///server/share/x");
    assert_eq!(canonizalize_unix_path_name("\\\\?\\C:\\a\\.\\b"), "/\\\\?\\C:/a/b");
}

#[test]
fn canonical_names_stay_what_they_are() {
    for name in ["", "/", "/C", "a/../b", "/C/users/../x/", "../..", "C\\y"] {
        let once = canonizalize_unix_path_name(name);
        assert_eq!(canonizalize_unix_path_name(&once), once);
    }
    assert_eq!(canonizalize_unix_path_name("\\\\?\\C:\\..\\a/b"), "/a/b");
    assert_eq!(canonizalize_unix_path_name("/a/b"), "/a/b");
    let once = canonizalize_unix_path_name("//server/share/x");
    assert_eq!(canonizalize_unix_path_name(&once), "/server/share/x");
}

#[test]
fn canonical_names_have_proper_parts() {
    assert_eq!(canonizalize_unix_path_name("/./C/./../.././d//e/."), "/d/e");
}

#[test]
fn canonical_names_stand_for_the_same_path() {
    for name in ["/C", "/C/", "/C/./a", "/C/a/../b/", "/c/x/y/../../z/."] {
        assert_eq!(windows(&canonizalize_unix_path_name(name)), windows(name));
    }
    assert_eq!(unix_like_path_to_windows_path("/C/a/../b/"), some("C:\\b\\"));
    assert_eq!(
        unix_like_path_to_windows_path(&canonizalize_unix_path_name("/C/a/../b/")),
        some("C:\\b")
    );
}

#[test]
fn prefixes_are_told_apart() {
    assert_eq!(prefix("C:\\x"), (PrefixKind::Disk, "C:".to_string()));
    assert_eq!(prefix("z:"), (PrefixKind::Disk, "z:".to_string()));
    assert_eq!(prefix("1:\\x"), (PrefixKind::Absent, String::new()));
    assert_eq!(prefix("\\\\s\\t\\x"), (PrefixKind::Unc, "\\\\s\\t".to_string()));
    assert_eq!(prefix("//s/t"), (PrefixKind::Unc, "//s/t".to_string()));
    assert_eq!(prefix("//s"), (PrefixKind::Absent, String::new()));
    assert_eq!(prefix("//s/"), (PrefixKind::Absent, String::new()));
    assert_eq!(prefix("///t"), (PrefixKind::Absent, String::new()));
    assert_eq!(prefix("\\\\.\\COM1\\x"), (PrefixKind::Device, "\\\\.\\COM1".to_string()));
    assert_eq!(prefix("\\\\?\\C:\\x"), (PrefixKind::Verbatim, "\\\\?\\C:".to_string()));
    assert_eq!(prefix("\\\\?\\pict\\x"), (PrefixKind::Verbatim, "\\\\?\\pict".to_string()));
    assert_eq!(
        prefix("\\\\?\\UNC\\s\\t\\x"),
        (PrefixKind::Verbatim, "\\\\?\\UNC\\s\\t".to_string())
    );
}

#[test]
fn roots_are_seen() {
    assert!(path_has_root(&chars_of("/")));
    assert!(path_has_root(&chars_of("\\x")));
    assert!(path_has_root(&chars_of("C:/")));
    assert!(path_has_root(&chars_of("//s/t")));
    assert!(!path_has_root(&chars_of("C:x")));
    assert!(!path_has_root(&chars_of("x/y")));
    assert!(!path_has_root(&chars_of("")));
}

#[test]
fn components_are_exact() {
    assert_eq!(component_texts("C:\\a/b"), ["C:", "\\", "a", "b"]);
    assert_eq!(component_texts("C:a"), ["C:", "a"]);
    assert_eq!(component_texts("./a/./b/../"), [".", "a", "b", ".."]);
    assert_eq!(component_texts("\\\\s\\t"), ["\\\\s\\t", "\\"]);
    assert_eq!(component_texts("\\\\.\\COM1\\x"), ["\\\\.\\COM1", "\\", "x"]);
    assert_eq!(component_texts("\\\\?\\C:\\a/b\\."), ["\\\\?\\C:", "\\", "a/b", "."]);
    assert!(component_texts("").is_empty());
}

#[test]
fn components_are_counted() {
    assert_eq!(component_count("/"), 1);
    assert_eq!(component_count("C:\\"), 2);
    assert_eq!(component_count("C:\\Windows"), 3);
    assert_eq!(component_count("C:\\Windows\\.\\"), 3);
}

#[test]
fn pushing_follows_the_kind_of_path() {
    assert_eq!(pushed("C:\\", "a"), "C:\\a");
    assert_eq!(pushed("C:\\a", "b"), "C:\\a\\b");
    assert_eq!(pushed("C:\\a", ""), "C:\\a\\");
    assert_eq!(pushed("C:\\a/", "b"), "C:\\a/b");
    assert_eq!(pushed("C:", "a"), "C:a");
    assert_eq!(pushed("C:\\a", "\\b"), "C:\\b");
    assert_eq!(pushed("C:\\a", "D:b"), "D:b");
    assert_eq!(pushed("", "a"), "a");
    assert_eq!(pushed("\\\\?\\C:\\a", "..\\.\\b"), "\\\\?\\C:\\b");
    assert_eq!(pushed("\\\\?\\C:\\a", "\\b"), "\\\\?\\C:\\b");
    assert_eq!(pushed("\\\\?\\C:\\", ".."), "\\\\?\\C:\\");
}

#[test]
fn parents_are_exact() {
    assert_eq!(path_parent("C:\\Windows\\System32"), some("C:\\Windows"));
    assert_eq!(path_parent("C:\\Windows\\System32\\"), some("C:\\Windows"));
    assert_eq!(path_parent("C:\\Windows//./"), some("C:\\"));
    assert_eq!(path_parent("C:\\"), None);
    assert_eq!(path_parent("C:"), None);
    assert_eq!(path_parent("/"), None);
    assert_eq!(path_parent(""), None);
    assert_eq!(path_parent("a"), some(""));
    assert_eq!(path_parent("."), some(""));
    assert_eq!(path_parent("a/.."), some("a"));
}

#[test]
fn parents_have_one_component_less() {
    for name in ["C:\\a", "C:\\a\\b\\", "a/b/c", "\\\\s\\t\\x", "./a"] {
        let whole = component_texts(name);
        let parent = component_texts(&path_parent(name).unwrap());
        assert_eq!(parent[..], whole[..whole.len() - 1]);
    }
}

#[test]
fn file_names_are_exact() {
    assert_eq!(path_file_name("C:\\Windows\\notepad.exe"), some("notepad.exe"));
    assert_eq!(path_file_name("C:\\Windows\\"), some("Windows"));
    assert_eq!(path_file_name("C:\\Windows\\."), some("Windows"));
    assert_eq!(path_file_name("C:\\"), None);
    assert_eq!(path_file_name("C:\\x\\.."), None);
    assert_eq!(path_file_name(""), None);
}

#[test]
fn full_forms_are_exact() {
    assert_eq!(full("C:\\a\\..\\b"), some("C:\\b"));
    assert_eq!(full("C:/a//./b/"), some("C:\\a\\b\\"));
    assert_eq!(full("C:\\..\\..\\"), some("C:\\"));
    assert_eq!(full("\\\\?\\C:\\a\\.."), some("\\\\?\\C:\\a\\.."));
}

#[test]
fn full_forms_stay_what_they_are() {
    for name in ["C:\\a\\..\\b", "c:/x/y/", "Z:\\", "\\\\?\\C:\\a\\.."] {
        let once = full(name).unwrap();
        assert_eq!(full(&once), Some(once.clone()));
    }
}

#[test]
fn some_paths_are_not_settled() {
    assert_eq!(full("a\\b"), None);
    assert_eq!(full("C:a"), None);
    assert_eq!(full("\\a"), None);
    assert_eq!(full("\\\\s\\t\\a"), None);
    assert_eq!(full("C:\\a."), None);
    assert_eq!(full("C:\\a \\b"), None);
    assert_eq!(full("C:\\..."), None);
    assert_eq!(full("C:\\a\0b"), None);
    assert_eq!(full(&("C:\\".to_string() + &"a".repeat(LONGEST))), None);
    let longest = "C:\\".to_string() + &"a".repeat(LONGEST - 3);
    assert_eq!(full(&longest), Some(longest.clone()));
    // A character beyond the first plane takes two units.
    let wide = "C:\\a".to_string() + &"\u{1f600}".repeat(16_381);
    assert_eq!(full(&wide), Some(wide.clone()));
    assert_eq!(full(&(wide + "a")), None);
}

#[test]
fn names_of_devices_are_not_settled() {
    assert_eq!(full("C:\\nul"), None);
    assert_eq!(full("C:\\Con.txt"), None);
    assert_eq!(full("C:\\x\\AUX :y"), None);
    assert_eq!(full("C:\\prn"), None);
    assert_eq!(full("C:\\CONIN$"), None);
    assert_eq!(full("C:\\conout$"), None);
    assert_eq!(full("C:\\com1"), None);
    assert_eq!(full("C:\\LPT\u{b9}.x"), None);
    assert_eq!(full("C:\\com10"), some("C:\\com10"));
    assert_eq!(full("C:\\conman"), some("C:\\conman"));
    assert_eq!(full("C:\\xcom1"), some("C:\\xcom1"));
}

#[test]
fn settled_paths_need_no_operating_system() {
    assert_eq!(settle("C:\\a\\..\\b".to_string(), some("D:\\other")), "C:\\b");
    assert_eq!(settle("C:\\a.".to_string(), some("C:\\a")), "C:\\a");
    assert_eq!(settle("C:\\a.".to_string(), None), "C:\\a.");
}

#[test]
fn other_paths_are_left_to_the_operating_system() {
    let native = std::path::absolute("notes").unwrap().to_string_lossy().into_owned();
    assert_eq!(full_path("notes".to_string()), native);
    assert_ne!(native, "notes");
    assert_eq!(full_path(String::new()), "");
}

#[test]
fn texts_are_parted_and_joined() {
    let list = segments(&chars_of("/a//b\\c"), Separators::Slash);
    let texts: Vec<String> = list.iter().map(text_of).collect();
    assert_eq!(texts, ["", "a", "", "b\\c"]);
    assert_eq!(text_of(&joined(&list, '/')), "/a//b\\c");
    assert_eq!(segments(&chars_of("a/b\\c"), Separators::Both).len(), 3);
    assert_eq!(segments(&chars_of("a/b\\c"), Separators::Backslash).len(), 2);
    assert_eq!(segments(&Vec::new(), Separators::Both).len(), 1);
    assert!(joined(&Vec::new(), '/').is_empty());
    let mut chars = chars_of("ab");
    extend(&mut chars, &chars_of("cd"));
    assert_eq!(text_of(&part(&chars, 1, 3)), "bc");
    assert_eq!(find_separator(&chars_of("ab/c"), 0, Separators::Slash), 2);
    assert_eq!(find_separator(&chars_of("ab/c"), 3, Separators::Slash), 4);
    assert!(is_separator(Separators::Both, '\\'));
    assert!(!is_separator(Separators::Slash, '\\'));
}

#[test]
fn small_parts_are_recognised() {
    assert!(is_drive_at(&chars_of("xC:"), 1));
    assert!(!is_drive_at(&chars_of("xC:"), 0));
    assert!(!is_drive_at(&chars_of("C"), 0));
    assert!(is_separator_at(&chars_of("a\\"), 1));
    assert!(!is_separator_at(&chars_of("a\\"), 2));
    assert!(is_dot(&chars_of(".")) && !is_dot(&chars_of("..")));
    assert!(is_dot_dot(&chars_of("..")) && !is_dot_dot(&chars_of("...")));
}
