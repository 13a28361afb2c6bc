use std::path::Path;

use autocheck::paths::{path_extension, path_file_name, path_join, path_parent, Platform};

const SAMPLES: [&str; 34] = [
    "", "/", "//", ".", "./", "./.", "..", "../", "/.", "/..", "a", "a/", "a/.", "a/./", "./a",
    ".//a", "a/b", "a//b", "a/../b", "/a", "/a/", "/a/b.rs", "/a/b.tar.gz", ".git", "/x/.git",
    "x.", "a/.b.c", "a/..", "a/b/..", "/a//b/./c", "...", "a/...", ".a/", "./..",
];

#[test]
fn file_names_are_those_of_std() {
    for p in SAMPLES {
        let want = Path::new(p).file_name().map(|n| n.to_str().unwrap().to_string());
        assert_eq!(path_file_name(p, Platform::Unix), want, "{p:?}");
    }
}

#[test]
fn extensions_are_those_of_std() {
    for p in SAMPLES {
        let want = Path::new(p).extension().map(|n| n.to_str().unwrap().to_string());
        assert_eq!(path_extension(p, Platform::Unix), want, "{p:?}");
    }
}

#[test]
fn parents_are_those_of_std() {
    for p in SAMPLES {
        let want = Path::new(p).parent().map(|n| n.to_str().unwrap().to_string());
        assert_eq!(path_parent(p, Platform::Unix), want, "{p:?}");
    }
}

#[test]
fn joins_are_those_of_std() {
    for base in SAMPLES {
        for rel in SAMPLES {
            let want = Path::new(base).join(rel).to_str().unwrap().to_string();
            assert_eq!(path_join(base, rel, Platform::Unix), want, "{base:?} {rel:?}");
        }
    }
}

#[test]
fn a_backslash_separates_on_windows_only() {
    let name = |p: &str| path_file_name(p, Platform::Windows);
    assert_eq!(name("C:\\a\\b.rs"), Some("b.rs".to_string()));
    assert_eq!(name("C:/a/b.rs"), Some("b.rs".to_string()));
    assert_eq!(name("C:\\"), None);
    assert_eq!(name("C:"), None);
    assert_eq!(path_extension("C:\\a.b\\c", Platform::Windows), None);
    assert_eq!(path_file_name("a\\b.rs", Platform::Unix), Some("a\\b.rs".to_string()));
}

#[test]
fn parents_end_at_the_root_of_the_drive() {
    let parent = |p: &str| path_parent(p, Platform::Windows);
    let some = |p: &str| Some(p.to_string());
    assert_eq!(parent("C:\\a\\b.rs"), some("C:\\a"));
    assert_eq!(parent("C:\\a"), some("C:\\"));
    assert_eq!(parent("C:\\"), None);
    assert_eq!(parent("C:a"), some("C:"));
    assert_eq!(parent("C:."), None);
    assert_eq!(parent("C:"), None);
    assert_eq!(parent("a\\b"), some("a"));
    assert_eq!(parent("\\a"), some("\\"));
    assert_eq!(parent("1:\\a"), some("1:"));
}

#[test]
fn joins_keep_the_drive() {
    let join = |base: &str, rel: &str| path_join(base, rel, Platform::Windows);
    assert_eq!(join("C:\\a", "b"), "C:\\a\\b");
    assert_eq!(join("C:\\a\\", "b"), "C:\\a\\b");
    assert_eq!(join("C:/a/", "b"), "C:/a/b");
    assert_eq!(join("C:\\a", "D:\\b"), "D:\\b");
    assert_eq!(join("C:\\a", "\\b"), "C:\\b");
    assert_eq!(join("C:\\a", "/b"), "C:/b");
    assert_eq!(join("C:", "b"), "C:b");
    assert_eq!(join("", "b"), "b");
}

#[test]
fn shares_and_devices_have_a_root() {
    let parent = |p: &str| path_parent(p, Platform::Windows);
    let name = |p: &str| path_file_name(p, Platform::Windows);
    let some = |p: &str| Some(p.to_string());
    assert_eq!(parent(r"\\server\share\foo\bar"), some(r"\\server\share\foo"));
    assert_eq!(parent(r"\\server\share\foo"), some(r"\\server\share\"));
    assert_eq!(parent("//server/share/foo"), some("//server/share/"));
    assert_eq!(parent(r"\\server\share\"), None);
    assert_eq!(parent(r"\\server\share"), None);
    assert_eq!(name(r"\\server\share"), None);
    // Without a share it is no prefix.
    assert_eq!(parent(r"\\server"), some(r"\"));
    assert_eq!(name(r"\\server"), some("server"));
    assert_eq!(parent(r"\\.\foo\bar"), some(r"\\.\foo\"));
    assert_eq!(parent(r"\\.\foo/bar"), some(r"\\.\foo/"));
    assert_eq!(name(r"\\.\foo/bar"), some("bar"));
    assert_eq!(parent(r"\\.\foo"), None);
    assert_eq!(parent(r"\\.\"), None);
}

#[test]
fn verbatim_paths_are_parted_by_backslashes_only() {
    let parent = |p: &str| path_parent(p, Platform::Windows);
    let name = |p: &str| path_file_name(p, Platform::Windows);
    let some = |p: &str| Some(p.to_string());
    assert_eq!(parent(r"\\?\bar\foo.txt"), some(r"\\?\bar\"));
    assert_eq!(name(r"\\?\bar\foo.txt"), some("foo.txt"));
    assert_eq!(parent(r"\\?\bar"), None);
    assert_eq!(parent(r"\\?\"), None);
    assert_eq!(parent(r"\\?\UNC\server\share\foo.txt"), some(r"\\?\UNC\server\share\"));
    assert_eq!(parent(r"\\?\UNC\server"), None);
    assert_eq!(parent(r"\\?\C:\foo.txt"), some(r"\\?\C:\"));
    assert_eq!(parent(r"\\?\C:"), None);
    assert_eq!(parent(r"\\?\foo/bar"), None);
    assert_eq!(parent(r"\\?\C:/foo/bar"), some(r"\\?\C:/"));
    assert_eq!(name(r"\\?\C:/foo/bar"), some("foo/bar"));
    assert_eq!(parent(r"\\?\a\b\"), some(r"\\?\a\"));
    assert_eq!(name(r"\\?\C:\a\."), None);
    assert_eq!(parent(r"\\?\C:\a\."), some(r"\\?\C:\a"));
    // With slashes the mark is no verbatim one, but a server and a share.
    assert_eq!(parent("//?/C:/x"), some("//?/C:/"));
}

#[test]
fn joins_keep_the_prefix() {
    let join = |base: &str, rel: &str| path_join(base, rel, Platform::Windows);
    assert_eq!(join(r"\\server\share\foo", "bar"), r"\\server\share\foo\bar");
    assert_eq!(join(r"\\server\share", r"\bar"), r"\\server\share\bar");
    assert_eq!(join(r"\\server\share\foo", "C:baz"), "C:baz");
    assert_eq!(join(r"C:\a", r"\\server\share"), r"\\server\share");
    assert_eq!(join(r"\\.\foo\bar", "baz"), r"\\.\foo\bar\baz");
    assert_eq!(join(r"\\.\foo", r"..\bar"), r"\\.\foo\..\bar");
    assert_eq!(join(r"\\?\foo\bar", "baz"), r"\\?\foo\bar\baz");
    assert_eq!(join(r"\\?\UNC\server\share\foo", "bar"), r"\\?\UNC\server\share\foo\bar");
    assert_eq!(join(r"\\?\UNC\server", "foo"), r"\\?\UNC\server\foo");
    assert_eq!(join(r"\\?\A:\x\y", "/foo"), r"\\?\A:\foo");
    assert_eq!(join(r"\\?\A:", r"..\foo\."), r"\\?\A:\foo");
    assert_eq!(join(r"\\?\A:\x\y", r"..\z/w"), r"\\?\A:\x\z\w");
    assert_eq!(join(r"\\?\A:\x\y", r".\foo\."), r"\\?\A:\x\y\foo");
    assert_eq!(join(r"\\?\A:\x\y", ""), r"\\?\A:\x\y\");
    assert_eq!(join(r"\\?\A:", ".."), r"\\?\A:");
}
