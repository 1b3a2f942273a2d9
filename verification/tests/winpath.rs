use smol::winpath::{
    find_name, join_paths, parse_prefix, path_extension, path_file_name, path_with_extension,
    split_components, Component, PrefixKind,
};

fn chars(path: &str) -> Vec<char> {
    path.chars().collect()
}

fn prefix(path: &str) -> (PrefixKind, usize) {
    let p = parse_prefix(&chars(path));
    (p.kind, p.len)
}

fn written(path: &str) -> Vec<String> {
    split_components(&chars(path))
        .into_iter()
        .map(|c| match c {
            Component::Prefix(text) => format!("prefix {}", text),
            Component::Root => "root".to_string(),
            Component::Current => "current".to_string(),
            Component::Parent => "parent".to_string(),
            Component::Name(name) => format!("name {}", name),
        })
        .collect()
}

#[test]
fn prefixes_are_told_by_their_form() {
    assert_eq!(prefix("foo"), (PrefixKind::Plain, 0));
    assert_eq!(prefix(r"\foo"), (PrefixKind::Plain, 0));
    assert_eq!(prefix("C:foo"), (PrefixKind::Drive, 2));
    assert_eq!(prefix("c:/foo"), (PrefixKind::Drive, 2));
    assert_eq!(prefix("1:foo"), (PrefixKind::Plain, 0));
    assert_eq!(prefix(r"\\server\share\foo"), (PrefixKind::Share, 14));
    assert_eq!(prefix("//server/share/foo"), (PrefixKind::Share, 14));
    assert_eq!(prefix(r"\\server"), (PrefixKind::Plain, 0));
    assert_eq!(prefix(r"\\server\"), (PrefixKind::Plain, 0));
    assert_eq!(prefix(r"\\.\COM42\x"), (PrefixKind::Share, 9));
    assert_eq!(prefix(r"\\?\C:\foo"), (PrefixKind::Verbatim, 6));
    assert_eq!(prefix(r"\\?\UNC\server\share\foo"), (PrefixKind::Verbatim, 20));
    assert_eq!(prefix(r"\\?\thing\foo"), (PrefixKind::Verbatim, 9));
    assert_eq!(prefix(r"\\?\"), (PrefixKind::Verbatim, 4));
}

#[test]
fn file_names_are_the_last_components() {
    let name = |path: &str| path_file_name(path);
    assert_eq!(name(r"C:\a\b.txt"), Some("b.txt".to_string()));
    assert_eq!(name("C:/a/b.txt"), Some("b.txt".to_string()));
    assert_eq!(name(r"C:\a\b\"), Some("b".to_string()));
    assert_eq!(name(r"C:\a\b\."), Some("b".to_string()));
    assert_eq!(name(r"C:\a\.."), None);
    assert_eq!(name(r"C:\"), None);
    assert_eq!(name("C:"), None);
    assert_eq!(name("C:b"), Some("b".to_string()));
    assert_eq!(name("."), None);
    assert_eq!(name(r".\a"), Some("a".to_string()));
    assert_eq!(name(""), None);
    assert_eq!(name(r"\\server\share"), None);
    assert_eq!(name(r"\\server\share\f"), Some("f".to_string()));
    assert_eq!(name(r"\\?\C:\a/b"), Some("a/b".to_string()));
    assert_eq!(name(r"\\?\C:\a\."), None);
    assert_eq!(find_name(&chars(r"C:\a\b.txt\\")), Some((5, 10)));
}

#[test]
fn extensions_follow_the_last_dot() {
    let ext = |path: &str| path_extension(path);
    assert_eq!(ext(r"C:\a.b\c"), None);
    assert_eq!(ext(r"C:\a.b\c.D"), Some("D".to_string()));
    assert_eq!(ext("a.tar.gz"), Some("gz".to_string()));
    assert_eq!(ext(".hidden"), None);
    assert_eq!(ext("a."), Some("".to_string()));
    assert_eq!(ext("..a"), Some("a".to_string()));
    assert_eq!(ext(".."), None);
}

#[test]
fn extensions_can_be_replaced() {
    let with = |path: &str, ext: &str| path_with_extension(path, ext);
    assert_eq!(with(r"C:\a.b\c.wav", "mp3"), r"C:\a.b\c.mp3");
    assert_eq!(with(r"C:\a.b\c", "mp3"), r"C:\a.b\c.mp3");
    assert_eq!(with(r"C:\c.wav", ""), r"C:\c");
    assert_eq!(with(r"C:\c.wav\\", "mp3"), r"C:\c.mp3");
    assert_eq!(with(r"C:\..", "mp3"), r"C:\..");
    assert_eq!(with(".a", "b"), ".a.b");
    assert_eq!(with("..a", "b"), "..b");
}

#[test]
fn a_new_extension_reads_back() {
    let paths = vec![
        r"C:\a.b\c.wav",
        r"C:c.wav",
        r"\\server\share\d\c.wav",
        r"\\?\C:\d\c.wav",
        r"\\?\UNC\server\share\c.wav",
        r"\\server\\c.wav",
        "c",
        r".\c.wav\.",
        "/d/.c",
    ];
    for path in paths {
        let out = path_with_extension(path, "mp3");
        assert_eq!(path_extension(&out), Some("mp3".to_string()), "{}", path);
        assert!(path_file_name(&out).unwrap().ends_with("c.mp3"), "{}", path);
    }
}

#[test]
fn paths_are_joined_as_on_windows() {
    let cases = vec![
        ("foo", "bar", r"foo\bar"),
        (r"foo\", "bar", r"foo\bar"),
        ("foo/", "bar", "foo/bar"),
        ("", "foo", "foo"),
        ("foo", "", r"foo\"),
        ("", "", ""),
        (r"foo\bar", r"\baz", r"\baz"),
        (r"c:\foo\bar", r"\baz", r"c:\baz"),
        (r"c:foo", r"\baz", r"c:\baz"),
        (r"c:foo", "bar", r"c:foo\bar"),
        ("C:", "a", "C:a"),
        ("C:", r"\a", r"C:\a"),
        (r"foo\bar", "c:", "c:"),
        (r"foo\bar", "c:baz", "c:baz"),
        (r"foo\bar", r"c:\baz", r"c:\baz"),
        (r"foo", r"\\server\share\x", r"\\server\share\x"),
        (r"\\server\share", "foo", r"\\server\share\foo"),
        (r"\\server\share\foo", r"\bar", r"\\server\share\bar"),
        (r"\\.\foo\bar", "baz", r"\\.\foo\bar\baz"),
        (r"\\?\C:\bar", "../foo", r"\\?\C:\foo"),
        (r"\\?\C:\bar", "../../foo", r"\\?\C:\foo"),
        (r"\\?\C:\", "../foo", r"\\?\C:\foo"),
        (r"\\?\C:", r"D:\foo/./", r"D:\foo/./"),
        (r"\\?\A:\x\y", "/foo", r"\\?\A:\foo"),
        (r"\\?\A:\x\y", r"..\foo\.", r"\\?\A:\x\foo"),
        (r"\\?\UNC\server\share\foo", "bar", r"\\?\UNC\server\share\foo\bar"),
        (r"\\?\UNC\server\share", r"C:\a", r"C:\a"),
        (r"\\?\C:\a", "b/c", r"\\?\C:\a\b\c"),
    ];
    for (base, name, expected) in cases {
        assert_eq!(join_paths(base, name), expected, "{} + {}", base, name);
    }
}

#[test]
fn components_are_read_in_order() {
    assert_eq!(written(r"C:\a\..\b\.\c"), vec!["prefix C:", "root", "name a", "parent", "name b", "name c"]);
    assert_eq!(written(r".\a/b"), vec!["current", "name a", "name b"]);
    assert_eq!(written("a/./b"), vec!["name a", "name b"]);
    assert_eq!(written(r"C:.\x"), vec!["prefix C:", "name x"]);
    assert_eq!(written("C:."), vec!["prefix C:"]);
    assert_eq!(written(r"\\server\share"), vec![r"prefix \\server\share", "root"]);
    assert_eq!(written(r"\\?\C:\a/b\."), vec![r"prefix \\?\C:", "root", "name a/b", "current"]);
    assert_eq!(written(""), Vec::<String>::new());
}

#[test]
fn a_file_name_is_the_last_component() {
    let paths = vec![
        r"C:\a\b.txt", r"C:\a\..", r"C:\", "C:", "", ".", "..", r"a\.\", r"\\s\h", r"\\s\h\f",
        r"\\?\C:\a\.", r"\\?\C:\a/b", r"\\?\x", r"\\.\dev\f", "C:f",
    ];
    for path in paths {
        let expected = match written(path).pop() {
            Some(last) => last.strip_prefix("name ").map(|n| n.to_string()),
            None => None,
        };
        assert_eq!(path_file_name(path), expected, "{}", path);
    }
}

#[test]
fn paths_with_slashes_only_agree_with_std() {
    let paths = vec![
        "", "/", "a", "a/b", "/a/b.c", "a/b/", "a/./b", "a/..", "..", ".", "./a.b.c", "a//b", "/..",
        "a/.b", "a/b.", "a/...b", ".a/.b.c", "a/b/./", "./.", "...",
    ];
    for path in paths {
        let std_path = std::path::Path::new(path);
        let std_name = std_path.file_name().map(|n| n.to_str().unwrap().to_string());
        let std_ext = std_path.extension().map(|e| e.to_str().unwrap().to_string());
        assert_eq!(path_file_name(path), std_name, "{}", path);
        assert_eq!(path_extension(path), std_ext, "{}", path);
        let std_out = std_path.with_extension("x").to_str().unwrap().to_string();
        assert_eq!(path_with_extension(path, "x"), std_out, "{}", path);
        let parts: Vec<String> = std_path
            .components()
            .map(|c| match c {
                std::path::Component::Prefix(_) => "prefix".to_string(),
                std::path::Component::RootDir => "root".to_string(),
                std::path::Component::CurDir => "current".to_string(),
                std::path::Component::ParentDir => "parent".to_string(),
                std::path::Component::Normal(n) => format!("name {}", n.to_str().unwrap()),
            })
            .collect();
        assert_eq!(written(path), parts, "{}", path);
    }
}
