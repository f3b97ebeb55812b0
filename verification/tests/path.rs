use minictr::path::UnixPath;

fn path(text: &str) -> UnixPath {
    UnixPath::from_text(text)
}

fn parent(text: &str) -> Option<Vec<u8>> {
    path(text).parent().map(|parent| parent.as_bytes().to_vec())
}

#[test]
fn components_leave_out_what_names_nothing() {
    let parts = |text: &str| path(text).components();
    assert_eq!(parts("/a//b/./c/"), [b"/".to_vec(), b"a".to_vec(), b"b".to_vec(), b"c".to_vec()]);
    assert_eq!(parts("./a"), [b".".to_vec(), b"a".to_vec()]);
    assert_eq!(parts("a/../b"), [b"a".to_vec(), b"..".to_vec(), b"b".to_vec()]);
    assert_eq!(parts("//"), [b"/".to_vec()]);
    assert!(parts("").is_empty());
}

#[test]
fn components_agree_with_the_standard_library() {
    for text in ["", "/", ".", "..", "/a/b", "a//b/", "./a/./b/.", "/./a/..", "/.", "a/.", "//a"] {
        let wanted: Vec<Vec<u8>> = std::path::Path::new(text)
            .components()
            .map(|part| part.as_os_str().to_str().unwrap().as_bytes().to_vec())
            .collect();
        assert_eq!(path(text).components(), wanted, "{text}");
        let wanted = std::path::Path::new(text)
            .parent()
            .map(|parent| parent.to_str().unwrap().as_bytes().to_vec());
        assert_eq!(parent(text), wanted, "{text}");
        let wanted = std::path::Path::new(text)
            .strip_prefix("/")
            .ok()
            .map(|rest| rest.to_str().unwrap().as_bytes().to_vec());
        let relative = path(text)
            .strip_root()
            .map(|rest| rest.as_bytes().to_vec());
        assert_eq!(relative, wanted, "{text}");
    }
}

#[test]
fn joins_and_prefixes_agree_with_the_standard_library() {
    let texts = ["", "/", ".", "..", "/a/b", "a//b/", "./a", "/a/../b", "/a/b/c", "//a/./b"];
    for base in texts {
        for other in texts {
            let wanted = std::path::Path::new(base).join(other);
            assert_eq!(
                path(base).join(&path(other)).as_bytes(),
                wanted.to_str().unwrap().as_bytes(),
                "{base} {other}"
            );
            assert_eq!(
                path(base).starts_with(&path(other)),
                std::path::Path::new(base).starts_with(other),
                "{base} {other}"
            );
            assert_eq!(
                path(base) == path(other),
                std::path::Path::new(base) == std::path::Path::new(other),
                "{base} {other}"
            );
        }
    }
}

#[test]
fn paths_are_equal_when_their_components_are() {
    assert_eq!(path("/a/b"), path("//a/./b/"));
    assert_ne!(path("a"), path("./a"));
    assert_ne!(path("/a"), path("a"));
}

#[test]
fn a_path_is_within_another_by_whole_components() {
    assert!(path("/srv/root/a").starts_with(&path("/srv/root")));
    assert!(path("/srv/root").starts_with(&path("/srv/root/")));
    assert!(!path("/srv/rootkit").starts_with(&path("/srv/root")));
    assert!(!path("/srv").starts_with(&path("/srv/root")));
    assert!(path("/a").starts_with(&path("/")));
}

#[test]
fn joining_puts_one_slash_between() {
    assert_eq!(path("/a").join(&path("b")).as_bytes(), b"/a/b");
    assert_eq!(path("/a/").join(&path("b")).as_bytes(), b"/a/b");
    assert_eq!(path("/a").join(&path("/b")).as_bytes(), b"/b");
    assert_eq!(path("").join(&path("b")).as_bytes(), b"b");
    assert_eq!(path("/a").join(&path("")).as_bytes(), b"/a/");
}

#[test]
fn a_parent_drops_the_last_component() {
    assert_eq!(parent("/a/b"), Some(b"/a".to_vec()));
    assert_eq!(parent("/a"), Some(b"/".to_vec()));
    assert_eq!(parent("a"), Some(Vec::new()));
    assert_eq!(parent("/"), None);
    assert_eq!(parent(""), None);
}

#[test]
fn the_root_is_stripped_from_absolute_paths_only() {
    assert_eq!(path("/a/b").strip_root().unwrap(), path("a/b"));
    assert!(path("/").strip_root().unwrap().as_bytes().is_empty());
    assert!(path("a").strip_root().is_none());
}

#[test]
fn the_root_and_parents_are_recognised() {
    assert!(path("/").is_root());
    assert!(path("//.").is_root());
    assert!(!path("/a").is_root());
    assert!(path("/a/..").has_parent_component());
    assert!(!path("/a/..b").has_parent_component());
    assert!(path("/a").is_absolute());
    assert!(!path("a").is_absolute());
}
