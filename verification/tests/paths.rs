use inferlab::paths::{join_path, parent, parent_path, settle};

#[test]
fn a_single_dot_names_nothing() {
    assert_eq!(parent_path("/a/./x"), "/a");
    assert_eq!(parent_path("/srv/w/./.inferlab"), "/srv/w");
    assert_eq!(parent_path("/a/x/."), "/a");
    assert_eq!(parent_path("/a/b/../x"), "/a/b/..");
    assert_eq!(parent_path("./x"), ".");
    assert_eq!(parent_path("/./x"), "/");
    assert_eq!(settle("/a/.//./"), "/a");
    assert_eq!(settle("/a/.hidden"), "/a/.hidden");
    assert_eq!(settle("/a/b."), "/a/b.");
}

#[test]
fn parents_are_those_of_the_standard_library() {
    for path in [
        "", "/", "//", "/.", "/./", ".", "./", "./.", "..", "a", "a/", "a/.", "a/b", "a/b/", "a//b",
        "a/./b", "a/b/.", "a/b/./.", "./a", "././a", "/a", "//a", "/a/", "/a/b", "/a/./x",
        "/a/b/./", "/a/..", "/a/../b", "/a/b.", "/a/.b", "/a/..b/c", "/srv/w/./.inferlab",
    ] {
        let whole = std::path::Path::new(path);
        let expected = whole.parent().map(|dir| dir.display().to_string());
        assert_eq!(parent(path), expected, "{path:?}");
        let mut popped = whole.to_path_buf();
        popped.pop();
        assert_eq!(parent_path(path), popped.display().to_string(), "{path:?}");
    }
}

#[test]
fn paths_are_joined_under_their_base() {
    assert_eq!(join_path("/a", "b"), "/a/b");
    assert_eq!(join_path("/a/", "b"), "/a/b");
    assert_eq!(join_path("", "b"), "b");
    assert_eq!(join_path("/a", "/b"), "/b");
}
