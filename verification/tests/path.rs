use std::path::Path;

use resources::path::PathComponents;

fn same(a: &str, b: &str) -> bool {
    PathComponents::of(&a.as_bytes().to_vec()).same(&PathComponents::of(&b.as_bytes().to_vec()))
}

#[test]
fn paths_are_made_of_components() {
    let path = PathComponents::of(&b"/dev//dri/./../renderD128/".to_vec());
    assert!(path.rooted && !path.here);
    assert_eq!(path.names, vec![b"dev".to_vec(), b"dri".to_vec(), b"..".to_vec(), b"renderD128".to_vec()]);
    let path = PathComponents::of(&b"./a/.".to_vec());
    assert!(!path.rooted && path.here);
    assert_eq!(path.names, vec![b"a".to_vec()]);
    let path = PathComponents::of(&b"socket:[4711]".to_vec());
    assert!(!path.rooted && !path.here);
    assert_eq!(path.names, vec![b"socket:[4711]".to_vec()]);
}

#[test]
fn separators_count_once() {
    assert!(same("/a/b", "/a//b"));
    assert!(same("//a/b", "/a/b"));
    assert!(same("/a/./b", "/a/b"));
    assert!(same("/a/b/", "/a/b"));
    assert!(!same("/a/b", "a/b"));
    assert!(!same("/a/b", "/ab"));
    assert!(!same("/a/c", "/a/b/../c"));
    assert!(!same("./a", "a"));
}

#[test]
fn paths_are_the_same_where_the_standard_library_says_so() {
    let paths = [
        "", "/", "//", ".", "./", "..", "../", "/.", "/..", "a", "./a", "././a", ".//a", "a/", "a/.", "/a", "//a",
        "/./a", "a/b", "a//b", "a/./b", "a/../b", "/a/b", "/a//b/", "...", ".a", "a.", "/a/b/.", "/a/.b", "pipe:[1]",
    ];
    for a in paths {
        for b in paths {
            assert_eq!(same(a, b), Path::new(a) == Path::new(b), "{a:?} {b:?}");
        }
    }
}
