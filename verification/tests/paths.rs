use fetch_server::path::{
    file_name_extension, path_below, path_components, path_extension, path_join, path_within,
};
use std::path::{Component, Path};

const PATHS: [&str; 30] = [
    "", "/", "//", ".", "./", "..", "/..", "a", "a/", "/a", "//a", "a//b", "a/./b", "./a", "././a",
    "a/.", "a/..", "a/../b", "/a/b/c.txt", "a.b/c", "a.b", ".hidden", "a/.hidden", ".hidden.txt",
    "a.", "a..", "...", "x.tar.gz", "ä/é.JPG", "/./a",
];

fn std_components(p: &str) -> Vec<String> {
    Path::new(p)
        .components()
        .map(|c| match c {
            Component::RootDir => "/".to_string(),
            other => other.as_os_str().to_str().unwrap().to_string(),
        })
        .collect()
}

#[test]
fn components_agree_with_std() {
    for p in PATHS {
        assert_eq!(path_components(p), std_components(p), "{:?}", p);
    }
}

#[test]
fn joining_agrees_with_std() {
    for a in PATHS {
        for b in PATHS {
            let joined = Path::new(a).join(b);
            assert_eq!(path_join(a, b), joined.to_str().unwrap(), "{:?} {:?}", a, b);
            assert_eq!(path_within(a, b), Path::new(a).starts_with(b), "{:?} {:?}", a, b);
            if !b.starts_with('/') {
                assert!(path_within(&path_join(a, b), a), "{:?} {:?}", a, b);
            }
            assert!(path_within(&path_below(a, b), a), "{:?} {:?}", a, b);
        }
    }
}

#[test]
fn extensions_agree_with_std() {
    for p in PATHS {
        let expected = Path::new(p).extension().map(|e| e.to_str().unwrap().to_string());
        assert_eq!(path_extension(p), expected, "{:?}", p);
    }
    assert_eq!(file_name_extension("a.json").as_deref(), Some("json"));
    assert_eq!(file_name_extension(".json"), None);
    assert_eq!(file_name_extension("json"), None);
    assert_eq!(file_name_extension("a."), Some(String::new()));
}

#[test]
fn a_name_is_one_more_component() {
    let mut expected = path_components("/downloads");
    expected.push("abc".to_string());
    assert_eq!(path_components(&path_join("/downloads", "abc")), expected);
    assert_eq!(path_below("/downloads", "/etc"), "/downloads//etc");
    assert_eq!(path_below("", "a"), "a");
    assert_eq!(path_below("a/", "b"), "a/b");
}
