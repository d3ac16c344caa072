//! Paths, held against the system's own reading of them.

use std::path::Path;

use acs::config_cmd::show::pretty;
use acs::path::{file_name, join, parent, same_path, strip, under};

const PATHS: [&str; 30] = [
    "", "/", "//", ".", "..", "./", "./.", "./a", "a", "a/", "a/.", "a/b", "a//b", "a/./b", "a/../b",
    "/a", "//a", "/./a", "/a/", "/a//", "/a/.", "/a/b", "/a//b", "/a/b/..", "/a/b/c", "/a/bc", "/..",
    "/home/me//cfg/x", "/home/./me/cfg//x/.", ".a/.b",
];

fn chars(s: &str) -> Vec<char> {
    s.chars().collect()
}

fn text(v: Option<Vec<char>>) -> Option<String> {
    v.map(|v| v.into_iter().collect())
}

#[test]
fn parents_and_names_are_the_systems() {
    for p in PATHS {
        let want = Path::new(p).parent().and_then(|d| d.to_str());
        assert_eq!(text(parent(&chars(p))).as_deref(), want, "parent of {p:?}");
        let want = Path::new(p).file_name().and_then(|d| d.to_str());
        assert_eq!(text(file_name(&chars(p))).as_deref(), want, "name of {p:?}");
    }
}

#[test]
fn paths_compare_as_the_systems_do() {
    for a in PATHS {
        for b in PATHS {
            let (x, y) = (Path::new(a), Path::new(b));
            assert_eq!(same_path(a, b), x == y, "{a:?} {b:?}");
            assert_eq!(under(&chars(a), &chars(b)), x.starts_with(y), "{a:?} {b:?}");
            assert_eq!(join(a, "c/d"), x.join("c/d").to_str().unwrap());
            if !b.is_empty() {
                let want = x.strip_prefix(y).ok().and_then(|r| r.to_str());
                assert_eq!(text(strip(&chars(a), &chars(b))).as_deref(), want, "{a:?} {b:?}");
            }
        }
    }
}

#[test]
fn the_home_directory_is_shown_short() {
    let show = |p: &str| pretty(p, Some("/home/me"));
    assert_eq!(show("/home/me/cfg/x"), "~/cfg/x");
    assert_eq!(show("/home/me//cfg/x"), "~/cfg/x");
    assert_eq!(show("/home//me/cfg//x/"), "~/cfg//x");
    assert_eq!(show("/home/me"), "~/");
    assert_eq!(show("/home/mel/x"), "/home/mel/x");
    assert_eq!(pretty("/home/me/x", Some("/home/me/")), "~/x");
    assert_eq!(pretty("/home/me/x", Some("")), "/home/me/x");
    assert_eq!(pretty("/home/me/x", None), "/home/me/x");
}
