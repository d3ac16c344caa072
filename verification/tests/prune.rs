//! Housekeeping of installed versions.

use acs::prune::{every, max_age, on_proxy_start, prune, root_for, Version, NANOS};

fn root(exe: &str, version: &str, home: &str) -> Option<String> {
    root_for(exe, version, home, None, None)
}

/// A binary run from the system-wide `/usr/local/lib/acs/<v>/acs` prunes nothing.
#[test]
fn only_the_users_own_versions_directory_is_pruned() {
    let home = "/home/me";
    assert_eq!(
        root("/home/me/.local/share/acs/1.2.3/acs", "1.2.3", home).as_deref(),
        Some("/home/me/.local/share/acs")
    );
    assert_eq!(root("/usr/local/lib/acs/1.2.3/acs", "1.2.3", home), None);
    // Another user's HOME is not ours either.
    assert_eq!(root("/home/someone/.local/share/acs/1.2.3/acs", "1.2.3", home), None);
    // Not from a version directory at all.
    assert_eq!(root("/home/me/acs", "1.2.3", home), None);
    // The same place under another name, once links are followed.
    let at = |exe: &str, to: Option<&str>, own: Option<&str>| root_for(exe, "1.2.3", home, to, own);
    let data = Some("/mnt/data/acs");
    assert_eq!(
        at("/data/acs/1.2.3/acs", data, data).as_deref(),
        Some("/data/acs")
    );
    assert_eq!(at("/data/acs/1.2.4/acs", data, data), None);
    assert_eq!(at("/usr/local/lib/acs/1.2.3/acs", Some("/usr/local/lib/acs"), data), None);
    // Where one of them cannot be followed there is nothing to go by.
    assert_eq!(at("/data/acs/1.2.3/acs", data, None), None);
    assert_eq!(at("/data/acs/1.2.3/acs", None, None), None);
    // Slashes that stand together, and a dot, name nothing.
    assert_eq!(
        root("/home//me/.local/share/acs/./1.2.3//acs", "1.2.3", home).as_deref(),
        Some("/home//me/.local/share/acs")
    );
}

#[test]
fn prunes_only_old_unused_other_versions() {
    let day: u64 = 86_400;
    let dir = |name: &str, days_old: u64| Version {
        name: name.to_string(),
        is_dir: true,
        age: Some(u128::from(days_old * day) * NANOS),
    };
    let mut found = vec![dir("0.1.0", 90), dir("0.2.0", 90), dir("0.3.0", 90), dir("0.4.0", 2)];
    found.push(Version {
        is_dir: false,
        ..dir(".pruned", 90)
    });
    found.push(dir(".cache", 90));
    found.push(Version {
        is_dir: false,
        ..dir("notes", 90)
    });
    found.push(Version {
        age: None,
        ..dir("0.0.9", 90)
    });
    let live = vec!["0.2.0".to_string()];
    assert_eq!(prune(&found, "0.3.0", &live, 30 * day), ["0.1.0"]);
}

#[test]
fn missing_root_is_fine() {
    assert!(prune(&[], "x", &[], 0).is_empty());
}

#[test]
fn a_round_is_due_once_a_day() {
    assert!(on_proxy_start(None, every(None)));
    assert!(!on_proxy_start(Some(86_400 * NANOS - 1), every(None)));
    assert!(on_proxy_start(Some(86_400 * NANOS), every(None)));
    assert_eq!(every(Some("60")), 60);
    assert_eq!(every(Some("soon")), 86_400);
    assert_eq!(max_age(None), 30 * 86_400);
    assert_eq!(max_age(Some("5")), 5);
}

/// A part of a second is enough to be over the limit.
#[test]
fn ages_are_not_rounded() {
    let v = |age: u128| {
        vec![Version {
            name: "0.1.0".to_string(),
            is_dir: true,
            age: Some(age),
        }]
    };
    assert!(prune(&v(10 * NANOS), "x", &[], 10).is_empty());
    assert_eq!(prune(&v(10 * NANOS + NANOS / 2), "x", &[], 10), ["0.1.0"]);
}
