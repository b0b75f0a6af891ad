use std::path::Path;

use youarehere::path::{ancestors, display, join, parent};

fn home() -> Option<&'static str> {
    Some("/home/user")
}

#[test]
fn home_itself_is_a_tilde() {
    assert_eq!(display("/home/user", home()), "~");
}

#[test]
fn a_subdirectory_hangs_off_the_tilde() {
    assert_eq!(display("/home/user/src", home()), "~/src");
}

#[test]
fn a_sibling_of_home_is_not_abbreviated() {
    assert_eq!(display("/home/userx/src", home()), "/home/userx/src");
}

#[test]
fn no_home_means_the_full_path() {
    assert_eq!(display("/home/user", None), "/home/user");
}

#[test]
fn root_stays_root() {
    assert_eq!(display("/", home()), "/");
}

/// The display `std::path` gives: the same abbreviation, computed by
/// `Path::strip_prefix` on the components.
fn reference_display(path: &str, home: Option<&str>) -> String {
    if let Some(home) = home {
        if let Ok(rest) = Path::new(path).strip_prefix(Path::new(home)) {
            return if rest.as_os_str().is_empty() {
                "~".to_string()
            } else {
                format!("~/{}", rest.display())
            };
        }
    }
    Path::new(path).display().to_string()
}

const SAMPLES: &[&str] = &[
    "", "/", "//", "///", ".", "./", ".//", "..", "../", "a", "a/", "a//", "a/.", "a/./",
    "./a", ".//a", "/a", "//a", "/./a", "/a/", "/a//", "/a/.", "/a/./b", "/a//b", "/a/b",
    "/a/b/", "/a/b/.", "/a/../b", "a/b", "a/b/c", "./a/b", "../a", "/home", "/home/user",
    "/home/user/", "/home/user//", "/home/user/.", "/home/user/./", "/home/user/src",
    "/home/user//src", "/home/user/./src", "/home/user/src/", "/home/user/src/./",
    "/home/user/src//x/", "/home/userx", "/home/userx/src", "/home//user/src", "/.", "/..",
    ".a", ".a/b", "a.", "...", "/.../x", "/é/ü", "~", "~/x", "a/../b/",
];

#[test]
fn display_agrees_with_std_path_on_every_sample_pair() {
    for path in SAMPLES {
        for home in SAMPLES {
            assert_eq!(
                display(path, Some(home)),
                reference_display(path, Some(home)),
                "path {path:?} home {home:?}"
            );
        }
        assert_eq!(display(path, None), reference_display(path, None));
    }
}

#[test]
fn parent_agrees_with_std_path() {
    for path in SAMPLES {
        let expected = Path::new(path)
            .parent()
            .map(|p| p.to_str().unwrap().to_string());
        assert_eq!(parent(path), expected, "path {path:?}");
    }
}

#[test]
fn ancestors_agree_with_std_path() {
    for path in SAMPLES {
        let expected: Vec<String> = Path::new(path)
            .ancestors()
            .map(|p| p.to_str().unwrap().to_string())
            .collect();
        assert_eq!(ancestors(path), expected, "path {path:?}");
    }
}

#[test]
fn join_agrees_with_std_path() {
    for base in SAMPLES {
        for child in SAMPLES {
            let expected = Path::new(base).join(child).to_str().unwrap().to_string();
            assert_eq!(join(base, child), expected, "base {base:?} child {child:?}");
        }
    }
}

#[test]
fn an_empty_home_matches_every_path() {
    assert_eq!(display("/home/user", Some("")), "~//home/user");
    assert_eq!(display("", Some("")), "~");
}

#[test]
fn a_root_home_abbreviates_everything_absolute() {
    assert_eq!(display("/", Some("/")), "~");
    assert_eq!(display("/etc/x", Some("/")), "~/etc/x");
    assert_eq!(display("etc", Some("/")), "etc");
}

#[test]
fn discovery_visits_each_ancestor_nearest_first() {
    assert_eq!(
        ancestors("/tmp/repo/a/b"),
        vec!["/tmp/repo/a/b", "/tmp/repo/a", "/tmp/repo", "/tmp", "/"]
    );
}
