use std::path::Path;

use herdr_tiling::paths::{components, same_path};

const SAMPLES: [&str; 24] = [
    "", "/", "//", ".", "./", "..", "a", "a/", "a//", "/a", "//a", "/a/", "./a", "a/.", "a/./b",
    "a//b", "a/b", "/a/b", "/a/./b/", ".//a", "./.", "../a", "a/../b", "/tmp/herdr.sock",
];

#[test]
fn components_follow_the_standard_library() {
    for sample in SAMPLES {
        let expected: Vec<String> = Path::new(sample)
            .components()
            .map(|component| component.as_os_str().to_string_lossy().into_owned())
            .collect();
        assert_eq!(components(sample), expected, "{sample:?}");
    }
}

#[test]
fn path_identity_follows_the_standard_library() {
    for a in SAMPLES {
        for b in SAMPLES {
            assert_eq!(same_path(a, b), Path::new(a) == Path::new(b), "{a:?} {b:?}");
        }
    }
}

#[test]
fn separators_and_inner_dots_do_not_change_a_location() {
    assert!(same_path("/tmp/herdr.sock", "//tmp/./herdr.sock/"));
    assert!(!same_path("./herdr.sock", "herdr.sock"));
    assert!(!same_path("/tmp/herdr.sock", "tmp/herdr.sock"));
    assert_eq!(components("./a//b/."), [".", "a", "b"]);
}
