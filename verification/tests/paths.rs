use proptest::test_runner::{RngAlgorithm, TestRng};
use proptest_http_message::request_line::target::components::path::{
    normalize, normalize_segments, path_absolute, path_absolute_from, path_rootless,
    path_rootless_from, Path,
};
use proptest_http_message::request_line::target::components::CharacterClasses;

fn strings(items: &[&str]) -> Vec<String> {
    items.iter().map(|s| s.to_string()).collect()
}

fn split(text: &str) -> Vec<String> {
    text.split('/').map(|s| s.to_string()).collect()
}

fn rng() -> TestRng {
    TestRng::deterministic_rng(RngAlgorithm::ChaCha)
}

#[test]
fn parent_segment_pops_the_first_segment() {
    assert_eq!(normalize(&strings(&["a", ".."])), "/");
}

#[test]
fn dot_in_the_middle_is_dropped() {
    assert_eq!(normalize(&strings(&["foo", ".", "bar"])), "foo/bar");
}

#[test]
fn dot_at_the_end_leaves_a_trailing_slash() {
    assert_eq!(normalize(&strings(&["foo", "."])), "foo/");
}

#[test]
fn a_first_dot_segment_is_dropped() {
    assert_eq!(normalize(&strings(&[".", "a"])), "a");
    assert_eq!(normalize(&strings(&["..", "a"])), "a");
    assert_eq!(normalize(&strings(&["."])), "/");
    assert_eq!(normalize(&strings(&[".."])), "/");
}

#[test]
fn parent_segment_with_nothing_to_pop_does_nothing() {
    assert_eq!(normalize(&strings(&["a", "..", ".."])), "/");
    assert_eq!(normalize(&strings(&["a", "..", "..", "b"])), "b");
    assert_eq!(normalize(&strings(&["..", "..", "b"])), "b");
}

#[test]
fn parent_segment_pops_the_segment_before_it() {
    assert_eq!(normalize(&strings(&["a", "b", "..", "c"])), "a/c");
    assert_eq!(normalize(&strings(&["a", "b", "c", "..", ".."])), "a");
    assert_eq!(normalize(&strings(&["a", "", ".."])), "a");
}

#[test]
fn other_segments_stay_as_they_are() {
    assert_eq!(normalize(&strings(&["a", "", "b"])), "a//b");
    assert_eq!(normalize(&strings(&["a", ""])), "a/");
    assert_eq!(normalize(&strings(&["%2e", "%2E%2e", "..."])), "%2e/%2E%2e/...");
    assert_eq!(normalize(&strings(&["a"])), "a");
    assert_eq!(normalize(&strings(&[])), "/");
}

#[test]
fn only_the_last_dot_leaves_an_empty_segment() {
    assert_eq!(normalize(&strings(&["a", ".", "."])), "a/");
    assert_eq!(normalize(&strings(&["a", ".", ".", "b"])), "a/b");
    assert_eq!(normalize(&strings(&[".", "."])), "");
    assert_eq!(normalize(&strings(&["a", "..", "."])), "");
}

#[test]
fn the_segments_of_the_normalized_path() {
    assert_eq!(normalize_segments(&strings(&["a", ".."])), Vec::<String>::new());
    assert_eq!(normalize_segments(&strings(&["foo", "."])), strings(&["foo", ""]));
    assert_eq!(normalize_segments(&strings(&["a", "b", "..", "c"])), strings(&["a", "c"]));
}

#[test]
fn a_normalized_path_has_no_dot_segment() {
    let classes = CharacterClasses::new();
    let mut rng = rng();
    for _ in 0..300 {
        let (_, repr) = path_rootless(&mut rng, &classes, 12);
        for segment in normalize_segments(&split(&repr)) {
            assert!(segment != "." && segment != "..");
        }
    }
    let raw = strings(&["..", ".", "a", ".", "..", "..", "b", ".", "c", "..", "."]);
    assert_eq!(normalize_segments(&raw), strings(&["b", ""]));
}

#[test]
fn normalizing_again_changes_nothing() {
    for raw in [
        strings(&["a", ".."]),
        strings(&["foo", ".", "bar"]),
        strings(&["foo", "."]),
        strings(&["a", "..", "", "b"]),
        strings(&[".", "."]),
        strings(&["a", "b", "..", "..", ".."]),
        strings(&["a", "", "", ".."]),
    ] {
        let once = normalize(&raw);
        assert_eq!(normalize(&split(&once)), once);
        let segments = normalize_segments(&raw);
        assert_eq!(normalize_segments(&segments), segments);
    }
    let classes = CharacterClasses::new();
    let mut rng = rng();
    for _ in 0..300 {
        let (path, _) = path_rootless(&mut rng, &classes, 12);
        assert_eq!(normalize(&split(&path.normalized)), path.normalized);
    }
}

#[test]
fn a_rootless_path_joins_its_segments_with_slashes() {
    let (path, repr) = path_rootless_from("a".to_string(), strings(&["b", "..", "c", "."]));
    assert_eq!(repr, "a/b/../c/.");
    assert_eq!(path, Path { normalized: "a/c/".to_string() });
    let (path, repr) = path_rootless_from("a".to_string(), Vec::new());
    assert_eq!(repr, "a");
    assert_eq!(path.normalized, "a");
    let (path, repr) = path_rootless_from("a".to_string(), strings(&[""]));
    assert_eq!(repr, "a/");
    assert_eq!(path.normalized, "a/");
    let (path, repr) = path_rootless_from("a".to_string(), strings(&[".."]));
    assert_eq!(repr, "a/..");
    assert_eq!(path.normalized, "/");
}

#[test]
fn an_absolute_path_begins_with_a_slash() {
    let (path, repr) = path_absolute_from(None);
    assert_eq!(repr, "/");
    assert_eq!(path.normalized, "/");
    let rootless = path_rootless_from("foo".to_string(), strings(&[".", "bar"]));
    let (path, repr) = path_absolute_from(Some(rootless));
    assert_eq!(repr, "/foo/./bar");
    assert_eq!(path.normalized, "/foo/bar");
    let rootless = path_rootless_from("foo".to_string(), strings(&["..", "bar"]));
    let (path, repr) = path_absolute_from(Some(rootless));
    assert_eq!(repr, "/foo/../bar");
    assert_eq!(path.normalized, "/bar");
}

#[test]
fn path_absolute_works() {
    let classes = CharacterClasses::new();
    let mut rng = rng();
    let mut bare = false;
    let mut longer = false;
    for _ in 0..500 {
        let (path, repr) = path_absolute(&mut rng, &classes, 25);
        assert!(repr.starts_with('/'));
        assert!(path.normalized.starts_with('/'));
        bare |= repr == "/";
        longer |= repr.len() > 1;
        if repr.len() > 1 {
            assert_eq!(path.normalized, format!("/{}", normalize(&split(&repr[1..]))));
        } else {
            assert_eq!(path.normalized, "/");
        }
    }
    assert!(bare && longer);
}

#[test]
fn a_rootless_path_has_its_segments_within_bounds() {
    let classes = CharacterClasses::new();
    let mut rng = rng();
    let class = classes.path();
    let mut most = 0;
    for _ in 0..500 {
        let (path, repr) = path_rootless(&mut rng, &classes, 4);
        let segments = split(&repr);
        assert!((1..=5).contains(&segments.len()));
        most = most.max(segments.len());
        assert!(!segments[0].is_empty());
        for segment in &segments {
            assert!(segment
                .chars()
                .all(|c| c == '%' || class.safe_chars().contains(&c)));
        }
        assert_eq!(path.normalized, normalize(&segments));
    }
    assert_eq!(most, 5);
}
