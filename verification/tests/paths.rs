use rustypod::downloader::PodcastEntry;
use rustypod::paths::{derive_target_path, file_name_for, is_safe_name, is_valid_component};

#[test]
fn target_path_with_extension() {
    let entry = PodcastEntry::new(
        String::from("Episode One"),
        String::from("http://example.com/feed/ep1.mp3"),
        String::from("2024-01-01T00:00:00+00:00"),
        String::from("ShowName"),
    );
    assert_eq!(entry.target_path("root"), "root/ShowName/Episode One.mp3");
}

#[test]
fn target_path_without_extension() {
    let entry = PodcastEntry::new(
        String::from("Episode One"),
        String::from("http://example.com/feed/ep1"),
        String::from("2024-01-01T00:00:00+00:00"),
        String::from("ShowName"),
    );
    assert_eq!(entry.target_path("root"), "root/ShowName/Episode One");
}

#[test]
fn extension_comes_from_last_segment_only() {
    // The host's dot is not in the last `/`-segment, so no extension.
    assert_eq!(file_name_for("Pilot", "http://pod.example.com/latest"), "Pilot");
    // Only the last dot of the segment counts.
    assert_eq!(file_name_for("Pilot", "http://x/archive.tar.gz"), "Pilot.gz");
}

#[test]
fn file_name_without_any_slash() {
    assert_eq!(file_name_for("Pilot", "plainname"), "Pilot");
    assert_eq!(file_name_for("Pilot", "plain.ogg"), "Pilot.ogg");
}

#[test]
fn target_path_free_function() {
    assert_eq!(
        derive_target_path("/tmp/pods", "Show", "Ep 2", "https://h/x/ep2.m4a"),
        "/tmp/pods/Show/Ep 2.m4a"
    );
}

#[test]
fn component_validity() {
    assert!(is_valid_component("Episode One"));
    assert!(!is_valid_component(""));
    assert!(!is_valid_component("a/b"));
    assert!(!is_valid_component("nul\u{0}char"));
}

#[test]
fn name_safety() {
    assert!(is_safe_name("ShowName"));
    assert!(is_safe_name("Show Name 2"));
    assert!(!is_safe_name(""));
    assert!(!is_safe_name("Show`Name"));
    assert!(!is_safe_name("Show/Name"));
}
