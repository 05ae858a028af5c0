use rustypod::downloader::{Podcast, RawEntry};
use rustypod::errors::PodError;

fn raw(title: &str, enclosure: &str, published: &str) -> RawEntry {
    RawEntry {
        title: Some(String::from(title)),
        enclosure: Some(String::from(enclosure)),
        published: Some(String::from(published)),
    }
}

const RSS: &str = "<?xml version=\"1.0\"?>\
<rss version=\"2.0\"><channel><title>ShowName</title><link>http://example.com</link>\
<description>d</description>\
<item><title>Episode Two</title>\
<enclosure url=\"http://example.com/feed/ep2.mp3\" length=\"10\" type=\"audio/mpeg\"/>\
<pubDate>Tue, 02 Jan 2024 00:00:00 GMT</pubDate></item>\
<item><title>Episode One</title>\
<enclosure url=\"http://example.com/feed/ep1.mp3\" length=\"10\" type=\"audio/mpeg\"/>\
<pubDate>Mon, 01 Jan 2024 00:00:00 GMT</pubDate></item>\
</channel></rss>";

#[test]
fn entries_parses_a_feed_document() {
    let pod = Podcast::new(String::from("ShowName"), String::from("http://example.com/feed"));
    let entries = pod.entries(RSS.as_bytes(), 5).unwrap();
    assert_eq!(entries.len(), 2);
    assert_eq!(entries[0].title().as_str(), "Episode Two");
    assert_eq!(entries[0].uri().as_str(), "http://example.com/feed/ep2.mp3");
    assert_eq!(entries[0].name().as_str(), "ShowName");
    assert_eq!(entries[0].date().as_str(), "2024-01-02T00:00:00+00:00");
    assert_eq!(entries[1].title().as_str(), "Episode One");
    assert_eq!(entries[1].uri().as_str(), "http://example.com/feed/ep1.mp3");
}

#[test]
fn entries_honours_the_episode_limit() {
    let pod = Podcast::new(String::from("ShowName"), String::from("http://example.com/feed"));
    let entries = pod.entries(RSS.as_bytes(), 1).unwrap();
    assert_eq!(entries.len(), 1);
    assert_eq!(entries[0].title().as_str(), "Episode Two");
}

#[test]
fn entries_rejects_garbage() {
    let pod = Podcast::new(String::from("ShowName"), String::from("http://example.com/feed"));
    assert!(matches!(pod.entries(b"not a feed at all", 3), Err(PodError::FeedFault)));
}

#[test]
fn raw_selection_takes_newest_first_up_to_limit() {
    let pod = Podcast::new(String::from("Show"), String::from("u"));
    let raws = vec![
        raw("Ep 3", "http://h/ep3.mp3", "2024-01-03"),
        raw("Ep 2", "http://h/ep2.mp3", "2024-01-02"),
        raw("Ep 1", "http://h/ep1.mp3", "2024-01-01"),
    ];
    let entries = pod.entries_from_raw(&raws, 2).unwrap();
    assert_eq!(entries.len(), 2);
    assert_eq!(entries[0].title().as_str(), "Ep 3");
    assert_eq!(entries[1].title().as_str(), "Ep 2");
    assert_eq!(entries[0].name().as_str(), "Show");
}

#[test]
fn raw_selection_with_large_limit_takes_everything() {
    let pod = Podcast::new(String::from("Show"), String::from("u"));
    let raws = vec![raw("Ep 1", "http://h/ep1.mp3", "2024-01-01")];
    let entries = pod.entries_from_raw(&raws, 10).unwrap();
    assert_eq!(entries.len(), 1);
}

#[test]
fn missing_field_fails_the_whole_listing() {
    let pod = Podcast::new(String::from("Show"), String::from("u"));
    let mut incomplete = raw("Ep 2", "http://h/ep2.mp3", "2024-01-02");
    incomplete.enclosure = None;
    let raws = vec![raw("Ep 3", "http://h/ep3.mp3", "2024-01-03"), incomplete];
    assert!(matches!(pod.entries_from_raw(&raws, 2), Err(PodError::FeedFault)));
}

#[test]
fn incomplete_entry_beyond_the_limit_is_ignored() {
    let pod = Podcast::new(String::from("Show"), String::from("u"));
    let mut incomplete = raw("Ep 1", "http://h/ep1.mp3", "2024-01-01");
    incomplete.published = None;
    let raws = vec![raw("Ep 2", "http://h/ep2.mp3", "2024-01-02"), incomplete];
    let entries = pod.entries_from_raw(&raws, 1).unwrap();
    assert_eq!(entries.len(), 1);
}

#[test]
fn unusable_title_fails_the_listing() {
    let pod = Podcast::new(String::from("Show"), String::from("u"));
    let raws = vec![raw("bad/title", "http://h/ep.mp3", "2024-01-01")];
    assert!(matches!(pod.entries_from_raw(&raws, 1), Err(PodError::FeedFault)));
}

#[test]
fn podcast_getters() {
    let pod = Podcast::new(String::from("Show"), String::from("http://example.com/feed"));
    assert_eq!(pod.name().as_str(), "Show");
    assert_eq!(pod.uri().as_str(), "http://example.com/feed");
}
