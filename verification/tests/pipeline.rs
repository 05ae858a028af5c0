use rustypod::downloader::PodcastEntry;
use rustypod::errors::{LogError, PodError};
use rustypod::logger::Log;
use rustypod::pipeline::{
    claim_all, collect_entries, plan_tree, record_download, setup_podcast, summarize, Outcome,
    TreeAction,
};

fn entry(name: &str, title: &str) -> PodcastEntry {
    PodcastEntry::new(
        String::from(title),
        String::from("http://example.com/feed/ep.mp3"),
        String::from("2024-01-01T00:00:00+00:00"),
        String::from(name),
    )
}

#[test]
fn plan_tree_decides_each_case() {
    assert_eq!(plan_tree(true, false), Err(PodError::PathConflict));
    assert_eq!(plan_tree(true, true), Ok(TreeAction::AlreadyReady));
    assert_eq!(plan_tree(false, false), Ok(TreeAction::Create));
    assert_eq!(plan_tree(false, true), Ok(TreeAction::Create));
}

#[test]
fn setup_conflict_removes_the_podcast() {
    // `root/ShowName` exists as a regular file: setup fails with
    // PathConflict, so no entries of this podcast are processed.
    let mut log = Log::open_in_memory().unwrap();
    assert_eq!(setup_podcast(&mut log, "ShowName", true, false), Err(PodError::PathConflict));
}

#[test]
fn setup_succeeds_for_new_and_existing_directories() {
    let mut log = Log::open_in_memory().unwrap();
    assert_eq!(setup_podcast(&mut log, "A", false, false), Ok(TreeAction::Create));
    assert_eq!(setup_podcast(&mut log, "B", true, true), Ok(TreeAction::AlreadyReady));
    // The partitions were created.
    assert_eq!(log.entry_exists("A", "x"), Ok(false));
    assert_eq!(log.entry_exists("B", "x"), Ok(false));
}

#[test]
fn collect_keeps_siblings_of_a_failed_listing() {
    // Podcast B's feed fetch failed; A's and C's entries survive.
    let listings = vec![
        Ok(vec![entry("A", "a1"), entry("A", "a2")]),
        Err(PodError::FeedFault),
        Ok(vec![entry("C", "c1")]),
    ];
    let flat = collect_entries(listings);
    assert_eq!(flat.len(), 3);
    assert_eq!(flat[0].name().as_str(), "A");
    assert_eq!(flat[0].title().as_str(), "a1");
    assert_eq!(flat[1].title().as_str(), "a2");
    assert_eq!(flat[2].name().as_str(), "C");
    assert_eq!(flat[2].title().as_str(), "c1");
}

#[test]
fn first_run_claims_everything() {
    let mut log = Log::open_in_memory().unwrap();
    log.create_podcast_table("Show").unwrap();
    let items = claim_all(&mut log, vec![entry("Show", "e1"), entry("Show", "e2")]);
    assert_eq!(items.len(), 2);
    assert_eq!(items[0].outcome, Outcome::Pending);
    assert_eq!(items[1].outcome, Outcome::Pending);
    assert_eq!(log.entry_exists("Show", "e1"), Ok(true));
    assert_eq!(log.entry_exists("Show", "e2"), Ok(true));
}

#[test]
fn second_run_skips_everything() {
    // Idempotence: an unchanged feed and a successful first run leave
    // nothing to download the second time.
    let mut log = Log::open_in_memory().unwrap();
    log.create_podcast_table("Show").unwrap();
    let first = claim_all(&mut log, vec![entry("Show", "e1"), entry("Show", "e2")]);
    assert!(first.iter().all(|w| w.outcome == Outcome::Pending));

    let second = claim_all(&mut log, vec![entry("Show", "e1"), entry("Show", "e2")]);
    assert_eq!(second.len(), 2);
    assert!(second.iter().all(|w| w.outcome == Outcome::Skipped));

    let tally = summarize(&second);
    assert_eq!(tally.pending, 0);
    assert_eq!(tally.skipped, 2);
}

#[test]
fn duplicate_entries_in_one_run_claim_once() {
    let mut log = Log::open_in_memory().unwrap();
    log.create_podcast_table("Show").unwrap();
    let items = claim_all(&mut log, vec![entry("Show", "e1"), entry("Show", "e1")]);
    assert_eq!(items[0].outcome, Outcome::Pending);
    assert_eq!(items[1].outcome, Outcome::Skipped);
}

#[test]
fn missing_partition_fails_only_that_entry() {
    let mut log = Log::open_in_memory().unwrap();
    log.create_podcast_table("A").unwrap();
    let items = claim_all(&mut log, vec![entry("A", "a1"), entry("B", "b1"), entry("A", "a2")]);
    assert_eq!(items[0].outcome, Outcome::Pending);
    assert_eq!(items[1].outcome, Outcome::Failed(PodError::StorageFault));
    assert_eq!(items[2].outcome, Outcome::Pending);
}

#[test]
fn failed_download_keeps_the_claim() {
    // Claim-before-completion trade-off: the claim of a failed
    // download stays, so the next run skips the episode.
    let mut log = Log::open_in_memory().unwrap();
    log.create_podcast_table("Show").unwrap();
    let mut items = claim_all(&mut log, vec![entry("Show", "e1")]);
    assert_eq!(items[0].outcome, Outcome::Pending);

    let item = items.remove(0);
    let done = record_download(item, Err(PodError::TransferFault));
    assert_eq!(done.outcome, Outcome::Failed(PodError::TransferFault));
    assert_eq!(log.entry_exists("Show", "e1"), Ok(true));

    let again = claim_all(&mut log, vec![entry("Show", "e1")]);
    assert_eq!(again[0].outcome, Outcome::Skipped);
}

#[test]
fn successful_download_is_recorded_as_such() {
    let mut log = Log::open_in_memory().unwrap();
    log.create_podcast_table("Show").unwrap();
    let mut items = claim_all(&mut log, vec![entry("Show", "e1")]);
    let done = record_download(items.remove(0), Ok(()));
    assert_eq!(done.outcome, Outcome::Downloaded);
    assert_eq!(done.entry.title().as_str(), "e1");
}

#[test]
fn summary_counts_every_outcome() {
    let mut log = Log::open_in_memory().unwrap();
    log.create_podcast_table("Show").unwrap();
    let items = claim_all(
        &mut log,
        vec![entry("Show", "e1"), entry("Show", "e2"), entry("Show", "e1"), entry("Gone", "x")],
    );
    let mut finished = Vec::new();
    for item in items {
        if item.outcome == Outcome::Pending {
            finished.push(record_download(item, Ok(())));
        } else {
            finished.push(item);
        }
    }
    let tally = summarize(&finished);
    assert_eq!(tally.downloaded, 2);
    assert_eq!(tally.skipped, 1);
    assert_eq!(tally.failed, 1);
    assert_eq!(tally.pending, 0);
}

#[test]
fn outcome_labels() {
    assert_eq!(Outcome::Pending.label(), "PENDING");
    assert_eq!(Outcome::Skipped.label(), "SKIPPED");
    assert_eq!(Outcome::Downloaded.label(), "DOWNLOADED");
    assert_eq!(Outcome::Failed(PodError::FileFault).label(), "FAILED");
}

#[test]
fn log_errors_map_into_the_pipeline_taxonomy() {
    assert_eq!(PodError::from_log(LogError::DuplicateClaim), PodError::DuplicateClaim);
    assert_eq!(PodError::from_log(LogError::StorageFault), PodError::StorageFault);
    assert_eq!(PodError::from_log(LogError::UnsafeName), PodError::StorageFault);
}
