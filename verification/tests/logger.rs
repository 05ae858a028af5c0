use rustypod::errors::LogError;
use rustypod::logger::Log;

#[test]
fn claim_round_trip() {
    let mut log = Log::open_in_memory().unwrap();
    log.create_podcast_table("Show").unwrap();

    assert_eq!(log.entry_exists("Show", "Ep 1"), Ok(false));
    assert_eq!(log.try_claim("Show", "Ep 1"), Ok(true));
    assert_eq!(log.entry_exists("Show", "Ep 1"), Ok(true));
    assert_eq!(log.entry_exists("Show", "Ep 2"), Ok(false));
}

#[test]
fn second_claim_is_denied() {
    let mut log = Log::open_in_memory().unwrap();
    log.create_podcast_table("Show").unwrap();

    assert_eq!(log.try_claim("Show", "Ep 1"), Ok(true));
    assert_eq!(log.try_claim("Show", "Ep 1"), Ok(false));
    assert_eq!(log.try_claim("Show", "Ep 1"), Ok(false));
}

#[test]
fn update_log_reports_duplicates() {
    let mut log = Log::open_in_memory().unwrap();
    log.create_podcast_table("Show").unwrap();

    assert_eq!(log.update_log("Show", "Ep 1"), Ok(()));
    assert_eq!(log.update_log("Show", "Ep 1"), Err(LogError::DuplicateClaim));
}

#[test]
fn partitions_are_independent() {
    let mut log = Log::open_in_memory().unwrap();
    log.create_podcast_table("A").unwrap();
    log.create_podcast_table("B").unwrap();

    assert_eq!(log.try_claim("A", "Ep 1"), Ok(true));
    assert_eq!(log.entry_exists("B", "Ep 1"), Ok(false));
    assert_eq!(log.try_claim("B", "Ep 1"), Ok(true));
}

#[test]
fn create_table_is_idempotent_and_keeps_records() {
    let mut log = Log::open_in_memory().unwrap();
    log.create_podcast_table("Show").unwrap();
    assert_eq!(log.try_claim("Show", "Ep 1"), Ok(true));

    log.create_podcast_table("Show").unwrap();
    assert_eq!(log.entry_exists("Show", "Ep 1"), Ok(true));
}

#[test]
fn unsafe_partition_names_are_rejected() {
    let mut log = Log::open_in_memory().unwrap();
    assert_eq!(log.create_podcast_table("Show`Name"), Err(LogError::UnsafeName));
    assert_eq!(log.create_podcast_table(""), Err(LogError::UnsafeName));
    assert_eq!(log.try_claim("Show`Name", "Ep 1"), Err(LogError::UnsafeName));
    assert_eq!(log.entry_exists("Show`Name", "Ep 1"), Err(LogError::UnsafeName));
}

#[test]
fn claim_without_partition_is_a_storage_fault() {
    let mut log = Log::open_in_memory().unwrap();
    assert_eq!(log.try_claim("Missing", "Ep 1"), Err(LogError::StorageFault));
    assert_eq!(log.entry_exists("Missing", "Ep 1"), Err(LogError::StorageFault));
}
