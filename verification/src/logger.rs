//! The idempotency log: a durable record of claimed episodes.
//!
//! The log is a SQLite store with one table (a partition) per podcast
//! name and one row per claimed episode title; presence of a row is
//! the sole source of truth for "do not redownload". Its mathematical
//! model is a map from partition name to the set of recorded episode
//! titles. The store connection is owned by the `Log` value and every
//! mutating operation takes `&mut self`, so access is exclusive by
//! ownership; a claim is a single conditional insert, atomic in the
//! store itself.

use vstd::prelude::*;
use crate::errors::LogError;
use crate::paths::{safe_name, is_safe_name};

verus! {

#[verifier::external_type_specification]
#[verifier::external_body]
pub struct ExConnection(rusqlite::Connection);

/// The partitions and records a store connection holds: partition
/// name to the set of recorded episode titles.
pub uninterp spec fn log_contents(c: rusqlite::Connection) -> Map<Seq<char>, Set<Seq<char>>>;

/// The log's mathematical model.
pub type LogModel = Map<Seq<char>, Set<Seq<char>>>;

/// The episode `t` is recorded in partition `p`.
pub open spec fn model_has(m: LogModel, p: Seq<char>, t: Seq<char>) -> bool {
    m.dom().contains(p) && m[p].contains(t)
}

/// A claim on `(p, t)` is granted iff the partition exists and the
/// episode is not yet recorded.
pub open spec fn claim_granted(m: LogModel, p: Seq<char>, t: Seq<char>) -> bool {
    m.dom().contains(p) && !m[p].contains(t)
}

/// The log after a claim on `(p, t)`: the episode is recorded when
/// the claim is granted; nothing changes otherwise.
pub open spec fn claim_next(m: LogModel, p: Seq<char>, t: Seq<char>) -> LogModel {
    if claim_granted(m, p, t) {
        m.insert(p, m[p].insert(t))
    } else {
        m
    }
}

/// Relies on rusqlite's `Connection::open`: opens or creates the
/// store file. Nothing is assumed of the opened store's contents: a
/// file left by an earlier run keeps its records.
#[verifier::external_body]
fn db_open(path: &str) -> (r: Result<rusqlite::Connection, LogError>)
    ensures
        match r {
            Ok(_) => true,
            Err(e) => e == LogError::StorageFault,
        },
{
    match rusqlite::Connection::open(path) {
        Ok(c) => Ok(c),
        Err(_) => Err(LogError::StorageFault),
    }
}

/// Relies on rusqlite's `Connection::open_in_memory`: a fresh
/// in-memory store holds no partitions at all.
#[verifier::external_body]
fn db_open_memory() -> (r: Result<rusqlite::Connection, LogError>)
    ensures
        match r {
            Ok(c) => log_contents(c) == Map::<Seq<char>, Set<Seq<char>>>::empty(),
            Err(e) => e == LogError::StorageFault,
        },
{
    match rusqlite::Connection::open_in_memory() {
        Ok(c) => Ok(c),
        Err(_) => Err(LogError::StorageFault),
    }
}

/// Relies on rusqlite's `Connection::execute` running one
/// `CREATE TABLE IF NOT EXISTS` statement: on success the partition
/// exists and every record, in it and elsewhere, is kept; a failed
/// statement leaves the store unchanged (SQLite statements are
/// atomic).
#[verifier::external_body]
fn db_create_partition(conn: &mut rusqlite::Connection, name: &str) -> (r: Result<(), LogError>)
    requires
        safe_name(name@),
    ensures
        match r {
            Ok(()) => log_contents(*final(conn)) == log_contents(*old(conn)).insert(
                name@,
                if log_contents(*old(conn)).dom().contains(name@) {
                    log_contents(*old(conn))[name@]
                } else {
                    Set::empty()
                },
            ),
            Err(e) => e == LogError::StorageFault && log_contents(*final(conn)) == log_contents(
                *old(conn),
            ),
        },
{
    let q = format!("CREATE TABLE IF NOT EXISTS `{}` (episode TEXT PRIMARY KEY)", name);
    match conn.execute(&q, ()) {
        Ok(_) => Ok(()),
        Err(_) => Err(LogError::StorageFault),
    }
}

/// Relies on rusqlite's `Connection::execute` running one `INSERT`
/// into a table whose single column is the primary key: the insert
/// succeeds exactly when the episode is not yet recorded, a
/// primary-key collision surfaces as a constraint violation, and a
/// failed statement leaves the store unchanged (SQLite statements are
/// atomic).
#[verifier::external_body]
fn db_insert(conn: &mut rusqlite::Connection, name: &str, episode: &str) -> (r: Result<
    bool,
    LogError,
>)
    requires
        safe_name(name@),
    ensures
        match r {
            Ok(true) => log_contents(*old(conn)).dom().contains(name@) && !log_contents(
                *old(conn),
            )[name@].contains(episode@) && log_contents(*final(conn)) == log_contents(
                *old(conn),
            ).insert(name@, log_contents(*old(conn))[name@].insert(episode@)),
            Ok(false) => log_contents(*old(conn)).dom().contains(name@) && log_contents(
                *old(conn),
            )[name@].contains(episode@) && log_contents(*final(conn)) == log_contents(*old(conn)),
            Err(e) => e == LogError::StorageFault && log_contents(*final(conn)) == log_contents(
                *old(conn),
            ),
        },
{
    let q = format!("INSERT INTO `{}` (episode) VALUES (?1)", name);
    match conn.execute(&q, (episode,)) {
        Ok(_) => Ok(true),
        Err(rusqlite::Error::SqliteFailure(e, _)) => match e.code {
            rusqlite::ErrorCode::ConstraintViolation => Ok(false),
            _ => Err(LogError::StorageFault),
        },
        Err(_) => Err(LogError::StorageFault),
    }
}

/// Relies on rusqlite's `Connection::query_row` running one
/// `SELECT EXISTS` query: it reports whether the episode is recorded
/// in the partition and does not change the store.
#[verifier::external_body]
fn db_exists(conn: &rusqlite::Connection, name: &str, episode: &str) -> (r: Result<bool, LogError>)
    requires
        safe_name(name@),
    ensures
        match r {
            Ok(b) => log_contents(*conn).dom().contains(name@) && b == log_contents(
                *conn,
            )[name@].contains(episode@),
            Err(e) => e == LogError::StorageFault,
        },
{
    let q = format!("SELECT EXISTS(SELECT 1 FROM `{}` WHERE episode = ?1)", name);
    match conn.query_row(&q, (episode,), |row| row.get::<usize, bool>(0)) {
        Ok(b) => Ok(b),
        Err(_) => Err(LogError::StorageFault),
    }
}

/// The idempotency log. Its view is its model: partition name to the
/// set of recorded episode titles.
pub struct Log {
    conn: rusqlite::Connection,
}

impl View for Log {
    type V = LogModel;

    closed spec fn view(&self) -> LogModel {
        log_contents(self.conn)
    }
}

impl Log {
    /// Opens the log at its fixed store file in the working
    /// directory. Records of earlier runs are kept.
    pub fn new() -> (r: Result<Log, LogError>)
        ensures
            r matches Err(e) ==> e == LogError::StorageFault,
    {
        Log::open_at("PodcastLibrary.db")
    }

    /// Opens the log at the given store path. Records of earlier runs
    /// are kept.
    pub fn open_at(path: &str) -> (r: Result<Log, LogError>)
        ensures
            r matches Err(e) ==> e == LogError::StorageFault,
    {
        match db_open(path) {
            Ok(conn) => Ok(Log { conn }),
            Err(e) => Err(e),
        }
    }

    /// Opens a log whose store lives in memory and starts empty; it
    /// keeps nothing across runs.
    pub fn open_in_memory() -> (r: Result<Log, LogError>)
        ensures
            match r {
                Ok(log) => log@ == Map::<Seq<char>, Set<Seq<char>>>::empty(),
                Err(e) => e == LogError::StorageFault,
            },
    {
        match db_open_memory() {
            Ok(conn) => Ok(Log { conn }),
            Err(e) => Err(e),
        }
    }

    /// Creates the partition for a podcast if it is absent; existing
    /// records are kept, so calling this again on a later run is
    /// harmless. A name unsafe as a partition key is rejected.
    pub fn create_podcast_table(&mut self, name: &str) -> (r: Result<(), LogError>)
        ensures
            !safe_name(name@) ==> r == Err::<(), LogError>(LogError::UnsafeName) && final(self)@
                == old(self)@,
            safe_name(name@) ==> match r {
                Ok(()) => final(self)@ == old(self)@.insert(
                    name@,
                    if old(self)@.dom().contains(name@) {
                        old(self)@[name@]
                    } else {
                        Set::empty()
                    },
                ),
                Err(e) => e == LogError::StorageFault && final(self)@ == old(self)@,
            },
    {
        if !is_safe_name(name) {
            return Err(LogError::UnsafeName);
        }
        db_create_partition(&mut self.conn, name)
    }

    /// Reports whether an episode is recorded in a podcast's
    /// partition. A storage error is an error, never a silent
    /// "absent".
    pub fn entry_exists(&self, podcast: &str, episode: &str) -> (r: Result<bool, LogError>)
        ensures
            !safe_name(podcast@) ==> r == Err::<bool, LogError>(LogError::UnsafeName),
            safe_name(podcast@) ==> match r {
                Ok(b) => self@.dom().contains(podcast@) && b == model_has(
                    self@,
                    podcast@,
                    episode@,
                ),
                Err(e) => e == LogError::StorageFault,
            },
    {
        if !is_safe_name(podcast) {
            return Err(LogError::UnsafeName);
        }
        db_exists(&self.conn, podcast, episode)
    }

    /// Claims `(podcast, episode)` in one atomic conditional insert:
    /// `Ok(true)` means this caller now holds the claim and should
    /// download, `Ok(false)` that the episode was already recorded
    /// and must be skipped. The check and the insert are one
    /// statement, so of any number of racing callers exactly one is
    /// granted the claim.
    pub fn try_claim(&mut self, podcast: &str, episode: &str) -> (r: Result<bool, LogError>)
        ensures
            !safe_name(podcast@) ==> r == Err::<bool, LogError>(LogError::UnsafeName) && final(self)@ == old(self)@,
            safe_name(podcast@) ==> match r {
                Ok(b) => old(self)@.dom().contains(podcast@) && b == claim_granted(
                    old(self)@,
                    podcast@,
                    episode@,
                ) && final(self)@ == claim_next(old(self)@, podcast@, episode@),
                Err(e) => e == LogError::StorageFault && final(self)@ == old(self)@,
            },
    {
        if !is_safe_name(podcast) {
            return Err(LogError::UnsafeName);
        }
        db_insert(&mut self.conn, podcast, episode)
    }

    /// Records `(podcast, episode)` as completed; an episode already
    /// recorded is a `DuplicateClaim` error, and the store is then
    /// unchanged.
    pub fn update_log(&mut self, podcast: &str, episode: &str) -> (r: Result<(), LogError>)
        ensures
            !safe_name(podcast@) ==> r == Err::<(), LogError>(LogError::UnsafeName) && final(self)@ == old(self)@,
            safe_name(podcast@) ==> match r {
                Ok(()) => claim_granted(old(self)@, podcast@, episode@) && final(self)@
                    == claim_next(old(self)@, podcast@, episode@),
                Err(e) => final(self)@ == old(self)@ && (e == LogError::DuplicateClaim
                    && model_has(old(self)@, podcast@, episode@) || e == LogError::StorageFault),
            },
    {
        match self.try_claim(podcast, episode) {
            Ok(true) => Ok(()),
            Ok(false) => Err(LogError::DuplicateClaim),
            Err(e) => Err(e),
        }
    }
}

} // verus!
