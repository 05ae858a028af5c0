//! The dispatch pipeline: setup, listing collection, the claim phase,
//! and outcome accounting.
//!
//! Per podcast the pipeline ensures a log partition and a destination
//! directory; failure there removes only that podcast. The surviving
//! podcasts' listings are flattened into one work list. Every entry is
//! then claimed in the idempotency log before its download: a denied
//! claim means the episode is already recorded and is skipped, and a
//! claim once granted is never taken back — an entry whose download
//! then fails stays recorded and is skipped on later runs, a stated
//! trade-off that avoids duplicate downloads after a crash.

use vstd::prelude::*;
use crate::downloader::PodcastEntry;
use crate::errors::PodError;
use crate::logger::{Log, LogModel, model_has, claim_granted, claim_next};

verus! {

/// What became of one entry: still to download, already recorded,
/// downloaded now, or failed with its reason.
#[derive(Clone, Copy, Debug, PartialEq, Eq, Structural)]
pub enum Outcome {
    Pending,
    Skipped,
    Downloaded,
    Failed(PodError),
}

impl Outcome {
    /// The status word a report line shows for this outcome.
    pub fn label(&self) -> (r: &'static str)
        ensures
            *self is Pending ==> r@ == "PENDING"@,
            *self is Skipped ==> r@ == "SKIPPED"@,
            *self is Downloaded ==> r@ == "DOWNLOADED"@,
            *self is Failed ==> r@ == "FAILED"@,
    {
        match self {
            Outcome::Pending => "PENDING",
            Outcome::Skipped => "SKIPPED",
            Outcome::Downloaded => "DOWNLOADED",
            Outcome::Failed(_) => "FAILED",
        }
    }
}

/// The unit of dispatch: one entry and what became of it.
pub struct WorkItem {
    pub entry: PodcastEntry,
    pub outcome: Outcome,
}

/// What directory setup still has to do.
#[derive(Clone, Copy, Debug, PartialEq, Eq, Structural)]
pub enum TreeAction {
    AlreadyReady,
    Create,
}

/// Decides directory setup for a destination, given whether the path
/// exists and whether it is a directory: an existing non-directory is
/// a conflict, an existing directory needs nothing, and an absent
/// path must be created.
pub fn plan_tree(exists: bool, is_dir: bool) -> (r: Result<TreeAction, PodError>)
    ensures
        exists && !is_dir ==> r == Err::<TreeAction, PodError>(PodError::PathConflict),
        exists && is_dir ==> r == Ok::<TreeAction, PodError>(TreeAction::AlreadyReady),
        !exists ==> r == Ok::<TreeAction, PodError>(TreeAction::Create),
{
    if exists {
        if is_dir {
            Ok(TreeAction::AlreadyReady)
        } else {
            Err(PodError::PathConflict)
        }
    } else {
        Ok(TreeAction::Create)
    }
}

/// One podcast's setup: ensure its partition in the log, then decide
/// its directory under the destination root. On success the partition
/// exists with its records kept and the directory decision is
/// returned; a conflict or a storage fault removes only this podcast
/// from the run.
pub fn setup_podcast(log: &mut Log, name: &str, dir_exists: bool, dir_is_dir: bool) -> (r: Result<
    TreeAction,
    PodError,
>)
    ensures
        ({
            let updated = old(log)@.insert(
                name@,
                if old(log)@.dom().contains(name@) {
                    old(log)@[name@]
                } else {
                    Set::empty()
                },
            );
            match r {
                Ok(a) => crate::paths::safe_name(name@) && final(log)@ == updated && (!dir_exists
                    || dir_is_dir) && a == (if dir_exists {
                    TreeAction::AlreadyReady
                } else {
                    TreeAction::Create
                }),
                Err(e) => (final(log)@ == old(log)@ || final(log)@ == updated) && (e
                    == PodError::PathConflict || e == PodError::StorageFault) && (e
                    == PodError::PathConflict ==> dir_exists && !dir_is_dir && final(log)@
                    == updated && crate::paths::safe_name(name@)),
            }
        }),
{
    match log.create_podcast_table(name) {
        Err(e) => Err(PodError::from_log(e)),
        Ok(()) => {
            match plan_tree(dir_exists, dir_is_dir) {
                Err(e) => Err(e),
                Ok(a) => Ok(a),
            }
        },
    }
}

/// The entries of a successful listing; a failed one contributes
/// nothing.
pub open spec fn ok_seq(r: Result<Vec<PodcastEntry>, PodError>) -> Seq<PodcastEntry> {
    match r {
        Ok(v) => v@,
        Err(_) => Seq::empty(),
    }
}

/// The flat work list a sequence of per-podcast listings yields, in
/// order: each successful listing's entries, each failed one skipped.
pub open spec fn flatten_ok(s: Seq<Result<Vec<PodcastEntry>, PodError>>) -> Seq<PodcastEntry>
    decreases s.len(),
{
    if s.len() == 0 {
        Seq::empty()
    } else {
        ok_seq(s[0]) + flatten_ok(s.drop_first())
    }
}

/// Flattens per-podcast listings into the single work list: the
/// entries of every successful listing, in listing order, whatever
/// became of the other podcasts.
pub fn collect_entries(listings: Vec<Result<Vec<PodcastEntry>, PodError>>) -> (flat: Vec<
    PodcastEntry,
>)
    ensures
        flat@ == flatten_ok(listings@),
{
    let ghost all = listings@;
    let mut src = listings;
    let mut flat: Vec<PodcastEntry> = Vec::new();
    while src.len() > 0
        invariant
            flat@ + flatten_ok(src@) == flatten_ok(all),
        decreases src.len(),
    {
        let ghost src0 = src@;
        let ghost flat0 = flat@;
        let first = src.remove(0);
        let ghost f0 = first;
        proof {
            assert(src@ =~= src0.drop_first());
            assert(flatten_ok(src0) == ok_seq(f0) + flatten_ok(src@));
        }
        match first {
            Ok(mut es) => {
                let ghost es0 = es@;
                proof {
                    assert(ok_seq(f0) == es0);
                }
                flat.append(&mut es);
                proof {
                    assert((flat0 + es0) + flatten_ok(src@) =~= flat0 + (es0 + flatten_ok(src@)));
                }
            },
            Err(_) => {
                proof {
                    assert(ok_seq(f0) =~= Seq::<PodcastEntry>::empty());
                    assert(flat@ + flatten_ok(src@) =~= flat0 + (ok_seq(f0) + flatten_ok(src@)));
                }
            },
        }
    }
    proof {
        assert(flatten_ok(src@) =~= Seq::<PodcastEntry>::empty());
        assert(flat@ =~= flatten_ok(all));
    }
    flat
}

/// Partial-failure isolation: a podcast whose listing succeeded keeps
/// every one of its entries in the flat work list, whatever became of
/// the other podcasts' listings.
pub proof fn lemma_partial_failure_isolation(
    listings: Seq<Result<Vec<PodcastEntry>, PodError>>,
    i: int,
    j: int,
)
    requires
        0 <= i < listings.len(),
        listings[i] is Ok,
        0 <= j < ok_seq(listings[i]).len(),
    ensures
        flatten_ok(listings).contains(ok_seq(listings[i])[j]),
    decreases listings.len(),
{
    if i == 0 {
        assert(flatten_ok(listings)[j] == ok_seq(listings[0])[j]);
        assert(flatten_ok(listings).contains(ok_seq(listings[i])[j]));
    } else {
        let rest = listings.drop_first();
        lemma_partial_failure_isolation(rest, i - 1, j);
        let x = ok_seq(listings[i])[j];
        let k = choose|k: int| 0 <= k < flatten_ok(rest).len() && flatten_ok(rest)[k] == x;
        assert(flatten_ok(listings)[ok_seq(listings[0]).len() + k] == x);
        assert(flatten_ok(listings).contains(x));
    }
}

/// The claim keys of a list of entries: each entry's podcast name and
/// title, in order.
pub open spec fn keys_of(s: Seq<PodcastEntry>) -> Seq<(Seq<char>, Seq<char>)> {
    s.map_values(|e: PodcastEntry| (e@.name, e@.title))
}

/// The log after claims on `keys`, in order, each taking effect as
/// `claim_next` says.
pub open spec fn run_next(m: LogModel, keys: Seq<(Seq<char>, Seq<char>)>) -> LogModel
    decreases keys.len(),
{
    if keys.len() == 0 {
        m
    } else {
        claim_next(run_next(m, keys.drop_last()), keys.last().0, keys.last().1)
    }
}

/// Which of the claims on `keys`, in order, are granted.
pub open spec fn run_granted(m: LogModel, keys: Seq<(Seq<char>, Seq<char>)>) -> Seq<bool>
    decreases keys.len(),
{
    if keys.len() == 0 {
        Seq::empty()
    } else {
        run_granted(m, keys.drop_last()).push(
            claim_granted(run_next(m, keys.drop_last()), keys.last().0, keys.last().1),
        )
    }
}

/// `run_granted` yields one answer per key.
pub proof fn lemma_run_granted_len(m: LogModel, keys: Seq<(Seq<char>, Seq<char>)>)
    ensures
        run_granted(m, keys).len() == keys.len(),
    decreases keys.len(),
{
    if keys.len() > 0 {
        lemma_run_granted_len(m, keys.drop_last());
    }
}

/// `m2` holds every partition and every record of `m1`.
pub open spec fn log_extends(m2: LogModel, m1: LogModel) -> bool {
    &&& forall|p: Seq<char>| #[trigger] m1.dom().contains(p) ==> m2.dom().contains(p)
    &&& forall|p: Seq<char>, t: Seq<char>| #[trigger] model_has(m1, p, t) ==> model_has(m2, p, t)
}

/// One claim only ever adds a record.
pub proof fn lemma_claim_next_extends(m: LogModel, p: Seq<char>, t: Seq<char>)
    ensures
        log_extends(claim_next(m, p, t), m),
{
}

/// Extension is transitive.
pub proof fn lemma_extends_trans(a: LogModel, b: LogModel, c: LogModel)
    requires
        log_extends(b, a),
        log_extends(c, b),
    ensures
        log_extends(c, a),
{
}

/// A whole claim phase only ever adds records.
pub proof fn lemma_run_extends(m: LogModel, keys: Seq<(Seq<char>, Seq<char>)>)
    ensures
        log_extends(run_next(m, keys), m),
    decreases keys.len(),
{
    if keys.len() == 0 {
    } else {
        let prev = run_next(m, keys.drop_last());
        lemma_run_extends(m, keys.drop_last());
        lemma_claim_next_extends(prev, keys.last().0, keys.last().1);
        lemma_extends_trans(m, prev, run_next(m, keys));
    }
}

/// After a claim phase, every key whose partition existed at the
/// start is recorded — whether its claim was granted here or it was
/// already recorded before.
pub proof fn lemma_run_records(m: LogModel, keys: Seq<(Seq<char>, Seq<char>)>, i: int)
    requires
        0 <= i < keys.len(),
        m.dom().contains(keys[i].0),
    ensures
        model_has(run_next(m, keys), keys[i].0, keys[i].1),
    decreases keys.len(),
{
    let prev = run_next(m, keys.drop_last());
    if i < keys.len() - 1 {
        lemma_run_records(m, keys.drop_last(), i);
        lemma_claim_next_extends(prev, keys.last().0, keys.last().1);
    } else {
        let p = keys.last().0;
        let t = keys.last().1;
        lemma_run_extends(m, keys.drop_last());
        assert(prev.dom().contains(p));
        if claim_granted(prev, p, t) {
            assert(model_has(claim_next(prev, p, t), p, t));
        } else {
            assert(model_has(prev, p, t));
        }
    }
}

/// A key already recorded is never granted, at whatever position its
/// claim comes.
pub proof fn lemma_no_grant_if_has(m: LogModel, keys: Seq<(Seq<char>, Seq<char>)>, i: int)
    requires
        0 <= i < keys.len(),
        model_has(m, keys[i].0, keys[i].1),
    ensures
        run_granted(m, keys)[i] == false,
    decreases keys.len(),
{
    lemma_run_granted_len(m, keys.drop_last());
    if i < keys.len() - 1 {
        lemma_no_grant_if_has(m, keys.drop_last(), i);
    } else {
        lemma_run_extends(m, keys.drop_last());
        assert(model_has(run_next(m, keys.drop_last()), keys[i].0, keys[i].1));
    }
}

/// A claim phase over keys that are all recorded already grants
/// nothing and changes nothing.
pub proof fn lemma_run_unchanged_if_all_has(m: LogModel, keys: Seq<(Seq<char>, Seq<char>)>)
    requires
        forall|i: int| 0 <= i < keys.len() ==> model_has(m, (#[trigger] keys[i]).0, keys[i].1),
    ensures
        run_next(m, keys) == m,
        forall|i: int| 0 <= i < keys.len() ==> #[trigger] run_granted(m, keys)[i] == false,
    decreases keys.len(),
{
    lemma_run_granted_len(m, keys);
    if keys.len() > 0 {
        assert(forall|i: int|
            0 <= i < keys.drop_last().len() ==> model_has(
                m,
                (#[trigger] keys.drop_last()[i]).0,
                keys.drop_last()[i].1,
            ));
        lemma_run_unchanged_if_all_has(m, keys.drop_last());
        lemma_run_granted_len(m, keys.drop_last());
        assert(keys[keys.len() - 1] == keys.last());
        assert(model_has(m, keys.last().0, keys.last().1));
        assert(!claim_granted(run_next(m, keys.drop_last()), keys.last().0, keys.last().1));
        assert(run_next(m, keys) == m);
        assert(forall|i: int|
            0 <= i < keys.len() - 1 ==> #[trigger] run_granted(m, keys)[i] == run_granted(
                m,
                keys.drop_last(),
            )[i]);
    }
}

/// Idempotence across runs: when every entry's partition is in the
/// log, a first claim phase records every entry's key, and a second
/// phase over the same list grants nothing — every entry is skipped
/// and the log is unchanged.
pub proof fn lemma_second_run_skips_all(m: LogModel, keys: Seq<(Seq<char>, Seq<char>)>)
    requires
        forall|i: int| 0 <= i < keys.len() ==> m.dom().contains((#[trigger] keys[i]).0),
    ensures
        forall|i: int|
            0 <= i < keys.len() ==> model_has(
                run_next(m, keys),
                (#[trigger] keys[i]).0,
                keys[i].1,
            ),
        forall|i: int|
            0 <= i < keys.len() ==> #[trigger] run_granted(run_next(m, keys), keys)[i] == false,
        run_next(run_next(m, keys), keys) == run_next(m, keys),
{
    let m1 = run_next(m, keys);
    assert forall|i: int| 0 <= i < keys.len() implies model_has(
        m1,
        (#[trigger] keys[i]).0,
        keys[i].1,
    ) by {
        lemma_run_records(m, keys, i);
    }
    lemma_run_unchanged_if_all_has(m1, keys);
}

/// The keys of `n` callers racing a claim on the same `(p, t)`.
pub open spec fn repeat_key(p: Seq<char>, t: Seq<char>, n: nat) -> Seq<(Seq<char>, Seq<char>)> {
    Seq::new(n, |i: int| (p, t))
}

/// How many of a phase's claims were granted.
pub open spec fn count_granted(s: Seq<bool>) -> nat
    decreases s.len(),
{
    if s.len() == 0 {
        0
    } else {
        count_granted(s.drop_last()) + (if s.last() {
            1nat
        } else {
            0nat
        })
    }
}

/// Claiming the same key again changes nothing further.
pub proof fn lemma_repeat_stable(m: LogModel, p: Seq<char>, t: Seq<char>, n: nat)
    requires
        n >= 1,
    ensures
        run_next(m, repeat_key(p, t, n)) == claim_next(m, p, t),
    decreases n,
{
    let empty = Seq::<(Seq<char>, Seq<char>)>::empty();
    if n == 1 {
        assert(repeat_key(p, t, 1).drop_last() =~= empty);
        assert(run_next(m, empty) == m);
        assert(repeat_key(p, t, 1).last() == (p, t));
        assert(run_next(m, repeat_key(p, t, 1)) == claim_next(run_next(m, empty), p, t));
    } else {
        assert(repeat_key(p, t, n).drop_last() =~= repeat_key(p, t, (n - 1) as nat));
        assert(repeat_key(p, t, n).last() == (p, t));
        lemma_repeat_stable(m, p, t, (n - 1) as nat);
        assert(run_next(m, repeat_key(p, t, n)) == claim_next(claim_next(m, p, t), p, t));
        assert(!claim_granted(claim_next(m, p, t), p, t));
    }
}

/// At-most-one-claim: of `n` callers racing a claim on the same
/// `(p, t)`, exactly one is granted when the partition exists and the
/// episode is unrecorded, and none otherwise.
pub proof fn lemma_at_most_one_claim(m: LogModel, p: Seq<char>, t: Seq<char>, n: nat)
    requires
        n >= 1,
    ensures
        count_granted(run_granted(m, repeat_key(p, t, n))) == (if claim_granted(m, p, t) {
            1nat
        } else {
            0nat
        }),
    decreases n,
{
    lemma_run_granted_len(m, repeat_key(p, t, n));
    let g = run_granted(m, repeat_key(p, t, n));
    let empty = Seq::<(Seq<char>, Seq<char>)>::empty();
    if n == 1 {
        assert(repeat_key(p, t, 1).drop_last() =~= empty);
        assert(repeat_key(p, t, 1).last() == (p, t));
        assert(run_granted(m, empty) == Seq::<bool>::empty());
        assert(run_next(m, empty) == m);
        assert(g == Seq::<bool>::empty().push(claim_granted(m, p, t)));
        assert(g.drop_last() =~= Seq::<bool>::empty());
        assert(count_granted(g.drop_last()) == 0);
        assert(g.last() == claim_granted(m, p, t));
    } else {
        assert(repeat_key(p, t, n).drop_last() =~= repeat_key(p, t, (n - 1) as nat));
        assert(repeat_key(p, t, n).last() == (p, t));
        lemma_at_most_one_claim(m, p, t, (n - 1) as nat);
        lemma_repeat_stable(m, p, t, (n - 1) as nat);
        assert(!claim_granted(run_next(m, repeat_key(p, t, (n - 1) as nat)), p, t));
        assert(g == run_granted(m, repeat_key(p, t, (n - 1) as nat)).push(false));
        assert(g.drop_last() =~= run_granted(m, repeat_key(p, t, (n - 1) as nat)));
        assert(g.last() == false);
    }
}

/// The claim-before-completion trade-off: a key granted in one phase
/// is recorded whatever its download's outcome — nothing removes a
/// claim — so the same key is denied, and its entry skipped, in any
/// later phase.
pub proof fn lemma_failed_download_not_retried(
    m: LogModel,
    keys: Seq<(Seq<char>, Seq<char>)>,
    i: int,
)
    requires
        0 <= i < keys.len(),
        run_granted(m, keys)[i] == true,
    ensures
        model_has(run_next(m, keys), keys[i].0, keys[i].1),
        run_granted(run_next(m, keys), keys)[i] == false,
    decreases keys.len(),
{
    lemma_run_granted_len(m, keys.drop_last());
    if i < keys.len() - 1 {
        assert(run_granted(m, keys)[i] == run_granted(m, keys.drop_last())[i]);
        lemma_failed_download_not_retried(m, keys.drop_last(), i);
        lemma_claim_next_extends(run_next(m, keys.drop_last()), keys.last().0, keys.last().1);
        lemma_no_grant_if_has(run_next(m, keys), keys, i);
    } else {
        let prev = run_next(m, keys.drop_last());
        assert(claim_granted(prev, keys.last().0, keys.last().1));
        assert(model_has(claim_next(prev, keys.last().0, keys.last().1), keys[i].0, keys[i].1));
        lemma_no_grant_if_has(run_next(m, keys), keys, i);
    }
}

/// No item of the claim phase hit a log fault.
pub open spec fn no_failures(s: Seq<WorkItem>) -> bool {
    forall|j: int| 0 <= j < s.len() ==> !((#[trigger] s[j]).outcome is Failed)
}

/// The claim phase: claims every entry of the flat work list, in
/// order, each in one atomic conditional insert. A granted claim
/// leaves the entry `Pending` for download; a denied one means the
/// episode is already recorded and yields `Skipped`; a log fault
/// yields `Failed` and claims nothing for that entry. An episode
/// recorded before the phase is never `Pending`, so it is never
/// downloaded again; and without faults the phase is exactly the
/// model run `run_next`/`run_granted` over the entries' keys.
pub fn claim_all(log: &mut Log, entries: Vec<PodcastEntry>) -> (items: Vec<WorkItem>)
    ensures
        items@.len() == entries@.len(),
        forall|j: int| 0 <= j < items@.len() ==> (#[trigger] items@[j]).entry == entries@[j],
        forall|j: int|
            0 <= j < items@.len() ==> ((#[trigger] items@[j]).outcome is Pending
                || items@[j].outcome is Skipped || items@[j].outcome == Outcome::Failed(
                PodError::StorageFault,
            )),
        log_extends(final(log)@, old(log)@),
        forall|j: int|
            0 <= j < items@.len() ==> (model_has(
                old(log)@,
                entries@[j]@.name,
                entries@[j]@.title,
            ) ==> !((#[trigger] items@[j]).outcome is Pending)),
        forall|j: int|
            0 <= j < items@.len() ==> (((#[trigger] items@[j]).outcome is Pending
                || items@[j].outcome is Skipped) ==> model_has(
                final(log)@,
                entries@[j]@.name,
                entries@[j]@.title,
            )),
        no_failures(items@) ==> final(log)@ == run_next(old(log)@, keys_of(entries@)) && (forall|
            j: int,
        |
            0 <= j < items@.len() ==> ((#[trigger] items@[j]).outcome is Pending <==> run_granted(
                old(log)@,
                keys_of(entries@),
            )[j])),
{
    let ghost m0 = log@;
    let ghost ents = entries@;
    let ghost keys = keys_of(ents);
    let mut src = entries;
    let mut items: Vec<WorkItem> = Vec::new();
    while src.len() > 0
        invariant
            items@.len() + src@.len() == ents.len(),
            src@ == ents.skip(items@.len() as int),
            keys == keys_of(ents),
            m0 == old(log)@,
            log_extends(log@, m0),
            forall|j: int| 0 <= j < items@.len() ==> (#[trigger] items@[j]).entry == ents[j],
            forall|j: int|
                0 <= j < items@.len() ==> ((#[trigger] items@[j]).outcome is Pending
                    || items@[j].outcome is Skipped || items@[j].outcome == Outcome::Failed(
                    PodError::StorageFault,
                )),
            forall|j: int|
                0 <= j < items@.len() ==> (model_has(m0, ents[j]@.name, ents[j]@.title) ==> !((
                #[trigger] items@[j]).outcome is Pending)),
            forall|j: int|
                0 <= j < items@.len() ==> (((#[trigger] items@[j]).outcome is Pending
                    || items@[j].outcome is Skipped) ==> model_has(
                    log@,
                    ents[j]@.name,
                    ents[j]@.title,
                )),
            no_failures(items@) ==> log@ == run_next(m0, keys.take(items@.len() as int)) && (
            forall|j: int|
                0 <= j < items@.len() ==> ((#[trigger] items@[j]).outcome is Pending
                    <==> run_granted(m0, keys.take(items@.len() as int))[j])),
        decreases src.len(),
    {
        let ghost i = items@.len() as int;
        let ghost logpre = log@;
        let entry = src.remove(0);
        proof {
            assert(src@ =~= ents.skip(i + 1));
            assert(entry == ents[i]);
        }
        let claim = log.try_claim(entry.name().as_str(), entry.title().as_str());
        let outcome = match claim {
            Ok(true) => Outcome::Pending,
            Ok(false) => Outcome::Skipped,
            Err(e) => Outcome::Failed(PodError::from_log(e)),
        };
        let ghost items0 = items@;
        items.push(WorkItem { entry, outcome });
        proof {
            let p = ents[i]@.name;
            let t = ents[i]@.title;
            assert(keys[i] == (p, t));
            lemma_claim_next_extends(logpre, p, t);
            lemma_extends_trans(m0, logpre, log@);
            if model_has(m0, p, t) {
                assert(model_has(logpre, p, t));
            }
            assert(keys.take(i + 1).drop_last() =~= keys.take(i));
            assert(keys.take(i + 1).last() == keys[i]);
            lemma_run_granted_len(m0, keys.take(i));
            lemma_run_granted_len(m0, keys.take(i + 1));
            if no_failures(items@) {
                assert(forall|j: int|
                    0 <= j < items0.len() ==> (#[trigger] items0[j]) == items@[j]);
                assert(no_failures(items0));
                assert(logpre == run_next(m0, keys.take(i)));
                assert(claim is Ok);
                assert(run_next(m0, keys.take(i + 1)) == claim_next(logpre, p, t));
                assert(run_granted(m0, keys.take(i + 1)) == run_granted(m0, keys.take(i)).push(
                    claim_granted(logpre, p, t),
                ));
                assert(run_granted(m0, keys.take(i + 1))[i] == claim_granted(logpre, p, t));
                assert(forall|j: int|
                    0 <= j < i ==> #[trigger] run_granted(m0, keys.take(i + 1))[j] == run_granted(
                        m0,
                        keys.take(i),
                    )[j]);
                assert(items@[i].outcome is Pending <==> claim_granted(logpre, p, t));
            }
        }
    }
    proof {
        assert(items@.len() == ents.len());
        assert(keys.take(ents.len() as int) =~= keys);
    }
    items
}

/// Records a download attempt's result on a claimed work item: a
/// failure is never reported as success, and the claim made before
/// the download stays in the log either way.
pub fn record_download(item: WorkItem, result: Result<(), PodError>) -> (r: WorkItem)
    requires
        item.outcome is Pending,
    ensures
        r.entry == item.entry,
        r.outcome == (match result {
            Ok(()) => Outcome::Downloaded,
            Err(e) => Outcome::Failed(e),
        }),
{
    let outcome = match result {
        Ok(()) => Outcome::Downloaded,
        Err(e) => Outcome::Failed(e),
    };
    WorkItem { entry: item.entry, outcome }
}

/// How many items were downloaded.
pub open spec fn count_downloaded(s: Seq<WorkItem>) -> nat
    decreases s.len(),
{
    if s.len() == 0 {
        0
    } else {
        count_downloaded(s.drop_last()) + (if s.last().outcome is Downloaded {
            1nat
        } else {
            0nat
        })
    }
}

/// How many items were skipped.
pub open spec fn count_skipped(s: Seq<WorkItem>) -> nat
    decreases s.len(),
{
    if s.len() == 0 {
        0
    } else {
        count_skipped(s.drop_last()) + (if s.last().outcome is Skipped {
            1nat
        } else {
            0nat
        })
    }
}

/// How many items failed.
pub open spec fn count_failed(s: Seq<WorkItem>) -> nat
    decreases s.len(),
{
    if s.len() == 0 {
        0
    } else {
        count_failed(s.drop_last()) + (if s.last().outcome is Failed {
            1nat
        } else {
            0nat
        })
    }
}

/// How many items still await their download.
pub open spec fn count_pending(s: Seq<WorkItem>) -> nat
    decreases s.len(),
{
    if s.len() == 0 {
        0
    } else {
        count_pending(s.drop_last()) + (if s.last().outcome is Pending {
            1nat
        } else {
            0nat
        })
    }
}

/// The run's final tally.
#[derive(Clone, Copy, Debug, PartialEq, Eq, Structural)]
pub struct Summary {
    pub downloaded: usize,
    pub skipped: usize,
    pub failed: usize,
    pub pending: usize,
}

/// Tallies the outcomes of a finished run.
pub fn summarize(items: &Vec<WorkItem>) -> (r: Summary)
    ensures
        r.downloaded == count_downloaded(items@),
        r.skipped == count_skipped(items@),
        r.failed == count_failed(items@),
        r.pending == count_pending(items@),
{
    let mut downloaded: usize = 0;
    let mut skipped: usize = 0;
    let mut failed: usize = 0;
    let mut pending: usize = 0;
    let mut i: usize = 0;
    while i < items.len()
        invariant
            i <= items@.len(),
            downloaded + skipped + failed + pending == i,
            downloaded == count_downloaded(items@.take(i as int)),
            skipped == count_skipped(items@.take(i as int)),
            failed == count_failed(items@.take(i as int)),
            pending == count_pending(items@.take(i as int)),
        decreases items@.len() - i,
    {
        proof {
            assert(items@.take(i + 1).drop_last() =~= items@.take(i as int));
            assert(items@.take(i + 1).last() == items@[i as int]);
        }
        match &items[i].outcome {
            Outcome::Downloaded => {
                downloaded = downloaded + 1;
            },
            Outcome::Skipped => {
                skipped = skipped + 1;
            },
            Outcome::Failed(_) => {
                failed = failed + 1;
            },
            Outcome::Pending => {
                pending = pending + 1;
            },
        }
        i = i + 1;
    }
    proof {
        assert(items@.take(items@.len() as int) =~= items@);
    }
    Summary { downloaded, skipped, failed, pending }
}

} // verus!
