//! Durable batch progress.
//!
//! The engine keeps its queue and results in memory. A checkpoint mirrors them
//! to disk after every trainee, because the question it answers ("what did
//! this batch already write to the portal?") has to outlive the process.

use vstd::prelude::*;

use crate::report::{
    copy_text, opt_text, result_views, texts, Outcome, ResultView, TrainingResult,
};
use crate::text::{owned, same_text};

verus! {

/// Lifecycle of a persisted batch.
///
/// `Running` and `Paused` are live states: finding either one on startup means
/// the process that wrote it never reached a terminal state, so it was killed.
/// `Interrupted` records that conclusion.
#[derive(Debug, Clone, Copy, PartialEq, Eq, Structural)]
pub enum CheckpointStatus {
    Running,
    Paused,
    Finished,
    Interrupted,
}

/// A durable snapshot of batch progress.
#[derive(Debug, Clone)]
pub struct BatchCheckpoint {
    pub status: CheckpointStatus,
    /// Matches the report's `started_at` for the same batch.
    pub started_at: String,
    /// Refreshed on every write.
    pub updated_at: String,
    /// Trainees in the batch as originally queued.
    pub total: usize,
    /// Results recorded so far, in completion order.
    pub results: Vec<TrainingResult>,
    /// Trainee ids still queued, in order. Empty once the queue drains.
    pub pending: Vec<String>,
    /// The trainee handed to the worker whose result has not come back yet.
    ///
    /// The one window in which a trainee belongs to no other field: it has left
    /// `pending` and has no entry in `results`. Non-`None` only in the write
    /// taken immediately before the submission is sent.
    pub in_flight: Option<String>,
}

/// Receives each checkpoint the engine produces.
///
/// Implementations own their own error reporting. The engine drops the error
/// on purpose, except for the write taken before a submission: a storage fault
/// must not abort a batch that is otherwise submitting successfully.
pub trait CheckpointWriter {
    fn write(&mut self, checkpoint: &BatchCheckpoint) -> Result<(), String>;
}

/// Error code on the synthesized record for a trainee left in flight by a crash.
pub const IN_FLIGHT_CODE: &'static str = "CRASH_IN_FLIGHT";

/// Why that record is unconfirmed, in the operator's terms.
pub const IN_FLIGHT_MESSAGE: &'static str =
    "dequeued but no result was recorded — the submission may have reached the portal";

/// Error code on the synthesized record for the trainee a file from a build
/// without in-flight tracking left at the head of its queue. Distinct from
/// [`IN_FLIGHT_CODE`] because the two say different things to whoever reads
/// the report.
pub const LEGACY_PENDING_CODE: &'static str = "CRASH_UNTRACKED_PENDING";

/// Why that record is unconfirmed, in the operator's terms.
pub const LEGACY_PENDING_MESSAGE: &'static str =
    "was next in queue when a build without in-flight tracking died — the submission may have reached the portal";

/// The trainees a checkpoint cannot account for.
#[derive(Debug, Clone)]
pub struct Unreconciled {
    pub indeterminate: Vec<TrainingResult>,
    pub unprocessed: Vec<String>,
}

/// A checkpoint as plain values.
pub struct CheckpointView {
    pub status: CheckpointStatus,
    pub started_at: Seq<char>,
    pub updated_at: Seq<char>,
    pub total: nat,
    pub results: Seq<ResultView>,
    pub pending: Seq<Seq<char>>,
    pub in_flight: Option<Seq<char>>,
}

impl View for BatchCheckpoint {
    type V = CheckpointView;

    open spec fn view(&self) -> CheckpointView {
        CheckpointView {
            status: self.status,
            started_at: self.started_at@,
            updated_at: self.updated_at@,
            total: self.total as nat,
            results: result_views(self.results@),
            pending: texts(self.pending@),
            in_flight: opt_text(self.in_flight),
        }
    }
}

/// Whether a status is one a batch is still expected to run in.
pub open spec fn live_status(status: CheckpointStatus) -> bool {
    status == CheckpointStatus::Running || status == CheckpointStatus::Paused
}

/// The unconfirmed record a trainee left in flight stands for.
pub open spec fn in_flight_view(id: Seq<char>) -> ResultView {
    ResultView {
        trainee_id: id,
        trainee_name: Seq::empty(),
        outcome: Outcome::Indeterminate,
        attempts: 0,
        error_code: Some(IN_FLIGHT_CODE@),
        message: Some(IN_FLIGHT_MESSAGE@),
    }
}

/// The unconfirmed record the head of an untracked file's queue stands for.
pub open spec fn legacy_pending_view(id: Seq<char>) -> ResultView {
    ResultView {
        trainee_id: id,
        trainee_name: Seq::empty(),
        outcome: Outcome::Indeterminate,
        attempts: 0,
        error_code: Some(LEGACY_PENDING_CODE@),
        message: Some(LEGACY_PENDING_MESSAGE@),
    }
}

/// Whether a result has the given outcome.
pub open spec fn has_outcome(outcome: Outcome) -> spec_fn(ResultView) -> bool {
    |r: ResultView| r.outcome == outcome
}

/// The ids of a run of results.
pub open spec fn result_ids(results: Seq<ResultView>) -> Seq<Seq<char>> {
    results.map_values(|r: ResultView| r.trainee_id)
}

/// An optional item as a sequence of zero or one.
pub open spec fn opt_seq<A>(item: Option<A>) -> Seq<A> {
    match item {
        Some(x) => seq![x],
        None => Seq::empty(),
    }
}

impl CheckpointView {
    pub open spec fn is_live(self) -> bool {
        live_status(self.status)
    }

    pub open spec fn in_flight_record(self) -> Option<ResultView> {
        match self.in_flight {
            Some(id) => Some(in_flight_view(id)),
            None => None,
        }
    }

    /// Records that may exist on the portal without a readable confirmation:
    /// the indeterminate results, then the trainee left in flight.
    pub open spec fn unconfirmed(self) -> Seq<ResultView> {
        self.results.filter(has_outcome(Outcome::Indeterminate)) + opt_seq(
            self.in_flight_record(),
        )
    }

    /// Every trainee never sent, in queue order: the drained skips, then the
    /// untouched queue.
    pub open spec fn never_attempted(self) -> Seq<Seq<char>> {
        result_ids(self.results.filter(has_outcome(Outcome::Skipped))) + self.pending
    }

    /// How many trainees the three groups place.
    pub open spec fn accounted(self) -> nat {
        self.results.len() + self.pending.len() + if self.in_flight is Some {
            1nat
        } else {
            0nat
        }
    }

    /// How many trainees of `total` the groups do not place.
    pub open spec fn unaccounted(self) -> nat {
        if self.total > self.accounted() {
            (self.total - self.accounted()) as nat
        } else {
            0
        }
    }

    pub open spec fn has_unconfirmed(self) -> bool {
        self.in_flight is Some || exists|i: int|
            0 <= i < self.results.len() && #[trigger] self.results[i].outcome
                == Outcome::Indeterminate
    }

    pub open spec fn blocks_start(self) -> bool {
        self.has_unconfirmed() || self.unaccounted() > 0
    }

    pub open spec fn untracked_suspect(self, tracks_in_flight: bool) -> Option<ResultView> {
        if tracks_in_flight || self.pending.len() == 0 {
            None
        } else {
            Some(legacy_pending_view(self.pending[0]))
        }
    }

    /// Every trainee sits in exactly one group: the three add up to `total`.
    pub open spec fn partitioned(self) -> bool {
        self.accounted() == self.total
    }
}

/// The first position of `id` in `items`, when it is there.
pub open spec fn first_position(items: Seq<Seq<char>>, id: Seq<char>, at: int) -> bool {
    &&& 0 <= at < items.len()
    &&& items[at] == id
    &&& forall|j: int| 0 <= j < at ==> items[j] != id
}

proof fn lemma_filter_step(results: Seq<ResultView>, i: int, outcome: Outcome)
    requires
        0 <= i < results.len(),
    ensures
        results.take(i + 1).filter(has_outcome(outcome)) == if results[i].outcome == outcome {
            results.take(i).filter(has_outcome(outcome)).push(results[i])
        } else {
            results.take(i).filter(has_outcome(outcome))
        },
{
    reveal(Seq::filter);
    assert(results.take(i + 1).drop_last() =~= results.take(i));
}

/// Copies of the results with the given outcome, in order.
fn copies_with_outcome(results: &Vec<TrainingResult>, outcome: Outcome) -> (found: Vec<
    TrainingResult,
>)
    ensures
        result_views(found@) == result_views(results@).filter(has_outcome(outcome)),
{
    let ghost views = result_views(results@);
    let mut found: Vec<TrainingResult> = Vec::new();
    let mut i: usize = 0;
    while i < results.len()
        invariant
            views == result_views(results@),
            i <= results@.len(),
            result_views(found@) == views.take(i as int).filter(has_outcome(outcome)),
        decreases results@.len() - i,
    {
        proof {
            lemma_filter_step(views, i as int, outcome);
        }
        if results[i].outcome == outcome {
            let copy = results[i].copied();
            found.push(copy);
            assert(result_views(found@) =~= views.take(i as int).filter(has_outcome(outcome)).push(
                views[i as int],
            ));
        }
        i += 1;
    }
    assert(views.take(results@.len() as int) =~= views);
    found
}

/// Copies of a run of texts.
fn copy_texts(items: &Vec<String>) -> (copy: Vec<String>)
    ensures
        copy@ == items@,
{
    let mut copy: Vec<String> = Vec::new();
    let mut i: usize = 0;
    while i < items.len()
        invariant
            i <= items@.len(),
            copy@ == items@.take(i as int),
        decreases items@.len() - i,
    {
        copy.push(items[i].clone());
        assert(copy@ =~= items@.take(i as int + 1));
        i += 1;
    }
    assert(items@.take(items@.len() as int) =~= items@);
    copy
}

impl BatchCheckpoint {
    /// A field-for-field copy.
    pub fn copied(&self) -> (copy: BatchCheckpoint)
        ensures
            copy@ == self@,
    {
        BatchCheckpoint {
            status: self.status,
            started_at: self.started_at.clone(),
            updated_at: self.updated_at.clone(),
            total: self.total,
            results: crate::report::copy_results(&self.results),
            pending: copy_texts(&self.pending),
            in_flight: copy_text(&self.in_flight),
        }
    }

    /// True while the batch that wrote this checkpoint was still expected to
    /// run.
    pub fn is_live(&self) -> (live: bool)
        ensures
            live == self@.is_live(),
    {
        match self.status {
            CheckpointStatus::Running | CheckpointStatus::Paused => true,
            _ => false,
        }
    }

    /// Re-mark a checkpoint abandoned by a terminated process.
    ///
    /// Returns whether the status actually changed, so a caller can skip a
    /// redundant write. Nothing but the status ever changes.
    pub fn mark_interrupted(&mut self) -> (changed: bool)
        ensures
            changed == old(self)@.is_live(),
            changed ==> final(self).status == CheckpointStatus::Interrupted,
            !changed ==> final(self).status == old(self).status,
            final(self).started_at == old(self).started_at,
            final(self).updated_at == old(self).updated_at,
            final(self).total == old(self).total,
            final(self).results == old(self).results,
            final(self).pending == old(self).pending,
            final(self).in_flight == old(self).in_flight,
    {
        if !self.is_live() {
            return false;
        }
        self.status = CheckpointStatus::Interrupted;
        true
    }

    /// Split out the trainees this checkpoint cannot account for.
    ///
    /// `indeterminate` records may have been written without a readable
    /// confirmation (an in-flight trainee is one of them), and `unprocessed`
    /// ones never got as far as an attempt. `skipped` results are in neither
    /// group: a skipped trainee was never sent, so it is safe to queue again.
    pub fn unreconciled(&self) -> (split: Unreconciled)
        ensures
            result_views(split.indeterminate@) == self@.unconfirmed(),
            split.unprocessed@ == self.pending@,
    {
        let mut indeterminate = copies_with_outcome(&self.results, Outcome::Indeterminate);
        let ghost before = result_views(indeterminate@);
        match self.in_flight_record() {
            Some(record) => {
                indeterminate.push(record);
                assert(result_views(indeterminate@) =~= before.push(record@));
            },
            None => {
                assert(before + opt_seq(self@.in_flight_record()) =~= before);
            },
        }
        Unreconciled { indeterminate, unprocessed: copy_texts(&self.pending) }
    }

    /// The unconfirmed record an in-flight trainee stands for, if any.
    ///
    /// Synthesized rather than written into `results`: the engine is dead when
    /// this window is open, and a file that invented a result would stop being
    /// a record of what was actually observed.
    pub fn in_flight_record(&self) -> (record: Option<TrainingResult>)
        ensures
            match record {
                Some(r) => self@.in_flight_record() == Some(r@),
                None => self@.in_flight_record() is None,
            },
    {
        match &self.in_flight {
            Some(id) => Some(
                TrainingResult {
                    trainee_id: id.clone(),
                    trainee_name: String::new(),
                    outcome: Outcome::Indeterminate,
                    attempts: 0,
                    error_code: Some(owned(IN_FLIGHT_CODE)),
                    message: Some(owned(IN_FLIGHT_MESSAGE)),
                },
            ),
            None => None,
        }
    }

    /// The trainee a file from a build without in-flight tracking could have
    /// handed to the worker without recording it: the head of `pending`, and
    /// only that one.
    pub fn untracked_suspect(&self, tracks_in_flight: bool) -> (suspect: Option<TrainingResult>)
        ensures
            match suspect {
                Some(r) => self@.untracked_suspect(tracks_in_flight) == Some(r@),
                None => self@.untracked_suspect(tracks_in_flight) is None,
            },
    {
        if tracks_in_flight {
            return None;
        }
        if self.pending.len() == 0 {
            return None;
        }
        Some(
            TrainingResult {
                trainee_id: self.pending[0].clone(),
                trainee_name: String::new(),
                outcome: Outcome::Indeterminate,
                attempts: 0,
                error_code: Some(owned(LEGACY_PENDING_CODE)),
                message: Some(owned(LEGACY_PENDING_MESSAGE)),
            },
        )
    }

    /// Every trainee that was never sent, in the order it was queued: the
    /// `skipped` results a batch abort drained, then the `pending` ones it
    /// never reached.
    pub fn never_attempted(&self) -> (ids: Vec<String>)
        ensures
            texts(ids@) == self@.never_attempted(),
    {
        let skipped = copies_with_outcome(&self.results, Outcome::Skipped);
        let ghost skipped_ids = result_ids(result_views(skipped@));
        let mut ids: Vec<String> = Vec::new();
        let mut i: usize = 0;
        while i < skipped.len()
            invariant
                skipped_ids == result_ids(result_views(skipped@)),
                i <= skipped@.len(),
                ids@.len() == i,
                forall|k: int| 0 <= k < i ==> #[trigger] ids@[k]@ == skipped_ids[k],
            decreases skipped@.len() - i,
        {
            ids.push(skipped[i].trainee_id.clone());
            i += 1;
        }
        let ghost pending = texts(self.pending@);
        let mut j: usize = 0;
        while j < self.pending.len()
            invariant
                pending == texts(self.pending@),
                skipped_ids == result_ids(result_views(skipped@)),
                skipped_ids.len() == skipped@.len(),
                j <= self.pending@.len(),
                ids@.len() == skipped@.len() + j,
                forall|k: int| 0 <= k < skipped@.len() ==> #[trigger] ids@[k]@ == skipped_ids[k],
                forall|k: int|
                    0 <= k < j ==> #[trigger] ids@[skipped@.len() + k]@ == pending[k],
            decreases self.pending@.len() - j,
        {
            ids.push(self.pending[j].clone());
            j += 1;
        }
        proof {
            let n = skipped@.len() as int;
            assert forall|k: int| 0 <= k < ids@.len() implies #[trigger] texts(ids@)[k] == (
            skipped_ids + pending)[k] by {
                if k >= n {
                    assert(ids@[n + (k - n)]@ == pending[k - n]);
                }
            }
            assert(texts(ids@) =~= skipped_ids + pending);
        }
        ids
    }

    /// Whether a new batch may take this checkpoint's slot only after an
    /// operator acknowledges what the previous one left behind: a record may
    /// be unconfirmed, or the counts do not add up.
    pub fn blocks_start(&self) -> (blocks: bool)
        ensures
            blocks == self@.blocks_start(),
    {
        self.has_unconfirmed() || self.unaccounted() > 0
    }

    /// How many trainees this file does not place in any group.
    ///
    /// Every trainee in a batch is in exactly one of `results`, `pending` and
    /// `in_flight`, so those three always add up to `total`; a file where they
    /// fall short has lost one somewhere.
    pub fn unaccounted(&self) -> (missing: usize)
        ensures
            missing == self@.unaccounted(),
    {
        let after_results = self.total.saturating_sub(self.results.len());
        let after_pending = after_results.saturating_sub(self.pending.len());
        if self.in_flight.is_some() {
            after_pending.saturating_sub(1)
        } else {
            after_pending
        }
    }

    /// Write an untracked build's suspicion down in this build's own
    /// vocabulary: move `id` out of `pending` and into `in_flight`.
    ///
    /// A real in-flight record is never overwritten by a suspicion. Returns
    /// whether anything changed.
    pub fn promote_suspect(&mut self, id: &str) -> (changed: bool)
        ensures
            changed ==> {
                &&& old(self).in_flight is None
                &&& exists|at: int|
                    first_position(old(self)@.pending, id@, at) && final(self)@.pending == old(
                        self,
                    )@.pending.remove(at)
                &&& final(self)@.in_flight == Some(id@)
            },
            !changed ==> {
                &&& (old(self).in_flight is Some || !old(self)@.pending.contains(id@))
                &&& final(self)@.pending == old(self)@.pending
                &&& final(self)@.in_flight == old(self)@.in_flight
            },
            final(self).status == old(self).status,
            final(self).started_at == old(self).started_at,
            final(self).updated_at == old(self).updated_at,
            final(self).total == old(self).total,
            final(self).results == old(self).results,
            final(self)@.accounted() == old(self)@.accounted(),
    {
        if self.in_flight.is_some() {
            return false;
        }
        let mut at: usize = 0;
        while at < self.pending.len()
            invariant
                at <= self.pending@.len(),
                forall|j: int| 0 <= j < at ==> texts(self.pending@)[j] != id@,
            ensures
                at <= self.pending@.len(),
                forall|j: int| 0 <= j < at ==> texts(self.pending@)[j] != id@,
                at < self.pending@.len() ==> texts(self.pending@)[at as int] == id@,
            decreases self.pending@.len() - at,
        {
            if same_text(self.pending[at].as_str(), id) {
                break;
            }
            at += 1;
        }
        if at == self.pending.len() {
            proof {
                if texts(self.pending@).contains(id@) {
                    let k = choose|k: int|
                        0 <= k < texts(self.pending@).len() && texts(self.pending@)[k] == id@;
                    assert(texts(self.pending@)[k] != id@);
                }
            }
            return false;
        }
        let ghost before = self@.pending;
        assert(first_position(before, id@, at as int));
        self.pending.remove(at);
        self.in_flight = Some(owned(id));
        assert(self@.pending =~= before.remove(at as int));
        true
    }

    /// Whether any record here may already exist on the portal without a
    /// readable confirmation.
    fn has_unconfirmed(&self) -> (unconfirmed: bool)
        ensures
            unconfirmed == self@.has_unconfirmed(),
    {
        if self.in_flight.is_some() {
            return true;
        }
        let mut i: usize = 0;
        while i < self.results.len()
            invariant
                i <= self.results@.len(),
                forall|j: int|
                    0 <= j < i ==> #[trigger] self@.results[j].outcome != Outcome::Indeterminate,
            decreases self.results@.len() - i,
        {
            if self.results[i].outcome == Outcome::Indeterminate {
                assert(self@.results[i as int].outcome == Outcome::Indeterminate);
                return true;
            }
            i += 1;
        }
        false
    }
}

} // verus!
