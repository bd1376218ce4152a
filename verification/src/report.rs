//! Per-trainee results and the counts a batch report is built from.

use vstd::prelude::*;

verus! {

#[derive(Debug, Clone, Copy, PartialEq, Eq, Structural)]
pub enum Outcome {
    Success,
    Failed,
    /// Never attempted: drained after a batch abort.
    Skipped,
    /// Submitted but unconfirmed. Needs manual verification.
    Indeterminate,
}

#[derive(Debug, Clone)]
pub struct TrainingResult {
    pub trainee_id: String,
    pub trainee_name: String,
    pub outcome: Outcome,
    pub attempts: u32,
    pub error_code: Option<String>,
    pub message: Option<String>,
}

/// A result as plain values.
pub struct ResultView {
    pub trainee_id: Seq<char>,
    pub trainee_name: Seq<char>,
    pub outcome: Outcome,
    pub attempts: u32,
    pub error_code: Option<Seq<char>>,
    pub message: Option<Seq<char>>,
}

/// The view of an optional text.
pub open spec fn opt_text(text: Option<String>) -> Option<Seq<char>> {
    match text {
        Some(s) => Some(s@),
        None => None,
    }
}

impl View for TrainingResult {
    type V = ResultView;

    open spec fn view(&self) -> ResultView {
        ResultView {
            trainee_id: self.trainee_id@,
            trainee_name: self.trainee_name@,
            outcome: self.outcome,
            attempts: self.attempts,
            error_code: opt_text(self.error_code),
            message: opt_text(self.message),
        }
    }
}

/// The views of a run of results.
pub open spec fn result_views(results: Seq<TrainingResult>) -> Seq<ResultView> {
    results.map_values(|r: TrainingResult| r@)
}

/// The views of a run of texts.
pub open spec fn texts(items: Seq<String>) -> Seq<Seq<char>> {
    items.map_values(|s: String| s@)
}

/// How many of `results` have outcome `outcome`.
pub open spec fn outcome_count(results: Seq<ResultView>, outcome: Outcome) -> nat
    decreases results.len(),
{
    if results.len() == 0 {
        0
    } else {
        outcome_count(results.drop_last(), outcome) + if results.last().outcome == outcome {
            1nat
        } else {
            0nat
        }
    }
}

/// A copy of an optional text.
pub fn copy_text(text: &Option<String>) -> (copy: Option<String>)
    ensures
        copy == *text,
{
    match text {
        Some(s) => Some(s.clone()),
        None => None,
    }
}

impl TrainingResult {
    /// A field-for-field copy.
    pub fn copied(&self) -> (copy: TrainingResult)
        ensures
            copy == *self,
    {
        TrainingResult {
            trainee_id: self.trainee_id.clone(),
            trainee_name: self.trainee_name.clone(),
            outcome: self.outcome,
            attempts: self.attempts,
            error_code: copy_text(&self.error_code),
            message: copy_text(&self.message),
        }
    }
}

/// Copies of a run of results.
pub fn copy_results(results: &Vec<TrainingResult>) -> (copy: Vec<TrainingResult>)
    ensures
        copy@ == results@,
{
    let mut copy: Vec<TrainingResult> = Vec::new();
    let mut i: usize = 0;
    while i < results.len()
        invariant
            i <= results@.len(),
            copy@ == results@.take(i as int),
        decreases results@.len() - i,
    {
        copy.push(results[i].copied());
        assert(copy@ =~= results@.take(i as int + 1));
        i += 1;
    }
    assert(results@.take(results@.len() as int) =~= results@);
    copy
}

/// The totals of a batch report, by outcome.
#[derive(Debug, Clone, Copy, PartialEq, Eq)]
pub struct ReportCounts {
    pub total: usize,
    pub successful: usize,
    pub failed: usize,
    pub skipped: usize,
    pub indeterminate: usize,
}

proof fn lemma_count_step(results: Seq<ResultView>, i: int, outcome: Outcome)
    requires
        0 <= i < results.len(),
    ensures
        outcome_count(results.take(i + 1), outcome) == outcome_count(results.take(i), outcome)
            + if results[i].outcome == outcome {
            1nat
        } else {
            0nat
        },
{
    assert(results.take(i + 1).drop_last() =~= results.take(i));
}

proof fn lemma_count_bounded(results: Seq<ResultView>, outcome: Outcome)
    ensures
        outcome_count(results, outcome) <= results.len(),
    decreases results.len(),
{
    if results.len() > 0 {
        lemma_count_bounded(results.drop_last(), outcome);
    }
}

/// The four outcomes partition every run of results.
pub proof fn lemma_counts_partition(results: Seq<ResultView>)
    ensures
        outcome_count(results, Outcome::Success) + outcome_count(results, Outcome::Failed)
            + outcome_count(results, Outcome::Skipped) + outcome_count(
            results,
            Outcome::Indeterminate,
        ) == results.len(),
    decreases results.len(),
{
    if results.len() > 0 {
        lemma_counts_partition(results.drop_last());
    }
}

impl ReportCounts {
    /// Count `results` by outcome; `total` is how many there are.
    pub fn of(results: &Vec<TrainingResult>) -> (counts: ReportCounts)
        ensures
            counts.total == results@.len(),
            counts.successful == outcome_count(result_views(results@), Outcome::Success),
            counts.failed == outcome_count(result_views(results@), Outcome::Failed),
            counts.skipped == outcome_count(result_views(results@), Outcome::Skipped),
            counts.indeterminate == outcome_count(
                result_views(results@),
                Outcome::Indeterminate,
            ),
    {
        let ghost views = result_views(results@);
        let mut successful: usize = 0;
        let mut failed: usize = 0;
        let mut skipped: usize = 0;
        let mut indeterminate: usize = 0;
        let mut i: usize = 0;
        while i < results.len()
            invariant
                views == result_views(results@),
                i <= results@.len(),
                successful == outcome_count(views.take(i as int), Outcome::Success),
                failed == outcome_count(views.take(i as int), Outcome::Failed),
                skipped == outcome_count(views.take(i as int), Outcome::Skipped),
                indeterminate == outcome_count(views.take(i as int), Outcome::Indeterminate),
            decreases results@.len() - i,
        {
            proof {
                lemma_count_step(views, i as int, Outcome::Success);
                lemma_count_step(views, i as int, Outcome::Failed);
                lemma_count_step(views, i as int, Outcome::Skipped);
                lemma_count_step(views, i as int, Outcome::Indeterminate);
                lemma_count_bounded(views.take(i as int + 1), Outcome::Success);
                lemma_count_bounded(views.take(i as int + 1), Outcome::Failed);
                lemma_count_bounded(views.take(i as int + 1), Outcome::Skipped);
                lemma_count_bounded(views.take(i as int + 1), Outcome::Indeterminate);
            }
            match results[i].outcome {
                Outcome::Success => successful += 1,
                Outcome::Failed => failed += 1,
                Outcome::Skipped => skipped += 1,
                Outcome::Indeterminate => indeterminate += 1,
            }
            i += 1;
        }
        assert(views.take(results@.len() as int) =~= views);
        ReportCounts { total: results.len(), successful, failed, skipped, indeterminate }
    }
}

/// The exit status a batch's counts call for: a human is needed (3) when a
/// record is unconfirmed or the batch was cut short, a definitive failure that
/// is safe to re-run is 4, and a clean batch is 0.
pub open spec fn exit_status(counts: ReportCounts) -> i32 {
    if counts.indeterminate > 0 || counts.skipped > 0 {
        3
    } else if counts.failed > 0 {
        4
    } else {
        0
    }
}

/// The exit code follows the table an operator reads: 3 exactly when some
/// record is unconfirmed or was skipped behind an abort (a human is needed);
/// otherwise 4 exactly when some record failed (definitive, safe to re-run);
/// otherwise 0. A batch with one confirmed and one rejected record exits 4.
pub proof fn exit_codes_follow_the_table(counts: ReportCounts)
    ensures
        exit_status(counts) == 3 <==> (counts.indeterminate > 0 || counts.skipped > 0),
        exit_status(counts) == 4 <==> (counts.indeterminate == 0 && counts.skipped == 0
            && counts.failed > 0),
        exit_status(counts) == 0 <==> (counts.indeterminate == 0 && counts.skipped == 0
            && counts.failed == 0),
        exit_status(counts) == 0 || exit_status(counts) == 3 || exit_status(counts) == 4,
{
}

/// An indeterminate record may have been written without a readable
/// confirmation, and a skipped one sits behind an aborted batch: both need a
/// human. A definitive failure is terminal but safe to re-run.
pub fn batch_exit_code(counts: &ReportCounts) -> (code: i32)
    ensures
        code == exit_status(*counts),
{
    if counts.indeterminate > 0 || counts.skipped > 0 {
        3
    } else if counts.failed > 0 {
        4
    } else {
        0
    }
}

} // verus!
