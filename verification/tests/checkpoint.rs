use dssp_bot::checkpoint::{
    BatchCheckpoint, CheckpointStatus, IN_FLIGHT_CODE, IN_FLIGHT_MESSAGE, LEGACY_PENDING_CODE,
};
use dssp_bot::report::{Outcome, TrainingResult};

fn result(trainee_id: &str, outcome: Outcome) -> TrainingResult {
    TrainingResult {
        trainee_id: trainee_id.to_string(),
        trainee_name: format!("Trainee {trainee_id}"),
        outcome,
        attempts: 1,
        error_code: None,
        message: None,
    }
}

fn checkpoint(status: CheckpointStatus) -> BatchCheckpoint {
    BatchCheckpoint {
        status,
        started_at: "2026-09-19T10:00:00Z".to_string(),
        updated_at: "2026-09-19T10:05:00Z".to_string(),
        total: 4,
        results: vec![
            result("1", Outcome::Success),
            result("2", Outcome::Indeterminate),
        ],
        pending: vec!["3".to_string(), "4".to_string()],
        in_flight: None,
    }
}

// -- liveness -----------------------------------------------------------

#[test]
fn running_and_paused_are_live() {
    assert!(checkpoint(CheckpointStatus::Running).is_live());
    assert!(checkpoint(CheckpointStatus::Paused).is_live());
}

#[test]
fn terminal_states_are_not_live() {
    assert!(!checkpoint(CheckpointStatus::Finished).is_live());
    assert!(!checkpoint(CheckpointStatus::Interrupted).is_live());
}

// -- mark_interrupted ---------------------------------------------------

#[test]
fn marking_a_live_checkpoint_interrupted_reports_a_change() {
    let mut live = checkpoint(CheckpointStatus::Running);
    assert!(live.mark_interrupted());
    assert_eq!(live.status, CheckpointStatus::Interrupted);
}

#[test]
fn marking_a_paused_checkpoint_interrupted_reports_a_change() {
    let mut paused = checkpoint(CheckpointStatus::Paused);
    assert!(paused.mark_interrupted());
    assert_eq!(paused.status, CheckpointStatus::Interrupted);
}

#[test]
fn marking_a_finished_checkpoint_is_a_no_op() {
    let mut finished = checkpoint(CheckpointStatus::Finished);
    assert!(!finished.mark_interrupted());
    assert_eq!(finished.status, CheckpointStatus::Finished);
}

#[test]
fn marking_an_already_interrupted_checkpoint_is_a_no_op() {
    let mut interrupted = checkpoint(CheckpointStatus::Interrupted);
    assert!(!interrupted.mark_interrupted());
    assert_eq!(interrupted.status, CheckpointStatus::Interrupted);
}

#[test]
fn marking_interrupted_preserves_the_progress() {
    let mut live = checkpoint(CheckpointStatus::Running);
    live.mark_interrupted();
    assert_eq!(live.results.len(), 2);
    assert_eq!(live.pending, vec!["3".to_string(), "4".to_string()]);
    assert_eq!(live.total, 4);
}

// -- unreconciled -------------------------------------------------------

#[test]
fn only_indeterminate_results_are_unreconciled() {
    let split = checkpoint(CheckpointStatus::Running).unreconciled();
    assert_eq!(split.indeterminate.len(), 1);
    assert_eq!(split.indeterminate[0].trainee_id, "2");
}

#[test]
fn skipped_results_are_not_unreconciled() {
    let mut cp = checkpoint(CheckpointStatus::Running);
    cp.results = vec![
        result("1", Outcome::Success),
        result("2", Outcome::Skipped),
        result("3", Outcome::Failed),
    ];
    cp.pending = Vec::new();

    let split = cp.unreconciled();
    assert!(split.indeterminate.is_empty(), "{:?}", split.indeterminate);
    assert!(split.unprocessed.is_empty(), "{:?}", split.unprocessed);
}

#[test]
fn pending_entries_are_reported_unprocessed_in_order() {
    let mut cp = checkpoint(CheckpointStatus::Running);
    cp.pending = vec!["7".to_string(), "8".to_string(), "9".to_string()];
    assert_eq!(cp.unreconciled().unprocessed, vec!["7", "8", "9"]);
}

#[test]
fn a_clean_finished_batch_unreconciles_to_nothing() {
    let mut cp = checkpoint(CheckpointStatus::Finished);
    cp.results = vec![result("1", Outcome::Success), result("2", Outcome::Success)];
    cp.pending = Vec::new();

    let split = cp.unreconciled();
    assert!(split.indeterminate.is_empty());
    assert!(split.unprocessed.is_empty());
}

#[test]
fn both_groups_are_reported_together() {
    let split = checkpoint(CheckpointStatus::Interrupted).unreconciled();
    assert_eq!(split.indeterminate.len(), 1);
    assert_eq!(split.unprocessed.len(), 2);
}

// -- the crash window ---------------------------------------------------

fn interrupted_mid_submission() -> BatchCheckpoint {
    BatchCheckpoint {
        status: CheckpointStatus::Running,
        started_at: "2026-09-19T10:00:00Z".to_string(),
        updated_at: "2026-09-19T10:05:00Z".to_string(),
        total: 4,
        results: vec![result("1", Outcome::Success)],
        pending: vec!["3".to_string(), "4".to_string()],
        in_flight: Some("2".to_string()),
    }
}

#[test]
fn an_in_flight_trainee_is_reported_with_the_unconfirmed() {
    let split = interrupted_mid_submission().unreconciled();

    assert_eq!(split.indeterminate.len(), 1);
    assert_eq!(split.indeterminate[0].trainee_id, "2");
    assert_eq!(split.indeterminate[0].outcome, Outcome::Indeterminate);
    assert_eq!(
        split.indeterminate[0].error_code.as_deref(),
        Some(IN_FLIGHT_CODE)
    );
    assert_eq!(split.unprocessed, vec!["3", "4"]);
}

#[test]
fn an_in_flight_trainee_is_not_never_attempted() {
    let cp = interrupted_mid_submission();

    assert_eq!(cp.never_attempted(), vec!["3", "4"]);
    assert!(!cp.unreconciled().unprocessed.contains(&"2".to_string()));
}

#[test]
fn every_trainee_sits_in_exactly_one_group() {
    for cp in [
        checkpoint(CheckpointStatus::Running),
        interrupted_mid_submission(),
        checkpoint(CheckpointStatus::Finished),
    ] {
        let accounted = cp.results.len() + cp.pending.len() + usize::from(cp.in_flight.is_some());

        assert_eq!(accounted, cp.total, "{cp:?}");
    }
}

// -- never_attempted ----------------------------------------------------

#[test]
fn never_attempted_collects_the_drained_skips_too() {
    let mut cp = checkpoint(CheckpointStatus::Finished);
    cp.results = vec![
        result("1", Outcome::Success),
        result("2", Outcome::Skipped),
        result("3", Outcome::Skipped),
    ];
    cp.pending = Vec::new();

    assert_eq!(cp.never_attempted(), vec!["2", "3"]);
}

#[test]
fn never_attempted_restores_queue_order_across_a_partial_drain() {
    let mut cp = checkpoint(CheckpointStatus::Interrupted);
    cp.results = vec![result("1", Outcome::Success), result("2", Outcome::Skipped)];
    cp.pending = vec!["3".to_string(), "4".to_string()];

    assert_eq!(cp.never_attempted(), vec!["2", "3", "4"]);
}

#[test]
fn a_settled_trainee_is_not_never_attempted() {
    let mut cp = checkpoint(CheckpointStatus::Finished);
    cp.results = vec![
        result("1", Outcome::Success),
        result("2", Outcome::Failed),
        result("3", Outcome::Indeterminate),
    ];
    cp.pending = Vec::new();

    assert!(cp.never_attempted().is_empty(), "{:?}", cp.never_attempted());
}

// -- the start gate -----------------------------------------------------

#[test]
fn a_live_checkpoint_blocks_a_new_start() {
    assert!(checkpoint(CheckpointStatus::Running).blocks_start());
    assert!(checkpoint(CheckpointStatus::Paused).blocks_start());
}

#[test]
fn an_unconfirmed_record_blocks_a_start_even_from_a_finished_batch() {
    assert!(checkpoint(CheckpointStatus::Finished).blocks_start());
}

#[test]
fn an_in_flight_trainee_blocks_a_start() {
    assert!(interrupted_mid_submission().blocks_start());
}

/// A reconciled batch whose records all landed, and whose groups add up to
/// its total, owes nothing.
#[test]
fn a_finished_batch_of_settled_records_does_not_block_a_start() {
    let mut cp = checkpoint(CheckpointStatus::Finished);
    // The shared fixture counts four trainees; this file places three, so its
    // total says three. With four it would be one short, and a short file
    // blocks (see `a_file_one_short_of_its_total_blocks_even_when_all_else_settled`).
    cp.total = 3;
    cp.results = vec![
        result("1", Outcome::Success),
        result("2", Outcome::Failed),
        result("3", Outcome::Skipped),
    ];
    cp.pending = Vec::new();

    assert!(!cp.blocks_start());
}

/// Nothing was sent for a never-attempted trainee, so it does not block on
/// its own.
#[test]
fn never_attempted_trainees_alone_do_not_block_a_start() {
    let mut cp = checkpoint(CheckpointStatus::Interrupted);
    // Three trainees placed, so a total of three: the shared fixture's four
    // would leave one unaccounted, which blocks on its own.
    cp.total = 3;
    cp.results = vec![result("1", Outcome::Success), result("2", Outcome::Skipped)];
    cp.pending = vec!["3".to_string()];

    assert!(!cp.blocks_start());
}

/// The same files one trainee short of their total do block: the file has
/// lost a trainee it cannot name.
#[test]
fn a_file_one_short_of_its_total_blocks_even_when_all_else_settled() {
    let mut cp = checkpoint(CheckpointStatus::Finished);
    cp.results = vec![
        result("1", Outcome::Success),
        result("2", Outcome::Failed),
        result("3", Outcome::Skipped),
    ];
    cp.pending = Vec::new();

    assert_eq!(cp.unaccounted(), 1);
    assert!(cp.blocks_start());
}

// -- files from a build without in-flight tracking ----------------------

#[test]
fn an_untracked_file_suspects_only_the_head_of_its_queue() {
    let mut cp = checkpoint(CheckpointStatus::Running);
    cp.results = vec![result("1", Outcome::Success)];
    cp.pending = vec!["2".to_string(), "3".to_string()];

    let suspect = cp.untracked_suspect(false).expect("a suspect");

    assert_eq!(suspect.trainee_id, "2");
    assert_eq!(suspect.outcome, Outcome::Indeterminate);
    assert_eq!(suspect.error_code.as_deref(), Some(LEGACY_PENDING_CODE));
}

#[test]
fn a_tracked_file_has_no_untracked_suspect() {
    let mut cp = checkpoint(CheckpointStatus::Running);
    cp.pending = vec!["2".to_string()];

    assert!(cp.untracked_suspect(true).is_none());
}

#[test]
fn an_empty_queue_leaves_nothing_to_suspect() {
    let mut cp = checkpoint(CheckpointStatus::Finished);
    cp.pending = Vec::new();

    assert!(cp.untracked_suspect(false).is_none());
}

// -- more of the same ---------------------------------------------------

#[test]
fn the_in_flight_record_is_synthesized_and_unnamed() {
    let record = interrupted_mid_submission().in_flight_record().expect("a record");
    assert_eq!(record.trainee_id, "2");
    assert_eq!(record.trainee_name, "");
    assert_eq!(record.attempts, 0);
    assert_eq!(record.message.as_deref(), Some(IN_FLIGHT_MESSAGE));
    assert!(checkpoint(CheckpointStatus::Running).in_flight_record().is_none());
}

#[test]
fn a_short_file_reports_how_many_it_lost_and_blocks() {
    let mut cp = checkpoint(CheckpointStatus::Finished);
    cp.results = vec![result("1", Outcome::Success)];
    cp.pending = Vec::new();
    assert_eq!(cp.unaccounted(), 3);
    assert!(cp.blocks_start());

    // An over-count is no number of trainees.
    cp.total = 0;
    assert_eq!(cp.unaccounted(), 0);
}

#[test]
fn promoting_a_suspect_moves_it_from_the_queue_into_flight() {
    let mut cp = checkpoint(CheckpointStatus::Running);
    cp.results = vec![result("1", Outcome::Success)];
    cp.total = 3;
    cp.pending = vec!["2".to_string(), "3".to_string()];

    assert!(cp.promote_suspect("2"));
    assert_eq!(cp.in_flight.as_deref(), Some("2"));
    assert_eq!(cp.pending, vec!["3"]);
    assert_eq!(cp.unaccounted(), 0);
    assert_eq!(cp.never_attempted(), vec!["3"]);

    // A real marker is never overwritten, and an unknown id changes nothing.
    assert!(!cp.promote_suspect("3"));
    let mut other = checkpoint(CheckpointStatus::Running);
    assert!(!other.promote_suspect("9"));
    assert_eq!(other.pending, vec!["3", "4"]);
    assert!(other.in_flight.is_none());
}
