use dssp_bot::checkpoint::{BatchCheckpoint, CheckpointStatus, IN_FLIGHT_CODE};
use dssp_bot::recovery::{
    is_affirmative, reconcile, reconcile_slot, recovered_line, unreadable, Plan, Reconciled, Start,
};
use dssp_bot::report::{Outcome, TrainingResult};
use dssp_bot::store::StoredCheckpoint;

const PATH: &str = "/tmp/batches/dssp.checkpoint.json";

fn result(trainee_id: &str, outcome: Outcome) -> TrainingResult {
    TrainingResult {
        trainee_id: trainee_id.to_string(),
        trainee_name: format!("Trainee {trainee_id}"),
        outcome,
        attempts: 1,
        error_code: None,
        message: None,
    }
}

/// A batch that submitted two, could not confirm one, and left two queued.
fn unfinished(status: CheckpointStatus) -> BatchCheckpoint {
    BatchCheckpoint {
        status,
        started_at: "1758285600000".to_string(),
        updated_at: "1758285900000".to_string(),
        total: 4,
        results: vec![
            result("1", Outcome::Success),
            result("2", Outcome::Indeterminate),
        ],
        pending: vec!["3".to_string(), "4".to_string()],
        in_flight: None,
    }
}

/// Killed between sending trainee 2 and hearing back.
fn killed_mid_submission() -> BatchCheckpoint {
    BatchCheckpoint {
        status: CheckpointStatus::Running,
        started_at: "1758285600000".to_string(),
        updated_at: "1758285900000".to_string(),
        total: 4,
        results: vec![result("1", Outcome::Success)],
        pending: vec!["3".to_string(), "4".to_string()],
        in_flight: Some("2".to_string()),
    }
}

/// A file this build wrote: it carries the in-flight key.
fn saved(checkpoint: BatchCheckpoint) -> StoredCheckpoint {
    StoredCheckpoint { checkpoint, tracks_in_flight: true }
}

/// The start a read of `checkpoint` leads to.
fn guard(checkpoint: BatchCheckpoint, resume: bool) -> Result<Start, String> {
    reconcile(PATH, saved(checkpoint), resume).outcome
}

fn assert_fresh(start: &Start) {
    assert!(matches!(start.plan, Plan::Fresh));
}

fn resume_of(start: Start) -> (Vec<String>, Vec<TrainingResult>, usize) {
    match start.plan {
        Plan::Resume { roster, carried, owed } => {
            assert!(roster.iter().all(|r| r.name.is_none()), "resolved by id");
            (roster.into_iter().filter_map(|r| r.id).collect(), carried, owed)
        }
        Plan::Fresh => panic!("expected a resume"),
    }
}

// -- starting over a predecessor ---------------------------------------

#[test]
fn a_settled_batch_does_not_refuse_the_next_one() {
    let mut done = unfinished(CheckpointStatus::Finished);
    done.total = 2;
    done.results = vec![result("1", Outcome::Success), result("2", Outcome::Failed)];
    done.pending = Vec::new();

    let reconciled = reconcile(PATH, saved(done), false);
    assert!(reconciled.save.is_none(), "nothing to record");
    let start = reconciled.outcome.expect("nothing to refuse");

    assert_fresh(&start);
    assert!(!start.recovered, "it was already terminal");
    assert!(start.previous.unwrap().never_attempted().is_empty());
}

#[test]
fn a_live_checkpoint_refuses_a_start() {
    let refusal = guard(unfinished(CheckpointStatus::Running), false)
        .err()
        .expect("a killed run must not be overwritten");

    assert!(refusal.contains("refusing to start"), "{refusal}");
    assert!(refusal.contains("dssp.checkpoint.json"), "{refusal}");
}

#[test]
fn a_refused_start_marks_the_live_checkpoint_interrupted() {
    let reconciled = reconcile(PATH, saved(unfinished(CheckpointStatus::Running)), false);
    assert!(reconciled.outcome.is_err(), "refused");

    let after = reconciled.save.expect("the interruption is written back");

    assert_eq!(after.status, CheckpointStatus::Interrupted);
    assert!(!after.is_live());
}

#[test]
fn a_live_file_that_owes_nothing_starts_clean_and_says_what_it_recovered() {
    let mut cp = unfinished(CheckpointStatus::Running);
    cp.total = 2;
    cp.results = vec![result("1", Outcome::Success), result("2", Outcome::Success)];
    cp.pending = Vec::new();

    let reconciled = reconcile(PATH, saved(cp), false);
    let after = reconciled.save.expect("the mark is durable");
    let start = reconciled.outcome.expect("nothing is in doubt");

    assert_fresh(&start);
    assert!(start.recovered, "but the kill is still recorded and reported");
    assert_eq!(after.status, CheckpointStatus::Interrupted);
}

#[test]
fn refusing_a_legacy_file_does_not_erase_the_suspicion_it_refused_over() {
    let mut cp = unfinished(CheckpointStatus::Running);
    cp.total = 3;
    cp.results = vec![result("1", Outcome::Success)];
    cp.pending = vec!["2".to_string(), "3".to_string()];
    cp.in_flight = None;

    // Run 1: a file without the key is refused, and the refusal's own write
    // records the suspicion in this build's vocabulary.
    let first = reconcile(PATH, StoredCheckpoint { checkpoint: cp, tracks_in_flight: false }, false);
    let refusal = first.outcome.err().expect("a legacy file with a queue is refused");
    assert!(refusal.contains("could not record a submission in flight"), "{refusal}");
    assert!(refusal.contains('2'), "and it names the trainee: {refusal}");
    let rewritten = first.save.expect("the write that adds the key");

    // Run 2, exactly as the refusal advises, on the file as rewritten.
    let start = reconcile(PATH, saved(rewritten), true).outcome.expect("the override");
    let (ids, carried, owed) = resume_of(start);

    assert_eq!(ids, vec!["3"], "only the trainee the dead build never reached");
    assert!(carried.iter().any(|r| r.trainee_id == "2"), "2 is carried, not run");
    assert_eq!(owed, 1, "and it is still owed an answer");
}

#[test]
fn a_file_that_lost_a_trainee_refuses_a_start() {
    let mut cp = unfinished(CheckpointStatus::Interrupted);
    cp.total = 4;
    cp.results = vec![result("1", Outcome::Success)];
    cp.pending = Vec::new();
    cp.in_flight = None;

    let reconciled = reconcile(PATH, saved(cp.clone()), false);
    let warning = reconciled.warning.expect("the shortfall is said out loud");
    assert!(warning.contains("accounts for 1 of its 4"), "{warning}");
    let refusal = reconciled.outcome.err().expect("it accounts for 1 of 4");
    assert!(refusal.contains("accounts for 1 of its 4"), "{refusal}");
    assert!(refusal.contains("check the portal"), "{refusal}");

    let start = guard(cp, true).expect("safe to continue what it does know");
    let (ids, _, _) = resume_of(start);

    assert!(ids.is_empty(), "there was nothing left to attempt");
}

#[test]
fn only_an_explicit_yes_counts_as_yes() {
    for on in ["1", "true", "yes", "on", "TRUE", " yes ", "On"] {
        assert!(is_affirmative(on), "{on:?} should be on");
    }

    for off in [
        "0", "false", "no", "FALSE", " 0 ", "No", // the documented negatives
        "", "  ", "off", "disabled", "none", "n", "y", "2", "maybe",
    ] {
        assert!(!is_affirmative(off), "{off:?} should be off");
    }
}

#[test]
fn a_refusal_leaves_every_record_intact() {
    let before = unfinished(CheckpointStatus::Running);
    let reconciled = reconcile(PATH, saved(before.clone()), false);
    assert!(reconciled.outcome.is_err(), "refused");

    let after = reconciled.save.expect("still there");

    assert_eq!(after.results.len(), before.results.len());
    assert_eq!(after.results[1].outcome, Outcome::Indeterminate);
    assert_eq!(after.pending, before.pending);
    assert_eq!(after.total, before.total);
    assert_eq!(after.started_at, before.started_at);
    assert_eq!(after.in_flight, before.in_flight);
}

#[test]
fn an_unconfirmed_record_refuses_a_start_from_a_finished_batch() {
    let refusal = guard(unfinished(CheckpointStatus::Finished), false)
        .err()
        .expect("must not be overwritten");

    assert!(refusal.contains("may already exist on the portal"), "{refusal}");
    assert!(refusal.contains("DSSP_RESUME=1"), "{refusal}");
}

#[test]
fn the_crash_window_trainee_refuses_a_start_and_is_named() {
    let refusal = guard(killed_mid_submission(), false).err().expect("must not be overwritten");

    assert!(refusal.contains("killed while submitting 2"), "{refusal}");
    assert!(refusal.contains("may have reached the portal"), "{refusal}");
}

#[test]
fn an_unreadable_checkpoint_refuses_a_start() {
    let refusal = unreadable(PATH, "EOF while parsing a string at line 1 column 26");

    assert!(refusal.contains("cannot be read"), "{refusal}");
    assert!(!refusal.contains("DSSP_RESUME"), "resuming cannot fix it: {refusal}");
}

// -- resume -------------------------------------------------------------

#[test]
fn a_resume_continues_the_never_attempted_trainees() {
    let mut previous = unfinished(CheckpointStatus::Finished);
    previous.results.push(result("5", Outcome::Skipped));

    let (ids, carried, owed) = resume_of(guard(previous, true).expect("the override"));

    assert_eq!(ids, vec!["5", "3", "4"], "drained skips, then the queue");
    let carried_ids: Vec<String> = carried.iter().map(|r| r.trainee_id.clone()).collect();
    assert_eq!(carried_ids, vec!["1", "2"]);
    assert_eq!(owed, 1, "only the unconfirmed one is still owed");
}

#[test]
fn a_resume_accounts_for_exactly_the_batch_it_continues() {
    let previous = killed_mid_submission();
    let total = previous.total;

    let (ids, carried, _) = resume_of(guard(previous, true).expect("the override"));

    assert_eq!(ids.len() + carried.len(), total);
}

#[test]
fn a_resume_never_offers_an_unconfirmed_trainee() {
    let (ids, carried, _) = resume_of(guard(unfinished(CheckpointStatus::Finished), true).expect("the override"));

    assert!(!ids.contains(&"2".to_string()), "{ids:?}");
    assert!(carried.iter().any(|r| r.trainee_id == "2"));
}

#[test]
fn a_resume_never_offers_the_crash_window_trainee() {
    let (ids, carried, _) = resume_of(guard(killed_mid_submission(), true).expect("the override"));

    assert_eq!(ids, vec!["3", "4"], "the never-attempted, and only those");
    assert_eq!(carried.len(), 2, "the one that settled, and the one in flight");

    let in_flight = carried
        .iter()
        .find(|r| r.trainee_id == "2")
        .expect("the crash-window trainee is carried");
    assert_eq!(in_flight.error_code.as_deref(), Some(IN_FLIGHT_CODE));
}

#[test]
fn a_resume_skips_what_already_settled() {
    let (ids, _, _) = resume_of(guard(unfinished(CheckpointStatus::Finished), true).expect("the override"));

    assert!(!ids.contains(&"1".to_string()), "settled: {ids:?}");
}

#[test]
fn a_resume_of_a_settled_batch_has_nothing_to_run() {
    let mut done = unfinished(CheckpointStatus::Interrupted);
    done.results = vec![result("1", Outcome::Success)];
    done.pending = Vec::new();

    let (ids, carried, owed) = resume_of(guard(done, true).expect("the override"));

    assert!(ids.is_empty(), "nothing was left unsent");
    assert_eq!(carried.len(), 1, "the record that did land");
    assert_eq!(owed, 0, "and nothing is owed: exit 0, not 3");
}

// -- files from a build without in-flight tracking ----------------------

fn untracked() -> StoredCheckpoint {
    StoredCheckpoint {
        checkpoint: BatchCheckpoint {
            status: CheckpointStatus::Running,
            started_at: "1758285600000".to_string(),
            updated_at: "1758285900000".to_string(),
            total: 4,
            results: vec![result("1", Outcome::Success)],
            pending: vec!["2".to_string(), "3".to_string(), "4".to_string()],
            in_flight: None,
        },
        tracks_in_flight: false,
    }
}

#[test]
fn an_untracked_file_refuses_and_names_the_trainee_it_cannot_account_for() {
    let refusal = reconcile(PATH, untracked(), false).outcome.err().expect("must not be overwritten");

    assert!(refusal.contains("could not record a submission in flight"), "{refusal}");
    assert!(refusal.contains("may already be on the portal"), "{refusal}");
    assert!(refusal.contains('2'), "the trainee in question: {refusal}");
    assert!(
        refusal.contains("2 never attempted"),
        "the suspect is not one a resume promises to run: {refusal}"
    );
}

#[test]
fn a_resume_of_an_untracked_file_runs_the_queue_behind_the_suspect() {
    let reconciled: Reconciled = reconcile(PATH, untracked(), true);
    let (ids, carried, owed) = resume_of(reconciled.outcome.expect("the override"));

    assert_eq!(ids, vec!["3", "4"], "not the one that may have been sent");
    assert!(carried.iter().any(|r| r.trainee_id == "2"));
    assert!(carried.iter().any(|r| r.trainee_id == "1"), "the row that landed rides along too");
    assert_eq!(owed, 1, "the suspect is what a human is owed");
}

#[test]
fn a_tracked_file_with_a_queue_is_not_suspected() {
    let mut cp = unfinished(CheckpointStatus::Finished);
    cp.results = vec![result("1", Outcome::Success)];
    cp.pending = vec!["2".to_string()];

    let (ids, _, _) = resume_of(guard(cp, true).expect("the override"));

    assert_eq!(ids, vec!["2"], "its whole queue is continueable");
}

// -- messages -----------------------------------------------------------

#[test]
fn the_refusal_names_the_file_the_counts_and_the_ways_forward() {
    let refusal = guard(unfinished(CheckpointStatus::Finished), false).err().expect("refused");

    assert!(refusal.contains("dssp.checkpoint.json"), "{refusal}");
    assert!(refusal.contains("1758285600000"), "the batch's clock: {refusal}");
    assert!(refusal.contains("4 trainee(s)"), "{refusal}");
    assert!(refusal.contains("1 settled"), "not the in-flight count: {refusal}");
    assert!(refusal.contains("1 unconfirmed"), "{refusal}");
    assert!(refusal.contains("2 never attempted"), "{refusal}");
    assert!(refusal.contains("DSSP_RESUME=1"), "{refusal}");
    assert!(refusal.contains("move"), "the way out: {refusal}");
}

#[test]
fn the_refusal_counts_a_crash_window_trainee_separately_from_the_settled_ones() {
    let refusal = guard(killed_mid_submission(), false).err().expect("refused");

    assert!(refusal.contains("1 settled"), "{refusal}");
    assert!(refusal.contains("1 unconfirmed"), "{refusal}");
}

#[test]
fn the_recovered_line_reports_what_the_dead_batch_left() {
    let start = guard(killed_mid_submission(), true).expect("the override");
    let line = recovered_line(PATH, start.previous.as_ref().unwrap());

    assert!(line.contains("dssp.checkpoint.json"), "{line}");
    assert!(line.contains("1 settled"), "{line}");
    assert!(line.contains("1 unconfirmed"), "{line}");
    assert!(line.contains("2 never attempted"), "{line}");
    assert!(line.contains("of 4"), "{line}");
}

#[test]
fn the_refusal_text_is_exact() {
    let refusal = guard(unfinished(CheckpointStatus::Finished), false).err().expect("refused");
    assert_eq!(
        refusal,
        "dssp-bot: refusing to start — the checkpoint at /tmp/batches/dssp.checkpoint.json is not reconciled\n\
         dssp-bot:   previous batch started 1758285600000: 4 trainee(s), 1 settled, 1 unconfirmed, 2 never attempted\n\
         dssp-bot:   1 submission(s) may already exist on the portal — check them there before going on\n\
         dssp-bot:   re-run with DSSP_RESUME=1 to continue the 2 never-attempted trainee(s); nothing unconfirmed is replayed\n\
         dssp-bot:   or move /tmp/batches/dssp.checkpoint.json aside to start a fresh batch, once you have checked the portal"
    );
}

#[test]
fn nothing_left_to_attempt_says_so() {
    let mut cp = unfinished(CheckpointStatus::Finished);
    cp.total = 2;
    cp.pending = Vec::new();
    let refusal = guard(cp, false).err().expect("refused");
    assert!(refusal.contains("there is nothing left to attempt"), "{refusal}");
    assert!(refusal.contains("0 never attempted"), "{refusal}");
}

#[test]
fn the_unreadable_text_is_exact() {
    assert_eq!(
        unreadable("f.json", "bad"),
        "dssp-bot: refusing to start — the checkpoint at f.json cannot be read: bad\n\
         dssp-bot:   a checkpoint that cannot be read must not be treated as if no batch ran\n\
         dssp-bot:   if you are certain nothing was submitted, move f.json aside and re-run"
    );
}

#[test]
fn unicode_white_space_is_trimmed_too() {
    assert!(is_affirmative("\u{3000}yes\u{a0}"));
    assert!(is_affirmative("\tON\n"));
    assert!(!is_affirmative("y es"));
}

/// A missing file is the ordinary first run: start fresh, write nothing.
#[test]
fn a_missing_checkpoint_starts_fresh() {
    let done = reconcile_slot(PATH, Ok(None), false);
    assert!(done.save.is_none());
    assert!(done.warning.is_none());
    let start = done.outcome.expect("a fresh start");
    assert!(matches!(start.plan, Plan::Fresh));
    assert!(start.previous.is_none());
    assert!(!start.recovered);
}

/// A file that cannot be read is refused even when a resume was asked for.
#[test]
fn an_unreadable_checkpoint_refuses_even_a_resume() {
    let error = dssp_bot::store::tracks_in_flight(PATH, "not json at all").unwrap_err();
    let done = reconcile_slot(PATH, Err(error.clone()), true);
    assert!(done.save.is_none());
    let refusal = done.outcome.err().expect("a refusal");
    assert_eq!(refusal, unreadable(PATH, &error));
}
