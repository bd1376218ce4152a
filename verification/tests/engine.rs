use std::collections::VecDeque;

use dssp_bot::checkpoint::{BatchCheckpoint, CheckpointStatus, CheckpointWriter};
use dssp_bot::decision::RetryPolicy;
use dssp_bot::engine::{repeated_keys, BatchEngine, Event, Step, Transport};
use dssp_bot::protocol::op;
use dssp_bot::protocol::{Request, Response, SessionInput, Status, TraineeRef, TraineeResolved};
use dssp_bot::report::{Outcome, ReportCounts, TrainingResult};

// -- the worker ---------------------------------------------------------

fn blank(status: Status) -> Response {
    Response {
        v: 1,
        job_id: String::new(),
        op: String::new(),
        status,
        error_code: None,
        message: None,
        proves_nothing_submitted: None,
        pong: None,
        authenticated: None,
        count: None,
        trainees: None,
        instructors: None,
        training_types: None,
        trainee: None,
        attempts: None,
        outcome: None,
        reference: None,
    }
}

fn confirmed(id: &str, name: &str) -> Response {
    let mut r = blank(Status::Okay);
    r.outcome = Some("confirmed".to_string());
    r.reference = Some("u".to_string());
    r.trainee = Some(TraineeResolved { id: id.to_string(), name: name.to_string() });
    r.attempts = Some(1);
    r
}

fn outcome(word: &str, message: &str, id: &str, name: &str) -> Response {
    let mut r = blank(Status::Okay);
    r.outcome = Some(word.to_string());
    r.message = Some(message.to_string());
    r.trainee = Some(TraineeResolved { id: id.to_string(), name: name.to_string() });
    r
}

fn error(code: &str, message: &str, proves_nothing: bool) -> Response {
    let mut r = blank(Status::Error);
    r.error_code = Some(code.to_string());
    r.message = Some(message.to_string());
    r.proves_nothing_submitted = Some(proves_nothing);
    r
}

/// Scripts one response per submit_training call, in order.
struct FakeTransport {
    ensure_ok: bool,
    submits: VecDeque<Response>,
    submit_calls: usize,
}

impl FakeTransport {
    fn new(ensure_ok: bool, submits: Vec<Response>) -> Self {
        Self { ensure_ok, submits: submits.into(), submit_calls: 0 }
    }
}

impl Transport for FakeTransport {
    fn send(&mut self, req: &Request) -> Result<Response, String> {
        if req.op == op::ENSURE_SESSION {
            if self.ensure_ok {
                let mut r = blank(Status::Okay);
                r.authenticated = Some(true);
                Ok(r)
            } else {
                Ok(error("SESSION_EXPIRED", "login", true))
            }
        } else if req.op == op::SUBMIT_TRAINING {
            self.submit_calls += 1;
            Ok(self.submits.pop_front().expect("no scripted submit response left"))
        } else {
            panic!("unexpected op {}", req.op)
        }
    }
}

// -- the sinks ----------------------------------------------------------

/// Records every checkpoint in order.
#[derive(Default)]
struct Recorder(Vec<BatchCheckpoint>);

impl CheckpointWriter for Recorder {
    fn write(&mut self, checkpoint: &BatchCheckpoint) -> Result<(), String> {
        self.0.push(checkpoint.clone());
        Ok(())
    }
}

/// Accepts `ok` writes and then fails, the way a disk fills up mid-batch.
struct Filling {
    ok: usize,
    seen: Vec<BatchCheckpoint>,
}

impl CheckpointWriter for Filling {
    fn write(&mut self, checkpoint: &BatchCheckpoint) -> Result<(), String> {
        if self.ok == 0 {
            return Err("no space left on device".to_string());
        }
        self.ok -= 1;
        self.seen.push(checkpoint.clone());
        Ok(())
    }
}

// -- the loop the engine asks to be driven by ---------------------------

struct Report {
    total: usize,
    successful: usize,
    failed: usize,
    skipped: usize,
    indeterminate: usize,
    success_rate: f64,
    results: Vec<TrainingResult>,
}

struct Run {
    report: Option<Report>,
    error: Option<String>,
    /// What the sink had accepted when each submission was sent.
    seen_at_send: Vec<Option<BatchCheckpoint>>,
}

fn drive(
    engine: &mut BatchEngine,
    sink: &mut dyn CheckpointWriter,
    worker: &mut FakeTransport,
    trainees: Vec<TraineeRef>,
    die_on_call: Option<usize>,
) -> Run {
    let mut clock: u64 = 1_758_285_600_000;
    let mut accepted: Option<BatchCheckpoint> = None;
    let mut seen_at_send = Vec::new();
    let mut step = engine.begin(session(), trainees, clock.to_string());
    loop {
        clock += 1;
        step = match step {
            Step::Send(req) => {
                if req.op == op::SUBMIT_TRAINING {
                    seen_at_send.push(accepted.clone());
                    if die_on_call == Some(worker.submit_calls + 1) {
                        // The process dies with the submission on the wire.
                        return Run { report: None, error: None, seen_at_send };
                    }
                }
                let reply = worker.send(&req);
                engine.advance(Event::Replied(reply), clock.to_string())
            }
            Step::Write(cp) => {
                let written = sink.write(&cp);
                if written.is_ok() {
                    accepted = Some(cp.clone());
                }
                engine.advance(Event::Written(written), clock.to_string())
            }
            Step::Wait(_) => engine.advance(Event::Waited, clock.to_string()),
            Step::Finished(results) => {
                let counts = ReportCounts::of(&results);
                let success_rate = if counts.total == 0 {
                    0.0
                } else {
                    counts.successful as f64 / counts.total as f64
                };
                let report = Report {
                    total: counts.total,
                    successful: counts.successful,
                    failed: counts.failed,
                    skipped: counts.skipped,
                    indeterminate: counts.indeterminate,
                    success_rate,
                    results,
                };
                return Run { report: Some(report), error: None, seen_at_send };
            }
            Step::Failed(e) => return Run { report: None, error: Some(e), seen_at_send },
        };
    }
}

fn session() -> SessionInput {
    SessionInput {
        training_date: "2026-09-14".to_string(),
        instructor: "10".to_string(),
        training_type: "1".to_string(),
    }
}

fn refs(ids: &[&str]) -> Vec<TraineeRef> {
    ids.iter()
        .map(|id| TraineeRef { id: Some((*id).to_string()), name: None })
        .collect()
}

/// Zero delays keep retry tests instant.
fn fast_policy() -> RetryPolicy {
    RetryPolicy { max_attempts: 3, initial_delay_ms: 0, max_delay_ms: 0, backoff_factor: 2 }
}

fn fast_engine() -> BatchEngine {
    BatchEngine::with_policy(fast_policy())
}

fn run(
    engine: &mut BatchEngine,
    sink: &mut dyn CheckpointWriter,
    worker: &mut FakeTransport,
    ids: &[&str],
) -> Report {
    drive(engine, sink, worker, refs(ids), None).report.expect("a finished batch")
}

// -- the policy ---------------------------------------------------------

#[test]
fn all_confirmed() {
    let mut w = FakeTransport::new(
        true,
        vec![confirmed("1", "A"), confirmed("2", "B"), confirmed("3", "C")],
    );
    let report = run(&mut fast_engine(), &mut Recorder::default(), &mut w, &["1", "2", "3"]);
    assert_eq!((report.total, report.successful, report.failed), (3, 3, 0));
    assert_eq!(report.skipped, 0);
    assert_eq!(w.submit_calls, 3);
    assert_eq!(report.success_rate, 1.0);
}

#[test]
fn a_repeated_id_is_queued_and_submitted_once() {
    let mut w = FakeTransport::new(
        true,
        vec![confirmed("1", "A"), confirmed("1", "A"), confirmed("2", "B")],
    );

    let report = run(&mut fast_engine(), &mut Recorder::default(), &mut w, &["1", "1", "2"]);

    assert_eq!(w.submit_calls, 2, "the repeat never reached the worker");
    assert_eq!(report.total, 2, "and the file accounts for two, not three");
    assert_eq!(report.successful, 2);
}

#[test]
fn indeterminate_aborts_and_drains_rest_as_skipped() {
    let mut w = FakeTransport::new(
        true,
        vec![confirmed("1", "A"), outcome("indeterminate", "?", "2", "B")],
    );
    let report = run(&mut fast_engine(), &mut Recorder::default(), &mut w, &["1", "2", "3"]);
    assert_eq!(report.total, 3);
    assert_eq!(report.successful, 1);
    assert_eq!(report.indeterminate, 1);
    assert_eq!(report.skipped, 1);
    assert_eq!(w.submit_calls, 2, "must not submit after an abort");
    assert_eq!(report.results[2].outcome, Outcome::Skipped);
}

#[test]
fn rejected_and_duplicate_fail_but_batch_continues() {
    let mut w = FakeTransport::new(
        true,
        vec![
            outcome("rejected", "bad", "1", "A"),
            confirmed("2", "B"),
            outcome("duplicate", "already logged", "3", "C"),
        ],
    );
    let report = run(&mut fast_engine(), &mut Recorder::default(), &mut w, &["1", "2", "3"]);
    assert_eq!((report.total, report.successful, report.failed, report.skipped), (3, 1, 2, 0));
    assert_eq!(w.submit_calls, 3);
}

#[test]
fn element_not_found_retries_then_succeeds() {
    let mut w = FakeTransport::new(
        true,
        vec![error("ELEMENT_NOT_FOUND", "no field", true), confirmed("1", "A")],
    );
    let report = run(&mut fast_engine(), &mut Recorder::default(), &mut w, &["1"]);
    assert_eq!(report.successful, 1);
    assert_eq!(report.results[0].attempts, 2);
    assert_eq!(w.submit_calls, 2);
}

#[test]
fn session_expired_aborts_batch() {
    let mut w = FakeTransport::new(true, vec![error("SESSION_EXPIRED", "gone", true)]);
    let report = run(&mut fast_engine(), &mut Recorder::default(), &mut w, &["1", "2"]);
    assert_eq!(report.failed, 1);
    assert_eq!(report.skipped, 1);
    assert_eq!(report.results[0].error_code.as_deref(), Some("SESSION_EXPIRED"));
    assert_eq!(w.submit_calls, 1);
}

#[test]
fn ensure_session_failure_stops_before_any_submit() {
    let mut w = FakeTransport::new(false, vec![]);
    let mut recorder = Recorder::default();
    let outcome = drive(&mut fast_engine(), &mut recorder, &mut w, refs(&["1"]), None);
    let err = outcome.error.expect("the session gate failed");
    assert!(err.contains("session"), "{err}");
    assert_eq!(w.submit_calls, 0);
    assert!(recorder.0.is_empty(), "nothing is written for a batch that never started");
}

// -- checkpointing ------------------------------------------------------

#[test]
fn checkpoints_after_every_settled_trainee() {
    let mut recorder = Recorder::default();
    let mut w = FakeTransport::new(
        true,
        vec![confirmed("1", "A"), confirmed("2", "B"), confirmed("3", "C")],
    );

    run(&mut fast_engine(), &mut recorder, &mut w, &["1", "2", "3"]);

    let settled: Vec<&BatchCheckpoint> =
        recorder.0.iter().filter(|c| c.in_flight.is_none()).collect();
    let statuses: Vec<CheckpointStatus> = settled.iter().map(|c| c.status).collect();
    let processed: Vec<usize> = settled.iter().map(|c| c.results.len()).collect();

    assert_eq!(
        statuses,
        vec![
            CheckpointStatus::Running,
            CheckpointStatus::Running,
            CheckpointStatus::Running,
            CheckpointStatus::Finished,
        ]
    );
    assert_eq!(processed, vec![1, 2, 3, 3]);
}

#[test]
fn a_checkpoint_names_the_trainees_still_queued() {
    let mut recorder = Recorder::default();
    let mut w = FakeTransport::new(
        true,
        vec![confirmed("1", "A"), confirmed("2", "B"), confirmed("3", "C")],
    );

    run(&mut fast_engine(), &mut recorder, &mut w, &["1", "2", "3"]);

    let written = &recorder.0;
    let first = written.iter().find(|c| c.in_flight.is_none()).expect("a settled write");

    assert_eq!(first.status, CheckpointStatus::Running);
    assert_eq!(first.total, 3);
    assert_eq!(first.started_at, written.last().unwrap().started_at);
    assert_eq!(
        first.results.iter().map(|r| r.trainee_id.as_str()).collect::<Vec<_>>(),
        vec!["1"]
    );
    assert_eq!(first.pending, vec!["2", "3"]);
}

// -- the crash window ---------------------------------------------------

#[test]
fn a_trainee_is_checkpointed_before_its_submission_is_sent() {
    let mut recorder = Recorder::default();
    let mut w = FakeTransport::new(
        true,
        vec![confirmed("1", "A"), confirmed("2", "B"), confirmed("3", "C")],
    );

    let outcome = drive(&mut fast_engine(), &mut recorder, &mut w, refs(&["1", "2", "3"]), None);

    let first = outcome.seen_at_send[0].as_ref().expect("written before submission 1");
    assert_eq!(first.in_flight.as_deref(), Some("1"));
    assert!(first.results.is_empty(), "{first:?}");
    assert_eq!(first.pending, vec!["2", "3"]);

    let second = outcome.seen_at_send[1].as_ref().expect("written before submission 2");
    assert_eq!(second.in_flight.as_deref(), Some("2"));
    assert_eq!(second.results.len(), 1, "only trainee 1 had settled");
}

#[test]
fn a_crash_mid_submission_leaves_the_trainee_in_flight() {
    let mut recorder = Recorder::default();
    let mut w = FakeTransport::new(true, vec![confirmed("1", "A")]);

    let outcome = drive(&mut fast_engine(), &mut recorder, &mut w, refs(&["1", "2", "3"]), Some(2));
    assert!(outcome.report.is_none(), "the simulated crash ended the run");

    let last = recorder.0.last().expect("the write taken before the second send");

    assert_eq!(last.status, CheckpointStatus::Running);
    assert_eq!(last.in_flight.as_deref(), Some("2"));
    assert_eq!(last.results.len(), 1, "trainee 1 settled before the crash");
    assert_eq!(last.pending, vec!["3"]);

    let split = last.unreconciled();
    assert_eq!(split.indeterminate.len(), 1, "the crashed trainee is unconfirmed");
    assert_eq!(split.indeterminate[0].trainee_id, "2");
    assert!(!split.unprocessed.contains(&"2".to_string()), "and not merely queued");
}

#[test]
fn the_in_flight_marker_is_cleared_once_the_trainee_settles() {
    let mut recorder = Recorder::default();
    let mut w = FakeTransport::new(true, vec![confirmed("1", "A"), confirmed("2", "B")]);

    run(&mut fast_engine(), &mut recorder, &mut w, &["1", "2"]);

    for checkpoint in &recorder.0 {
        if let Some(id) = &checkpoint.in_flight {
            assert!(
                !checkpoint.results.iter().any(|r| &r.trainee_id == id),
                "settled and in flight at once: {checkpoint:?}"
            );
        }
    }

    assert!(recorder.0.last().unwrap().in_flight.is_none());
}

#[test]
fn a_retry_attempt_does_not_write_a_second_in_flight_record() {
    let mut recorder = Recorder::default();
    let mut w = FakeTransport::new(
        true,
        vec![error("ELEMENT_NOT_FOUND", "no field", true), confirmed("1", "A")],
    );

    run(&mut fast_engine(), &mut recorder, &mut w, &["1"]);

    let marked: Vec<&BatchCheckpoint> =
        recorder.0.iter().filter(|c| c.in_flight.is_some()).collect();

    assert_eq!(marked.len(), 1, "{marked:?}");
    assert_eq!(marked[0].in_flight.as_deref(), Some("1"));
    assert_eq!(w.submit_calls, 2, "the retry still happened");
}

#[test]
fn every_checkpoint_accounts_for_every_trainee() {
    let mut recorder = Recorder::default();
    let mut w = FakeTransport::new(
        true,
        vec![confirmed("1", "A"), outcome("indeterminate", "?", "2", "B")],
    );

    run(&mut fast_engine(), &mut recorder, &mut w, &["1", "2", "3"]);

    let written = &recorder.0;
    assert!(written.len() >= 4, "one marker per attempt plus the settled writes");

    for checkpoint in written {
        let accounted = checkpoint.results.len()
            + checkpoint.pending.len()
            + usize::from(checkpoint.in_flight.is_some());

        assert_eq!(accounted, checkpoint.total, "{checkpoint:?}");
    }
}

// -- carried history ----------------------------------------------------

fn indeterminate(id: &str, name: &str) -> TrainingResult {
    TrainingResult {
        trainee_id: id.to_string(),
        trainee_name: name.to_string(),
        outcome: Outcome::Indeterminate,
        attempts: 1,
        error_code: Some("NETWORK".to_string()),
        message: Some("no confirmation".to_string()),
    }
}

#[test]
fn carried_results_survive_the_first_write_of_a_resumed_batch() {
    let mut recorder = Recorder::default();
    let mut w = FakeTransport::new(true, vec![confirmed("2", "B")]);

    let mut engine = fast_engine().with_carried(vec![indeterminate("1", "A")]);
    run(&mut engine, &mut recorder, &mut w, &["2"]);

    let first = recorder.0.first().expect("a first write");

    assert_eq!(first.results.len(), 1);
    assert_eq!(first.results[0].trainee_id, "1");
    assert_eq!(first.total, 2, "the file accounts for both batches' work");
    assert_eq!(first.in_flight.as_deref(), Some("2"));
}

#[test]
fn a_resumed_batch_never_resubmits_a_carried_record() {
    let mut w = FakeTransport::new(true, vec![confirmed("2", "B")]);

    let mut engine = fast_engine().with_carried(vec![indeterminate("1", "A")]);
    let report = run(&mut engine, &mut Recorder::default(), &mut w, &["2"]);

    assert_eq!(w.submit_calls, 1, "only the trainee still to do");
    assert_eq!(report.total, 2);
    assert_eq!(report.successful, 1);
    assert_eq!(report.indeterminate, 1, "the unconfirmed record is still reported");
}

#[test]
fn a_carried_indeterminate_does_not_abort_the_resumed_batch() {
    let mut w = FakeTransport::new(true, vec![confirmed("2", "B"), confirmed("3", "C")]);

    let mut engine = fast_engine().with_carried(vec![indeterminate("1", "A")]);
    let report = run(&mut engine, &mut Recorder::default(), &mut w, &["2", "3"]);

    assert_eq!(report.successful, 2);
    assert_eq!(report.skipped, 0, "the batch ran to the end");
    assert_eq!(w.submit_calls, 2);
}

#[test]
fn a_second_run_does_not_re_carry_the_first_runs_history() {
    let mut engine = fast_engine().with_carried(vec![indeterminate("1", "A")]);

    let mut first = FakeTransport::new(true, vec![confirmed("2", "B")]);
    assert_eq!(run(&mut engine, &mut Recorder::default(), &mut first, &["2"]).total, 2);

    let mut second = FakeTransport::new(true, vec![confirmed("3", "C")]);
    let report = run(&mut engine, &mut Recorder::default(), &mut second, &["3"]);

    assert_eq!(report.total, 1);
    assert_eq!(report.indeterminate, 0);
}

#[test]
fn the_terminal_checkpoint_has_nothing_pending() {
    let mut recorder = Recorder::default();
    let mut w = FakeTransport::new(true, vec![confirmed("1", "A"), confirmed("2", "B")]);

    run(&mut fast_engine(), &mut recorder, &mut w, &["1", "2"]);

    let last = recorder.0.last().expect("a terminal write");

    assert_eq!(last.status, CheckpointStatus::Finished);
    assert!(last.pending.is_empty());
    assert_eq!(last.results.len(), 2);
}

#[test]
fn the_abort_checkpoint_precedes_the_skip_drain() {
    let mut recorder = Recorder::default();
    let mut w = FakeTransport::new(
        true,
        vec![confirmed("1", "A"), outcome("indeterminate", "?", "2", "B")],
    );

    run(&mut fast_engine(), &mut recorder, &mut w, &["1", "2", "3"]);

    let written = &recorder.0;
    let aborting = written
        .iter()
        .find(|c| c.results.iter().any(|r| r.outcome == Outcome::Indeterminate))
        .expect("the write that saw the abort");

    assert_eq!(aborting.status, CheckpointStatus::Running);
    assert_eq!(aborting.pending, vec!["3"]);
    assert!(
        written
            .iter()
            .filter(|c| c.status == CheckpointStatus::Running)
            .all(|c| c.results.iter().all(|r| r.outcome != Outcome::Skipped)),
        "skips belong to the terminal write only"
    );

    let last = written.last().unwrap();

    assert_eq!(last.status, CheckpointStatus::Finished);
    assert!(last.pending.is_empty());
    assert_eq!(last.results[2].outcome, Outcome::Skipped);
}

#[test]
fn a_failing_checkpoint_writer_does_not_stop_the_batch() {
    let mut w = FakeTransport::new(true, vec![confirmed("1", "A"), confirmed("2", "B")]);
    let mut sink = Filling { ok: 3, seen: Vec::new() };

    let report = run(&mut fast_engine(), &mut sink, &mut w, &["1", "2"]);

    assert_eq!(report.successful, 2);
    assert_eq!(w.submit_calls, 2);
    assert!(!sink.seen.is_empty(), "the earlier writes landed");
}

#[test]
fn a_failed_in_flight_write_stops_the_batch_before_submitting() {
    let mut w = FakeTransport::new(true, vec![confirmed("1", "A"), confirmed("2", "B")]);
    let mut sink = Filling { ok: 0, seen: Vec::new() };

    let report = run(&mut fast_engine(), &mut sink, &mut w, &["1", "2"]);

    assert_eq!(w.submit_calls, 0, "nothing may reach the portal unrecorded");
    assert_eq!(report.skipped, 2);
    assert_eq!(report.total, 2, "both are accounted for, neither ran");
    assert!(sink.seen.is_empty());
}

#[test]
fn a_failed_in_flight_write_leaves_the_queue_in_order() {
    let mut w = FakeTransport::new(true, vec![confirmed("1", "A"), confirmed("2", "B")]);
    let mut sink = Filling { ok: 2, seen: Vec::new() };

    let report = run(&mut fast_engine(), &mut sink, &mut w, &["1", "2", "3"]);

    assert_eq!(w.submit_calls, 1, "only trainee 1 was sent");
    assert_eq!(report.successful, 1);

    let ids: Vec<String> = report
        .results
        .iter()
        .filter(|r| r.outcome == Outcome::Skipped)
        .map(|r| r.trainee_id.clone())
        .collect();

    assert_eq!(ids, vec!["2", "3"], "the queue order, not the failure's");

    let last = sink.seen.last().cloned().expect("a final write");
    assert!(last.never_attempted().contains(&"2".to_string()));
    assert!(!last.never_attempted().contains(&"1".to_string()));
}

// -- records, exactly ---------------------------------------------------

#[test]
fn a_lost_reply_is_recorded_as_indeterminate_and_aborts() {
    struct Deaf(usize);
    impl Transport for Deaf {
        fn send(&mut self, req: &Request) -> Result<Response, String> {
            if req.op == op::ENSURE_SESSION {
                Ok(blank(Status::Okay))
            } else {
                self.0 += 1;
                Err("worker closed stdout".to_string())
            }
        }
    }
    let mut engine = fast_engine();
    let mut sink = Recorder::default();
    let mut step = engine.begin(session(), refs(&["1", "2"]), "0".to_string());
    let mut deaf = Deaf(0);
    let results = loop {
        step = match step {
            Step::Send(req) => engine.advance(Event::Replied(deaf.send(&req)), "t".to_string()),
            Step::Write(cp) => engine.advance(Event::Written(sink.write(&cp)), "t".to_string()),
            Step::Wait(_) => engine.advance(Event::Waited, "t".to_string()),
            Step::Finished(results) => break results,
            Step::Failed(e) => panic!("{e}"),
        };
    };
    assert_eq!(deaf.0, 1, "never retried");
    assert_eq!(results[0].outcome, Outcome::Indeterminate);
    assert_eq!(results[0].error_code.as_deref(), Some("NETWORK"));
    assert_eq!(results[0].message.as_deref(), Some("transport error: worker closed stdout"));
    assert_eq!(results[1].outcome, Outcome::Skipped);
    assert_eq!(
        results[1].message.as_deref(),
        Some("batch aborted: 1 was submitted but could not be confirmed — verify on the portal before re-running")
    );
}

#[test]
fn exhausted_retries_fail_with_the_attempt_count() {
    let mut w = FakeTransport::new(
        true,
        vec![
            error("TIMEOUT", "slow", true),
            error("TIMEOUT", "slow", true),
            error("TIMEOUT", "slow", true),
        ],
    );
    let report = run(&mut fast_engine(), &mut Recorder::default(), &mut w, &["1"]);
    assert_eq!(w.submit_calls, 3);
    assert_eq!(report.failed, 1);
    assert_eq!(report.results[0].message.as_deref(), Some("gave up after 3 attempts: slow"));
    assert_eq!(report.results[0].attempts, 3);
}

#[test]
fn the_backoff_delay_comes_from_the_policy() {
    let mut engine = BatchEngine::new();
    let mut step = engine.begin(session(), refs(&["1"]), "0".to_string());
    let mut waits = Vec::new();
    let mut w = FakeTransport::new(
        true,
        vec![error("NETWORK", "x", true), error("NETWORK", "x", true), confirmed("1", "A")],
    );
    loop {
        step = match step {
            Step::Send(req) => engine.advance(Event::Replied(w.send(&req)), "t".to_string()),
            Step::Write(_) => engine.advance(Event::Written(Ok(())), "t".to_string()),
            Step::Wait(ms) => {
                waits.push(ms);
                engine.advance(Event::Waited, "t".to_string())
            }
            Step::Finished(_) => break,
            Step::Failed(e) => panic!("{e}"),
        };
    }
    assert_eq!(waits, vec![500, 1000]);
}

/// Every attempt at one trainee goes out under one `job_id`, so the worker can
/// tell a retry from a new submission; the next trainee gets a fresh one. Each
/// carries the batch's session.
#[test]
fn retries_of_one_trainee_share_a_job_id_and_the_next_gets_its_own() {
    let mut engine = fast_engine();
    let mut sent: Vec<Request> = Vec::new();
    let mut replies: VecDeque<Response> = vec![
        error("TIMEOUT", "slow", true),
        confirmed("1", "A"),
        confirmed("2", "B"),
    ]
    .into();
    let mut step = engine.begin(session(), refs(&["1", "2"]), "t".to_string());
    let results = loop {
        step = match step {
            Step::Send(req) => {
                let reply = if req.op == op::SUBMIT_TRAINING {
                    let mut r = replies.pop_front().expect("a scripted reply");
                    r.job_id = req.job_id.clone();
                    sent.push(req);
                    r
                } else {
                    blank(Status::Okay)
                };
                engine.advance(Event::Replied(Ok(reply)), "t".to_string())
            }
            Step::Write(_) => engine.advance(Event::Written(Ok(())), "t".to_string()),
            Step::Wait(_) => engine.advance(Event::Waited, "t".to_string()),
            Step::Finished(results) => break results,
            Step::Failed(e) => panic!("{e}"),
        };
    };

    assert_eq!(results.len(), 2);
    assert_eq!(sent.len(), 3);
    assert_eq!(sent[0].job_id, sent[1].job_id, "a retry keeps its job_id");
    assert_ne!(sent[1].job_id, sent[2].job_id, "the next trainee gets its own");
    assert_eq!(sent[0].job_id.len(), 36);
    for (i, c) in sent[0].job_id.chars().enumerate() {
        if [8, 13, 18, 23].contains(&i) {
            assert_eq!(c, '-');
        } else {
            assert!(c.is_ascii_digit() || ('a'..='f').contains(&c), "{}", sent[0].job_id);
        }
    }
    for req in &sent {
        let s = req.session.as_ref().expect("every submission carries the session");
        assert_eq!(s.training_date, "2026-09-14");
        assert_eq!(s.instructor, "10");
    }
}

#[test]
fn a_repeated_key_is_named_once_per_repeat() {
    let mut roster = refs(&["1", "2", "1", "1"]);
    roster.push(TraineeRef { id: None, name: Some("2".to_string()) });
    assert_eq!(
        repeated_keys(&roster),
        vec![
            "1 is already queued — skipping the repeat",
            "1 is already queued — skipping the repeat",
            "2 is already queued — skipping the repeat",
        ]
    );
    assert!(repeated_keys(&refs(&["1", "2"])).is_empty());
}

/// Drives a fresh engine to the point where the in-flight record of the first
/// trainee has been handed to the sink.
fn at_first_marker(ids: &[&str]) -> BatchEngine {
    let mut engine = fast_engine();
    let step = engine.begin(session(), refs(ids), "t".to_string());
    assert!(matches!(step, Step::Send(_)));
    let mut ok = blank(Status::Okay);
    ok.authenticated = Some(true);
    match engine.advance(Event::Replied(Ok(ok)), "t".to_string()) {
        Step::Write(cp) => assert_eq!(cp.in_flight.as_deref(), Some(ids[0])),
        _ => panic!("expected the in-flight write"),
    }
    engine
}

/// With a job id drawn, the trainee in hand is submitted under it.
#[test]
fn a_drawn_job_id_sends_the_trainee_under_it() {
    let mut engine = at_first_marker(&["1", "2"]);
    match engine.after_draw(Some("job-1".to_string()), "t".to_string()) {
        Step::Send(req) => {
            assert_eq!(req.op, op::SUBMIT_TRAINING);
            assert_eq!(req.job_id, "job-1");
            assert_eq!(req.trainee.and_then(|t| t.id).as_deref(), Some("1"));
        }
        _ => panic!("expected the submission"),
    }
}

/// Without a job id the trainee cannot be sent: the batch closes with it and
/// everything behind it skipped.
#[test]
fn no_job_id_closes_the_batch_before_sending() {
    let mut engine = at_first_marker(&["1", "2"]);
    match engine.after_draw(None, "t".to_string()) {
        Step::Write(cp) => {
            assert_eq!(cp.status, CheckpointStatus::Finished);
            assert!(cp.in_flight.is_none() && cp.pending.is_empty());
            let ids: Vec<&str> = cp.results.iter().map(|r| r.trainee_id.as_str()).collect();
            assert_eq!(ids, vec!["1", "2"]);
            assert!(cp.results.iter().all(|r| r.outcome == Outcome::Skipped));
        }
        _ => panic!("expected the terminal write"),
    }
}
