//! Batch coordinator: establish the session once, run each trainee through the
//! retry policy, and abort the whole batch the moment a result cannot be
//! accounted for (an indeterminate submission, an expired session, or a
//! changed portal), draining everything still queued as skipped.
//!
//! The engine decides; whoever owns the worker, the checkpoint sink and the
//! clock carries out each [`Step`] it asks for and hands back the [`Event`]
//! that came of it.

use vstd::prelude::*;

use crate::checkpoint::{result_ids, BatchCheckpoint, CheckpointStatus, CheckpointView};
use crate::decision::{batch_abort_code, settle_submit, RetryPolicy, Settle};
use crate::protocol::{Request, Response, SessionInput, Status, TraineeRef, TraineeRefView};
use crate::queue::{task_ids, QueueTask, TaskQueue};
use crate::report::{copy_text, opt_text, result_views, texts, Outcome, ResultView, TrainingResult};
use crate::state::{AutomationState, StateMachine};
use crate::text::{decimal, owned, push_count, push_decimal, same_text};

verus! {

/// Anything that can exchange one protocol message with the worker.
pub trait Transport {
    fn send(&mut self, req: &Request) -> Result<Response, String>;
}

/// Whether `c` is a lower-case hexadecimal digit.
pub open spec fn lower_hex(c: char) -> bool {
    (48 <= c as u32 <= 57) || (97 <= c as u32 <= 102)
}

/// The hyphenated form of a UUID: 32 lower-case hex digits in groups of 8, 4,
/// 4, 4 and 12, joined by hyphens.
pub open spec fn hyphenated_uuid(s: Seq<char>) -> bool {
    &&& s.len() == 36
    &&& forall|i: int|
        0 <= i < 36 ==> if i == 8 || i == 13 || i == 18 || i == 23 {
            s[i] == '-'
        } else {
            lower_hex(#[trigger] s[i])
        }
}

/// The lower-case hexadecimal digit of value `n`, for `n` from 0 to 15.
pub open spec fn hex_digit(n: int) -> char {
    if n < 10 {
        (48 + n) as char
    } else {
        (87 + n) as char
    }
}

/// Byte `i` of the version-4 UUID built from `bytes`: the version nibble set to
/// 4 and the variant bits to those of RFC 4122, every other byte as given.
pub open spec fn v4_byte(bytes: Seq<u8>, i: int) -> u8 {
    if i == 6 {
        (bytes[6] & 0x0f) | 0x40
    } else if i == 8 {
        (bytes[8] & 0x3f) | 0x80
    } else {
        bytes[i]
    }
}

/// The 32 hex digits of that UUID, high nibble first.
pub open spec fn v4_digits(bytes: Seq<u8>) -> Seq<char> {
    Seq::new(
        32,
        |k: int|
            {
                let b = v4_byte(bytes, k / 2);
                hex_digit(
                    if k % 2 == 0 {
                        (b / 16) as int
                    } else {
                        (b % 16) as int
                    },
                )
            },
    )
}

/// Its hyphenated text: the digits in groups of 8, 4, 4, 4 and 12.
pub open spec fn v4_text(bytes: Seq<u8>) -> Seq<char> {
    let d = v4_digits(bytes);
    d.subrange(0, 8) + seq!['-'] + d.subrange(8, 12) + seq!['-'] + d.subrange(12, 16) + seq!['-']
        + d.subrange(16, 20) + seq!['-'] + d.subrange(20, 32)
}

/// `getrandom::fill` on sixteen bytes: bytes from the system's random source,
/// or `None` when that source fails. Which bytes come back is chance, so
/// nothing is stated of them.
#[verifier::external_body]
fn random_bytes() -> (bytes: Option<[u8; 16]>) {
    let mut bytes = [0u8; 16];
    match getrandom::fill(&mut bytes) {
        Ok(()) => Some(bytes),
        Err(_) => None,
    }
}

/// `uuid::Builder::from_random_bytes(bytes).into_uuid().to_string()`: the
/// version-4 UUID made of `bytes`, in its hyphenated lower-case form.
#[verifier::external_body]
fn v4_id(bytes: [u8; 16]) -> (id: String)
    ensures
        id@ == v4_text(bytes@),
{
    uuid::Builder::from_random_bytes(bytes).into_uuid().to_string()
}

proof fn lemma_v4_shape(bytes: Seq<u8>)
    requires
        bytes.len() == 16,
    ensures
        hyphenated_uuid(v4_text(bytes)),
{
    let d = v4_digits(bytes);
    let t = v4_text(bytes);
    assert forall|k: int| 0 <= k < 32 implies lower_hex(#[trigger] d[k]) by {
        let b = v4_byte(bytes, k / 2);
        assert(b / 16 < 16 && b % 16 < 16);
    }
    assert forall|i: int| 0 <= i < 36 implies if i == 8 || i == 13 || i == 18 || i == 23 {
        t[i] == '-'
    } else {
        lower_hex(#[trigger] t[i])
    } by {
        if i < 8 {
            assert(t[i] == d[i]);
        } else if 8 < i < 13 {
            assert(t[i] == d[i - 1]);
        } else if 13 < i < 18 {
            assert(t[i] == d[i - 2]);
        } else if 18 < i < 23 {
            assert(t[i] == d[i - 3]);
        } else if 23 < i {
            assert(t[i] == d[i - 4]);
        }
    }
}

/// A fresh job id: a random version-4 UUID, hyphenated, or `None` when the
/// system's random source fails.
pub(crate) fn new_id() -> (id: Option<String>)
    ensures
        id matches Some(s) ==> hyphenated_uuid(s@) && exists|bytes: Seq<u8>|
            bytes.len() == 16 && s@ == v4_text(bytes),
{
    match random_bytes() {
        Some(bytes) => {
            let id = v4_id(bytes);
            proof {
                lemma_v4_shape(bytes@);
            }
            Some(id)
        },
        None => None,
    }
}

/// The key a trainee with no id and no name is queued under.
pub open spec fn positional_key(index: nat) -> Seq<char> {
    "#"@ + decimal(index)
}

/// The key a trainee is queued under, and the one written to `in_flight`: its
/// id, else its name, else its position.
pub open spec fn key_for(trainee: TraineeRefView, index: nat) -> Seq<char> {
    match trainee.id {
        Some(id) => id,
        None => match trainee.name {
            Some(name) => name,
            None => positional_key(index),
        },
    }
}

/// The key a trainee is queued under, and the one written to `in_flight`.
///
/// Id first, since a resume re-resolves what it finds in the file against the
/// portal and a name is not an identity there. The positional fallback exists
/// only so an entry carrying neither is still addressable in the queue.
pub(crate) fn queue_key(trainee: &TraineeRef, index: usize) -> (key: String)
    ensures
        key@ == key_for(trainee@, index as nat),
{
    match &trainee.id {
        Some(id) => id.clone(),
        None => match &trainee.name {
            Some(name) => name.clone(),
            None => {
                let mut key = String::from_str("#");
                push_count(&mut key, index);
                key
            },
        },
    }
}

/// The keys of a roster, position by position.
pub open spec fn roster_keys(trainees: Seq<TraineeRef>) -> Seq<Seq<char>> {
    Seq::new(trainees.len(), |i: int| key_for(trainees[i]@, i as nat))
}

/// The positions of `keys`' first `n` entries that survive collapsing
/// repeats: each key is kept at its first occurrence.
pub open spec fn kept_positions(keys: Seq<Seq<char>>, n: nat) -> Seq<int>
    decreases n,
{
    if n == 0 {
        Seq::empty()
    } else {
        let before = kept_positions(keys, (n - 1) as nat);
        if keys.take(n - 1).contains(keys[n - 1]) {
            before
        } else {
            before.push(n - 1)
        }
    }
}

/// A roster with repeats collapsed: each surviving entry with its key, in the
/// order they were given, the first occurrence of a key winning.
pub open spec fn deduped(trainees: Seq<TraineeRef>) -> Seq<(Seq<char>, TraineeRef)> {
    let keys = roster_keys(trainees);
    kept_positions(keys, trainees.len()).map_values(|i: int| (keys[i], trainees[i]))
}

proof fn lemma_kept_positions(keys: Seq<Seq<char>>, n: nat)
    requires
        n <= keys.len(),
    ensures
        kept_positions(keys, n).len() <= n,
        forall|j: int|
            0 <= j < kept_positions(keys, n).len() ==> 0 <= #[trigger] kept_positions(keys, n)[j]
                < n,
        forall|j: int, k: int|
            0 <= j < k < kept_positions(keys, n).len() ==> kept_positions(keys, n)[j]
                < kept_positions(keys, n)[k],
        forall|x: Seq<char>|
            keys.take(n as int).contains(x) <==> exists|j: int|
                0 <= j < kept_positions(keys, n).len() && keys[#[trigger] kept_positions(
                    keys,
                    n,
                )[j]] == x,
        forall|j: int, k: int|
            0 <= j < k < kept_positions(keys, n).len() ==> keys[kept_positions(keys, n)[j]]
                != keys[kept_positions(keys, n)[k]],
    decreases n,
{
    if n > 0 {
        lemma_kept_positions(keys, (n - 1) as nat);
        let before = kept_positions(keys, (n - 1) as nat);
        let prefix = keys.take(n - 1);
        assert(keys.take(n as int) =~= prefix.push(keys[n - 1]));
        assert forall|x: Seq<char>|
            keys.take(n as int).contains(x) <==> exists|j: int|
                0 <= j < kept_positions(keys, n).len() && keys[#[trigger] kept_positions(
                    keys,
                    n,
                )[j]] == x by {
            let now = kept_positions(keys, n);
            if keys.take(n as int).contains(x) {
                let t = choose|t: int| 0 <= t < n && keys.take(n as int)[t] == x;
                if t < n - 1 {
                    assert(prefix[t] == x);
                    assert(prefix.contains(x));
                    let j = choose|j: int|
                        0 <= j < before.len() && keys[#[trigger] before[j]] == x;
                    assert(now[j] == before[j]);
                } else if prefix.contains(keys[n - 1]) {
                    let j = choose|j: int|
                        0 <= j < before.len() && keys[#[trigger] before[j]] == keys[n - 1];
                    assert(now[j] == before[j]);
                } else {
                    assert(now[now.len() - 1] == n - 1);
                }
            }
            if exists|j: int| 0 <= j < now.len() && keys[#[trigger] now[j]] == x {
                let j = choose|j: int| 0 <= j < now.len() && keys[#[trigger] now[j]] == x;
                let p = now[j];
                assert(keys.take(n as int)[p] == x);
            }
        }
        assert forall|j: int, k: int|
            0 <= j < k < kept_positions(keys, n).len() implies keys[kept_positions(keys, n)[j]]
                != keys[kept_positions(keys, n)[k]] by {
            let now = kept_positions(keys, n);
            if k == now.len() - 1 && !prefix.contains(keys[n - 1]) {
                let p = now[j];
                assert(p == before[j]);
                assert(prefix[p] == keys[p]);
                if keys[p] == keys[n - 1] {
                    assert(prefix.contains(keys[n - 1]));
                }
            }
        }
    }
}

/// The notice for a roster entry dropped because its key is already queued.
pub open spec fn repeat_key_text(key: Seq<char>) -> Seq<char> {
    key + " is already queued — skipping the repeat"@
}

/// The notices for the first `n` entries of a roster whose key an earlier
/// entry already has, in roster order.
pub open spec fn repeat_key_notices(keys: Seq<Seq<char>>, n: nat) -> Seq<Seq<char>>
    decreases n,
{
    if n == 0 {
        Seq::empty()
    } else {
        let before = repeat_key_notices(keys, (n - 1) as nat);
        if keys.take(n - 1).contains(keys[n - 1]) {
            before.push(repeat_key_text(keys[n - 1]))
        } else {
            before
        }
    }
}

/// The entries of a roster that a batch drops as repeats, one notice each, in
/// roster order: the queue holds each key once, its first occurrence.
pub fn repeated_keys(trainees: &Vec<TraineeRef>) -> (notices: Vec<String>)
    ensures
        notices@.map_values(|m: String| m@) == repeat_key_notices(
            roster_keys(trainees@),
            trainees@.len(),
        ),
{
    let ghost keys = roster_keys(trainees@);
    let mut earlier: Vec<String> = Vec::new();
    let mut notices: Vec<String> = Vec::new();
    let mut i: usize = 0;
    while i < trainees.len()
        invariant
            keys == roster_keys(trainees@),
            i <= trainees@.len(),
            earlier@.map_values(|k: String| k@) == keys.take(i as int),
            notices@.map_values(|m: String| m@) == repeat_key_notices(keys, i as nat),
        decreases trainees@.len() - i,
    {
        let key = queue_key(&trainees[i], i);
        let ghost prefix = keys.take(i as int);
        let mut repeat = false;
        let mut j: usize = 0;
        while j < earlier.len()
            invariant
                j <= earlier@.len(),
                earlier@.map_values(|k: String| k@) == prefix,
                repeat ==> prefix.contains(key@),
                !repeat ==> forall|t: int| 0 <= t < j ==> #[trigger] prefix[t] != key@,
            decreases earlier@.len() - j,
        {
            if same_text(earlier[j].as_str(), key.as_str()) {
                assert(prefix[j as int] == key@);
                repeat = true;
            }
            j += 1;
        }
        assert(keys[i as int] == key@);
        assert(keys.take(i as int + 1) =~= prefix.push(key@));
        let ghost notices_before = notices@.map_values(|m: String| m@);
        if repeat {
            let mut notice = key.clone();
            notice.append(" is already queued — skipping the repeat");
            notices.push(notice);
            assert(notices@.map_values(|m: String| m@) =~= notices_before.push(notices@.last()@));
        }
        let ghost earlier_before = earlier@.map_values(|k: String| k@);
        earlier.push(key);
        assert(earlier@.map_values(|k: String| k@) =~= earlier_before.push(earlier@.last()@));
        i += 1;
    }
    assert(keys.take(trainees@.len() as int) =~= keys);
    notices
}

/// A roster is a set: collapse repeats, keep the first occurrence.
///
/// Two entries under one key would submit the same trainee twice, and after a
/// crash the second copy is still in `pending`, where a resume would run it
/// again. Later entries lose, and the caller counts the result rather than its
/// input, so the file's `total` agrees with its groups.
fn dedupe(trainees: Vec<TraineeRef>) -> (unique: Vec<(String, TraineeRef)>)
    ensures
        unique@.len() == deduped(trainees@).len(),
        forall|j: int|
            0 <= j < unique@.len() ==> (#[trigger] unique@[j]).0@ == deduped(trainees@)[j].0
                && unique@[j].1 == deduped(trainees@)[j].1,
{
    let ghost keys = roster_keys(trainees@);
    let mut seen: Vec<String> = Vec::new();
    let mut unique: Vec<(String, TraineeRef)> = Vec::new();
    let mut i: usize = 0;
    while i < trainees.len()
        invariant
            keys == roster_keys(trainees@),
            i <= trainees@.len(),
            unique@.len() == kept_positions(keys, i as nat).len(),
            seen@.len() == unique@.len(),
            forall|j: int|
                0 <= j < unique@.len() ==> (#[trigger] unique@[j]).0@ == keys[kept_positions(
                    keys,
                    i as nat,
                )[j]] && unique@[j].1 == trainees@[kept_positions(keys, i as nat)[j]] && seen@[j]@
                    == unique@[j].0@,
        decreases trainees@.len() - i,
    {
        proof {
            lemma_kept_positions(keys, i as nat);
        }
        let key = queue_key(&trainees[i], i);
        let mut found = false;
        let mut s: usize = 0;
        while s < seen.len()
            invariant
                s <= seen@.len(),
                found ==> exists|j: int| 0 <= j < seen@.len() && seen@[j]@ == key@,
                !found ==> forall|j: int| 0 <= j < s ==> #[trigger] seen@[j]@ != key@,
            decreases seen@.len() - s,
        {
            if same_text(seen[s].as_str(), key.as_str()) {
                found = true;
            }
            s += 1;
        }
        proof {
            assert(key@ == keys[i as int]);
            assert(keys.take(i as int + 1).take(i as int) =~= keys.take(i as int));
            if found {
                let j = choose|j: int| 0 <= j < seen@.len() && seen@[j]@ == key@;
                assert(unique@[j].0@ == keys[kept_positions(keys, i as nat)[j]]);
                assert(keys[kept_positions(keys, i as nat)[j]] == keys[i as int]);
                assert(keys.take(i as int).contains(keys[i as int]));
            } else {
                if keys.take(i as int).contains(keys[i as int]) {
                    let j = choose|j: int|
                        0 <= j < kept_positions(keys, i as nat).len() && keys[
                            #[trigger] kept_positions(keys, i as nat)[j]
                        ] == keys[i as int];
                    assert(unique@[j].0@ == keys[kept_positions(keys, i as nat)[j]]);
                    assert(seen@[j]@ == key@);
                }
            }
        }
        if !found {
            seen.push(key.clone());
            let trainee = trainees[i].copied();
            unique.push((key, trainee));
        }
        i += 1;
    }
    unique
}

/// Why a batch could not start: no job id could be drawn.
pub const NO_JOB_ID: &'static str = "no job id could be drawn: the system's random source failed";

/// Why the trainees a run stopped before reaching are recorded as skipped.
///
/// Distinct from an abort's reason on purpose: an abort means the portal
/// refused something, and this means the run never asked.
pub const NOT_SUBMITTED: &'static str = "not submitted: the run stopped before reaching it";

/// An unconfirmed submission, an expired session, or a changed portal stops
/// the whole batch.
pub open spec fn aborts_after(result: ResultView) -> bool {
    result.outcome == Outcome::Indeterminate || (result.error_code is Some && batch_abort_code(
        result.error_code->0,
    ))
}

fn should_abort(result: &TrainingResult) -> (abort: bool)
    ensures
        abort == aborts_after(result@),
{
    if result.outcome == Outcome::Indeterminate {
        return true;
    }
    match &result.error_code {
        Some(code) => same_text(code.as_str(), "SESSION_EXPIRED") || same_text(
            code.as_str(),
            "PORTAL_STRUCTURE_CHANGED",
        ),
        None => false,
    }
}

/// Why a batch stopped after `result`.
pub open spec fn abort_text(result: ResultView) -> Seq<char> {
    if result.outcome == Outcome::Indeterminate {
        "batch aborted: "@ + (if result.trainee_name.len() == 0 {
            result.trainee_id
        } else {
            result.trainee_name
        }) + " was submitted but could not be confirmed — verify on the portal before re-running"@
    } else {
        "batch aborted: "@ + match result.error_code {
            Some(code) => code,
            None => "unrecoverable error"@,
        }
    }
}

fn abort_reason(result: &TrainingResult) -> (reason: String)
    ensures
        reason@ == abort_text(result@),
{
    let mut reason = String::from_str("batch aborted: ");
    if result.outcome == Outcome::Indeterminate {
        let nameless = result.trainee_name.as_str().is_empty();
        if nameless {
            reason.append(result.trainee_id.as_str());
        } else {
            reason.append(result.trainee_name.as_str());
        }
        reason.append(
            " was submitted but could not be confirmed — verify on the portal before re-running",
        );
    } else {
        match &result.error_code {
            Some(code) => reason.append(code.as_str()),
            None => reason.append("unrecoverable error"),
        }
    }
    reason
}

/// The skipped record a drained trainee leaves.
pub open spec fn skipped_view(trainee: TraineeRefView, reason: Seq<char>) -> ResultView {
    ResultView {
        trainee_id: match trainee.id {
            Some(id) => id,
            None => ""@,
        },
        trainee_name: match trainee.name {
            Some(name) => name,
            None => ""@,
        },
        outcome: Outcome::Skipped,
        attempts: 0,
        error_code: None,
        message: Some(reason),
    }
}

/// The skipped records a run of queued tasks leaves when drained.
pub open spec fn skipped_views(tasks: Seq<QueueTask<TraineeRef>>, reason: Seq<char>) -> Seq<
    ResultView,
> {
    tasks.map_values(|task: QueueTask<TraineeRef>| skipped_view(task.payload@, reason))
}

/// Record everything still queued as skipped, in queue order.
fn drain_skipped(
    queue: &mut TaskQueue<TraineeRef>,
    results: &mut Vec<TrainingResult>,
    reason: &str,
)
    ensures
        final(queue)@ == Seq::<QueueTask<TraineeRef>>::empty(),
        result_views(final(results)@) == result_views(old(results)@) + skipped_views(
            old(queue)@,
            reason@,
        ),
        final(results)@.len() == old(results)@.len() + old(queue)@.len(),
{
    let ghost start = result_views(results@);
    let ghost tasks = queue@;
    let ghost mut taken: int = 0;
    while !queue.is_empty()
        invariant
            0 <= taken <= tasks.len(),
            queue@ == tasks.subrange(taken, tasks.len() as int),
            result_views(results@) == start + skipped_views(tasks.take(taken), reason@),
        decreases queue@.len(),
    {
        let ghost before_take = queue@;
        let task = queue.dequeue();
        proof {
            assert(before_take.len() > 0);
            assert(taken < tasks.len());
        }
        match task {
            Some(task) => {
                let trainee = task.payload;
                let id = match &trainee.id {
                    Some(id) => id.clone(),
                    None => owned(""),
                };
                let name = match &trainee.name {
                    Some(name) => name.clone(),
                    None => owned(""),
                };
                let record = TrainingResult {
                    trainee_id: id,
                    trainee_name: name,
                    outcome: Outcome::Skipped,
                    attempts: 0,
                    error_code: None,
                    message: Some(owned(reason)),
                };
                let ghost before = results@;
                results.push(record);
                proof {
                    assert(tasks.take(taken + 1) =~= tasks.take(taken).push(
                        tasks[taken],
                    ));
                    assert(skipped_views(tasks.take(taken + 1), reason@) =~= skipped_views(
                        tasks.take(taken),
                        reason@,
                    ).push(skipped_view(tasks[taken].payload@, reason@)));
                    assert(result_views(results@) =~= result_views(before).push(record@));
                }
                proof {
                    taken = taken + 1;
                    assert(queue@ =~= tasks.subrange(taken, tasks.len() as int));
                }
            },
            None => {},
        }
    }
    proof {
        assert(tasks.take(taken) =~= tasks);
        assert(result_views(results@).len() == results@.len());
    }
}


/// What the engine needs done next.
pub enum Step {
    /// Send this request to the worker and hand back its reply.
    Send(Request),
    /// Hand this checkpoint to the sink and hand back how the write went.
    Write(BatchCheckpoint),
    /// Wait this many milliseconds before the next attempt, then hand back
    /// [`Event::Waited`].
    Wait(u64),
    /// The batch is over: every result it accounts for, carried history first.
    Finished(Vec<TrainingResult>),
    /// The session could not be established; nothing was submitted or written.
    Failed(String),
}

/// What came of the last [`Step`].
pub enum Event {
    /// The worker's reply to a `Send`, or why there was none.
    Replied(Result<Response, String>),
    /// How a `Write` went.
    Written(Result<(), String>),
    /// A `Wait` is over.
    Waited,
}

/// Where a batch run stands: what the engine is waiting to hear about.
#[derive(Debug, Clone, Copy, PartialEq, Eq, Structural)]
pub enum Stage {
    /// No batch in progress.
    Idle,
    /// The session gate was sent.
    Session,
    /// The in-flight record for the trainee in hand was handed to the sink.
    Marker,
    /// A submission for the trainee in hand was sent.
    Reply,
    /// The checkpoint recording the latest result was handed to the sink.
    Settled,
    /// Waiting out a retry delay for the trainee in hand.
    Backoff,
    /// The terminal checkpoint was handed to the sink.
    Final,
}

/// The checkpoint a write of the engine's position holds.
pub open spec fn snapshot_view(
    status: CheckpointStatus,
    started_at: Seq<char>,
    now: Seq<char>,
    total: nat,
    results: Seq<ResultView>,
    pending: Seq<Seq<char>>,
    in_flight: Option<Seq<char>>,
) -> CheckpointView {
    CheckpointView { status, started_at, updated_at: now, total, results, pending, in_flight }
}

/// The id a trainee is reported under when the worker names no one.
pub open spec fn fallback_id(trainee: TraineeRefView) -> Seq<char> {
    match trainee.id {
        Some(id) => id,
        None => ""@,
    }
}

/// The name a trainee is reported under when the worker names no one.
pub open spec fn fallback_name(trainee: TraineeRefView) -> Seq<char> {
    match trainee.name {
        Some(name) => name,
        None => ""@,
    }
}

/// The record a submission that got no reply at all leaves: its state is
/// unknown, so it is indeterminate.
pub open spec fn transport_record(trainee: TraineeRefView, attempts: u32, error: Seq<char>) -> ResultView {
    ResultView {
        trainee_id: fallback_id(trainee),
        trainee_name: fallback_name(trainee),
        outcome: Outcome::Indeterminate,
        attempts,
        error_code: Some("NETWORK"@),
        message: Some("transport error: "@ + error),
    }
}

/// The record a reply settles into, once no further attempt will be made. A
/// retryable reply that exhausted the attempts is a failure.
pub open spec fn reply_record(resp: Response, trainee: TraineeRefView, attempts: u32) -> ResultView {
    let id = match resp.trainee {
        Some(t) => t.id@,
        None => fallback_id(trainee),
    };
    let name = match resp.trainee {
        Some(t) => t.name@,
        None => fallback_name(trainee),
    };
    match crate::decision::settlement_for(resp) {
        crate::decision::SettleView::Success => ResultView {
            trainee_id: id,
            trainee_name: name,
            outcome: Outcome::Success,
            attempts,
            error_code: None,
            message: opt_text(resp.reference),
        },
        crate::decision::SettleView::Failed { code, message } => ResultView {
            trainee_id: id,
            trainee_name: name,
            outcome: Outcome::Failed,
            attempts,
            error_code: Some(code),
            message: Some(message),
        },
        crate::decision::SettleView::Indeterminate { message } => ResultView {
            trainee_id: id,
            trainee_name: name,
            outcome: Outcome::Indeterminate,
            attempts,
            error_code: opt_text(resp.error_code),
            message: Some(message),
        },
        crate::decision::SettleView::Retry { code, message } => ResultView {
            trainee_id: id,
            trainee_name: name,
            outcome: Outcome::Failed,
            attempts,
            error_code: Some(code),
            message: Some("gave up after "@ + decimal(attempts as nat) + " attempts: "@ + message),
        },
    }
}

pub struct BatchEngine {
    policy: RetryPolicy,
    machine: StateMachine,
    /// Results a predecessor could not account for, carried into the next
    /// batch. History, not work: never queued, never re-decided, never allowed
    /// to abort the run.
    carried: Vec<TrainingResult>,
    stage: Stage,
    session: Option<SessionInput>,
    started_at: String,
    total: usize,
    results: Vec<TrainingResult>,
    queue: TaskQueue<TraineeRef>,
    current: Option<QueueTask<TraineeRef>>,
    job_id: String,
    attempts: u32,
    /// The keys of the roster this run was given, repeats collapsed.
    roster: Ghost<Seq<Seq<char>>>,
    /// How many roster entries have left the queue.
    taken: Ghost<int>,
    /// The keys of the trainees a submission was sent for, in order.
    sent: Ghost<Seq<Seq<char>>>,
    /// The keys named in flight by the writes asked for so far, in order.
    marked: Ghost<Seq<Seq<char>>>,
    /// The checkpoint handed to the sink and not yet acknowledged.
    written: Ghost<Option<CheckpointView>>,
    /// The last checkpoint of this run the sink accepted.
    durable: Ghost<Option<CheckpointView>>,
}

/// Whether the trainee in hand is held outside both the queue and the results.
pub open spec fn holds_trainee(stage: Stage) -> bool {
    stage == Stage::Marker || stage == Stage::Reply || stage == Stage::Backoff
}

impl BatchEngine {
    pub closed spec fn stage(self) -> Stage {
        self.stage
    }

    pub closed spec fn policy(self) -> RetryPolicy {
        self.policy
    }

    pub closed spec fn carried(self) -> Seq<ResultView> {
        result_views(self.carried@)
    }

    pub closed spec fn total(self) -> nat {
        self.total as nat
    }

    pub closed spec fn results(self) -> Seq<ResultView> {
        result_views(self.results@)
    }

    pub closed spec fn queued(self) -> Seq<QueueTask<TraineeRef>> {
        self.queue@
    }

    pub closed spec fn in_hand(self) -> Option<QueueTask<TraineeRef>> {
        self.current
    }

    pub closed spec fn attempts(self) -> u32 {
        self.attempts
    }

    pub closed spec fn started_at(self) -> Seq<char> {
        self.started_at@
    }

    pub closed spec fn roster(self) -> Seq<Seq<char>> {
        self.roster@
    }

    pub closed spec fn sent_keys(self) -> Seq<Seq<char>> {
        self.sent@
    }

    pub closed spec fn durable(self) -> Option<CheckpointView> {
        self.durable@
    }

    /// How many roster entries have left the queue.
    pub closed spec fn taken_count(self) -> int {
        self.taken@
    }

    /// The keys of the trainees named in flight by the checkpoint writes this
    /// run has asked for, in the order it asked.
    pub closed spec fn marked(self) -> Seq<Seq<char>> {
        self.marked@
    }

    /// The training details every submission of this run carries.
    pub closed spec fn session(self) -> Option<SessionInput> {
        self.session
    }

    /// The `job_id` the trainee in hand is submitted under.
    pub closed spec fn job_id(self) -> Seq<char> {
        self.job_id@
    }

    /// How many trainees the engine holds outside the queue and the results.
    pub open spec fn held(self) -> nat {
        if holds_trainee(self.stage()) {
            1
        } else {
            0
        }
    }

    /// The engine's bookkeeping is consistent.
    pub closed spec fn wf(self) -> bool {
        &&& self.roster@.no_duplicates()
        &&& 0 <= self.taken@ <= self.roster@.len()
        &&& self.sent@.len() <= self.taken@
        &&& self.sent@ == self.roster@.take(self.sent@.len() as int)
        &&& self.marked@ == self.roster@.take(self.marked@.len() as int)
        &&& self.sent@.len() <= self.marked@.len() <= self.roster@.len()
        &&& (self.stage == Stage::Session || self.stage == Stage::Marker || self.stage
            == Stage::Reply || self.stage == Stage::Backoff || self.stage == Stage::Settled)
            ==> self.marked@.len() == self.taken@
        &&& self.stage != Stage::Idle ==> {
            &&& self.session is Some
            &&& self.results@.len() + self.queue@.len() + self.held() == self.total
            &&& (self.stage == Stage::Session || self.stage == Stage::Marker || self.stage
                == Stage::Reply || self.stage == Stage::Backoff || self.stage == Stage::Settled)
                ==> task_ids(self.queue@) == self.roster@.subrange(
                self.taken@,
                self.roster@.len() as int,
            )
        }
        &&& self.stage == Stage::Idle ==> self.current is None
        &&& (self.current is Some <==> holds_trainee(self.stage))
        &&& holds_trainee(self.stage) ==> {
            &&& self.taken@ >= 1
            &&& self.current->0.id@ == self.roster@[self.taken@ - 1]
            &&& !task_ids(self.queue@).contains(self.current->0.id@)
        }
        &&& self.stage == Stage::Marker ==> {
            &&& self.sent@.len() == self.taken@ - 1
            &&& self.written@ == Some(
                snapshot_view(
                    CheckpointStatus::Running,
                    self.started_at@,
                    self.written@->0.updated_at,
                    self.total as nat,
                    result_views(self.results@),
                    task_ids(self.queue@),
                    Some(self.current->0.id@),
                ),
            )
        }
        &&& (self.stage == Stage::Session || self.stage == Stage::Settled) ==> self.sent@.len()
            == self.taken@
        &&& (self.stage == Stage::Reply || self.stage == Stage::Backoff) ==> {
            &&& self.sent@.len() == self.taken@
            &&& 1 <= self.attempts
            &&& self.durable@ == Some(
                snapshot_view(
                    CheckpointStatus::Running,
                    self.started_at@,
                    self.durable@->0.updated_at,
                    self.total as nat,
                    result_views(self.results@),
                    task_ids(self.queue@),
                    Some(self.current->0.id@),
                ),
            )
        }
        &&& self.stage == Stage::Backoff ==> self.attempts < self.policy.max_attempts
        &&& self.stage == Stage::Reply ==> (self.attempts == 1 || self.attempts
            <= self.policy.max_attempts)
        &&& self.stage == Stage::Settled ==> self.results@.len() > 0
        &&& self.stage == Stage::Final ==> self.queue@.len() == 0
    }
}


/// Whether `event` is the kind of answer the engine is waiting for at `stage`.
pub open spec fn answers(stage: Stage, event: Event) -> bool {
    match stage {
        Stage::Session | Stage::Reply => event is Replied,
        Stage::Marker | Stage::Settled | Stage::Final => event is Written,
        Stage::Backoff => event is Waited,
        Stage::Idle => false,
    }
}

/// `step` hands the sink exactly `checkpoint`.
pub open spec fn writes(step: Step, checkpoint: CheckpointView) -> bool {
    step matches Step::Write(cp) && cp@ == checkpoint
}

/// The engine took the next queued trainee in hand and asked for its
/// in-flight record to be written, or, with nothing left, closed the batch.
pub open spec fn took_next(pre: BatchEngine, post: BatchEngine, step: Step, now: Seq<char>) -> bool {
    if pre.queued().len() == 0 {
        closed_batch(pre, post, step, now, pre.results())
    } else {
        &&& post.stage() == Stage::Marker
        &&& post.marked() == pre.marked().push(pre.queued()[0].id@)
        &&& post.in_hand() == Some(pre.queued()[0])
        &&& post.queued() == pre.queued().drop_first()
        &&& post.results() == pre.results()
        &&& writes(
            step,
            snapshot_view(
                CheckpointStatus::Running,
                pre.started_at(),
                now,
                pre.total(),
                pre.results(),
                task_ids(pre.queued().drop_first()),
                Some(pre.queued()[0].id@),
            ),
        )
    }
}

/// The engine closed the batch with `results` and asked for the terminal
/// checkpoint to be written.
pub open spec fn closed_batch(
    pre: BatchEngine,
    post: BatchEngine,
    step: Step,
    now: Seq<char>,
    results: Seq<ResultView>,
) -> bool {
    &&& post.stage() == Stage::Final
    &&& post.marked() == pre.marked()
    &&& post.results() == results
    &&& post.queued().len() == 0
    &&& writes(
        step,
        snapshot_view(
            CheckpointStatus::Finished,
            pre.started_at(),
            now,
            pre.total(),
            results,
            Seq::empty(),
            None,
        ),
    )
}

/// The engine recorded `record` and asked for the checkpoint holding it.
pub open spec fn recorded(
    pre: BatchEngine,
    post: BatchEngine,
    step: Step,
    now: Seq<char>,
    record: ResultView,
) -> bool {
    &&& post.stage() == Stage::Settled
    &&& post.results() == pre.results().push(record)
    &&& post.queued() == pre.queued()
    &&& writes(
        step,
        snapshot_view(
            CheckpointStatus::Running,
            pre.started_at(),
            now,
            pre.total(),
            pre.results().push(record),
            task_ids(pre.queued()),
            None,
        ),
    )
}

/// `step` sends a submission of the trainee in hand, under `job_id`.
pub open spec fn submits(post: BatchEngine, step: Step) -> bool {
    &&& post.stage() == Stage::Reply
    &&& step matches Step::Send(req) && {
        &&& req.op@ == crate::protocol::op::SUBMIT_TRAINING@
        &&& req.trainee == Some(post.in_hand()->0.payload)
        &&& req.session == post.session()
        &&& req.job_id@ == post.job_id()
        &&& req.v == crate::protocol::V
    }
}

impl BatchEngine {
    /// An engine with the default retry policy.
    pub fn new() -> (engine: Self)
        ensures
            engine.wf(),
            engine.stage() == Stage::Idle,
            engine.policy().max_attempts == 3,
            engine.policy().initial_delay_ms == 500,
            engine.policy().max_delay_ms == 5000,
            engine.policy().backoff_factor == 2,
            engine.carried() == Seq::<ResultView>::empty(),
    {
        Self::with_policy(RetryPolicy::default())
    }

    /// An engine that runs its batches under `policy`.
    pub fn with_policy(policy: RetryPolicy) -> (engine: Self)
        ensures
            engine.wf(),
            engine.stage() == Stage::Idle,
            engine.policy() == policy,
            engine.carried() == Seq::<ResultView>::empty(),
    {
        let engine = BatchEngine {
            policy,
            machine: StateMachine::new(),
            carried: Vec::new(),
            stage: Stage::Idle,
            session: None,
            started_at: String::new(),
            total: 0,
            results: Vec::new(),
            queue: TaskQueue::new(),
            current: None,
            job_id: String::new(),
            attempts: 0,
            roster: Ghost(Seq::empty()),
            taken: Ghost(0),
            sent: Ghost(Seq::empty()),
            marked: Ghost(Seq::empty()),
            written: Ghost(None),
            durable: Ghost(None),
        };
        proof {
            assert(engine.sent@ =~= engine.roster@.take(0));
        }
        engine
    }

    /// Seed the next run with records a previous batch could not settle.
    pub fn with_carried(self, carried: Vec<TrainingResult>) -> (engine: Self)
        requires
            self.wf(),
        ensures
            engine.wf(),
            engine.carried() == result_views(carried@),
            engine.stage() == self.stage(),
            engine.policy() == self.policy(),
    {
        let mut engine = self;
        engine.carried = carried;
        engine
    }

    /// Copies of the results recorded so far.
    fn results_copy(&self) -> (copy: Vec<TrainingResult>)
        ensures
            result_views(copy@) == result_views(self.results@),
    {
        let mut copy: Vec<TrainingResult> = Vec::new();
        let mut i: usize = 0;
        while i < self.results.len()
            invariant
                i <= self.results@.len(),
                copy@ == self.results@.take(i as int),
            decreases self.results@.len() - i,
        {
            copy.push(self.results[i].copied());
            assert(copy@ =~= self.results@.take(i as int + 1));
            i += 1;
        }
        assert(self.results@.take(self.results@.len() as int) =~= self.results@);
        copy
    }

    /// The checkpoint of the engine's current position.
    fn snapshot(&self, status: CheckpointStatus, now: &String, in_flight: Option<&String>) -> (cp:
        BatchCheckpoint)
        ensures
            cp@ == snapshot_view(
                status,
                self.started_at@,
                now@,
                self.total as nat,
                result_views(self.results@),
                task_ids(self.queue@),
                match in_flight {
                    Some(id) => Some(id@),
                    None => None,
                },
            ),
    {
        let pending = self.queue.ids();
        let marker = match in_flight {
            Some(id) => Some(id.clone()),
            None => None,
        };
        BatchCheckpoint {
            status,
            started_at: self.started_at.clone(),
            updated_at: now.clone(),
            total: self.total,
            results: self.results_copy(),
            pending,
            in_flight: marker,
        }
    }
}


/// The keys of a roster with repeats collapsed, in order.
pub open spec fn deduped_keys(trainees: Seq<TraineeRef>) -> Seq<Seq<char>> {
    deduped(trainees).map_values(|e: (Seq<char>, TraineeRef)| e.0)
}

/// What `begin` makes of an idle engine when it can start: the session gate
/// is asked for, every queued trainee (repeats collapsed) waits in order, and
/// the carried records open the results.
pub open spec fn began(
    pre: BatchEngine,
    post: BatchEngine,
    session: SessionInput,
    trainees: Seq<TraineeRef>,
    started_at: Seq<char>,
    step: Step,
) -> bool {
    &&& post.wf()
    &&& post.stage() == Stage::Session
    &&& post.policy() == pre.policy()
    &&& post.carried() == Seq::<ResultView>::empty()
    &&& post.results() == pre.carried()
    &&& post.total() == deduped(trainees).len() + pre.carried().len()
    &&& post.started_at() == started_at
    &&& post.session() == Some(session)
    &&& post.roster() == deduped_keys(trainees)
    &&& post.queued().len() == deduped(trainees).len()
    &&& forall|j: int|
        0 <= j < deduped(trainees).len() ==> (#[trigger] post.queued()[j]).id@ == deduped(
            trainees,
        )[j].0 && post.queued()[j].payload == deduped(trainees)[j].1
    &&& post.sent_keys() == Seq::<Seq<char>>::empty()
    &&& post.marked() == Seq::<Seq<char>>::empty()
    &&& post.durable() is None
    &&& ids_are_keys(post)
    &&& (forall|j: int|
        0 <= j < pre.carried().len() ==> !post.roster().contains(
            #[trigger] pre.carried()[j].trainee_id,
        )) ==> rows_clear(post)
    &&& step matches Step::Send(req) && req.op@ == crate::protocol::op::ENSURE_SESSION@
        && req.trainee is None && req.session is None
}

impl BatchEngine {
    /// Start the batch, with the session gate sent under `id`.
    fn start(&mut self, session: SessionInput, trainees: Vec<TraineeRef>, started_at: String, id: String) -> (step: Step)
        requires
            old(self).wf(),
            old(self).stage() == Stage::Idle,
            trainees@.len() + old(self).carried().len() <= usize::MAX,
        ensures
            began(*old(self), *final(self), session, trainees@, started_at@, step),
    {
        let ghost sess = session;
        let ghost at = started_at@;
        let mut carried: Vec<TrainingResult> = Vec::new();
        std::mem::swap(&mut carried, &mut self.carried);
        let ghost trainees_view = trainees@;
        let queued = dedupe(trainees);
        proof {
            lemma_kept_positions(roster_keys(trainees_view), trainees_view.len());
        }
        let total = queued.len() + carried.len();
        self.machine.reset();
        let _ = self.machine.transition_to(AutomationState::Initializing);
        let ghost keys = deduped_keys(trainees_view);
        let mut queue: TaskQueue<TraineeRef> = TaskQueue::new();
        let mut i: usize = 0;
        while i < queued.len()
            invariant
                i <= queued@.len(),
                queue@.len() == i,
                keys.len() == queued@.len(),
                forall|j: int| 0 <= j < queued@.len() ==> #[trigger] keys[j] == queued@[j].0@,
                forall|j: int|
                    0 <= j < i ==> (#[trigger] queue@[j]).id@ == queued@[j].0@ && queue@[j].payload
                        == queued@[j].1,
            decreases queued@.len() - i,
        {
            let payload = queued[i].1.copied();
            let ghost before = queue@;
            queue.enqueue(queued[i].0.as_str(), payload);
            assert(queue@ =~= before.push(queue@.last()));
            i += 1;
        }
        proof {
            assert(task_ids(queue@) =~= keys);
            lemma_kept_positions(roster_keys(trainees_view), trainees_view.len());
            assert forall|a: int, b: int| 0 <= a < keys.len() && 0 <= b < keys.len() && a != b implies keys[a] != keys[b] by {
                if a < b {
                    assert(keys[a] == roster_keys(trainees_view)[kept_positions(roster_keys(trainees_view), trainees_view.len())[a]]);
                } else {
                    assert(keys[b] == roster_keys(trainees_view)[kept_positions(roster_keys(trainees_view), trainees_view.len())[b]]);
                }
            }
            assert(keys.no_duplicates());
        }
        self.results = carried;
        self.queue = queue;
        self.total = total;
        self.session = Some(session);
        self.started_at = started_at;
        self.current = None;
        self.attempts = 0;
        self.roster = Ghost(keys);
        self.taken = Ghost(0);
        self.sent = Ghost(Seq::empty());
        self.marked = Ghost(Seq::empty());
        self.written = Ghost(None);
        self.durable = Ghost(None);
        self.stage = Stage::Session;
        proof {
            assert(keys.subrange(0, keys.len() as int) =~= keys);
            assert(keys.take(0) =~= Seq::<Seq<char>>::empty());
        }
        let step = Step::Send(Request::ensure_session(id));
        proof {
            let post = *self;
            let pre = *old(self);
            assert(post.wf());
            assert(post.stage() == Stage::Session);
            assert(post.policy() == pre.policy());
            assert(post.carried() == Seq::<ResultView>::empty());
            assert(post.results() == pre.carried());
            assert(post.total() == deduped(trainees_view).len() + pre.carried().len());
            assert(post.started_at() == at);
            assert(post.session() == Some(sess));
            assert(post.roster() == deduped_keys(trainees_view));
            assert(post.queued().len() == deduped(trainees_view).len());
            assert(post.sent_keys() == Seq::<Seq<char>>::empty());
            assert(post.marked() == Seq::<Seq<char>>::empty());
            assert(post.durable() is None);
            assert forall|j: int| 0 <= j < post.queued().len() implies ((#[trigger] post.queued()[j]).payload@.id matches Some(id)
                ==> post.queued()[j].id@ == id) by {
                let d = deduped(trainees_view);
                let kp = kept_positions(roster_keys(trainees_view), trainees_view.len());
                assert(d[j] == (roster_keys(trainees_view)[kp[j]], trainees_view[kp[j]]));
            }
            assert(unsettled(post) =~= post.roster());
        }
        step
    }

    /// Start a batch: one shared session, one training template, many
    /// trainees. Whatever a predecessor could not settle is seeded into the
    /// results first, and repeats in the roster are collapsed before the count
    /// is taken, so `total` agrees with the groups a reader will sum. The first
    /// step is the session gate.
    pub fn begin(&mut self, session: SessionInput, trainees: Vec<TraineeRef>, started_at: String) -> (step: Step)
        requires
            old(self).wf(),
            old(self).stage() == Stage::Idle,
            trainees@.len() + old(self).carried().len() <= usize::MAX,
        ensures
            final(self).wf(),
            final(self).policy() == old(self).policy(),
            step is Send || step is Failed,
            step is Send ==> began(*old(self), *final(self), session, trainees@, started_at@, step),
            step is Failed ==> {
                &&& final(self).stage() == Stage::Idle
                &&& final(self).carried() == old(self).carried()
                &&& step matches Step::Failed(m) && m@ == NO_JOB_ID@
            },
    {
        match new_id() {
            Some(id) => self.start(session, trainees, started_at, id),
            None => Step::Failed(owned(NO_JOB_ID)),
        }
    }
}


impl BatchEngine {
    /// The stage-independent part of the bookkeeping, for a batch in progress.
    closed spec fn running_ok(self) -> bool {
        &&& self.session is Some
        &&& self.roster@.no_duplicates()
        &&& 0 <= self.taken@ <= self.roster@.len()
        &&& self.sent@.len() <= self.taken@
        &&& self.sent@ == self.roster@.take(self.sent@.len() as int)
        &&& self.marked@ == self.roster@.take(self.marked@.len() as int)
        &&& self.sent@.len() <= self.marked@.len() <= self.roster@.len()
    }

    /// Close the batch: the terminal checkpoint holds every result and an
    /// empty queue.
    fn finish(&mut self, now: String) -> (step: Step)
        requires
            old(self).running_ok(),
            old(self).current is None,
            old(self).queue@.len() == 0,
            old(self).results@.len() == old(self).total,
        ensures
            final(self).wf(),
            closed_batch(*old(self), *final(self), step, now@, old(self).results()),
            final(self).policy == old(self).policy,
            final(self).carried == old(self).carried,
            final(self).roster == old(self).roster,
            final(self).sent == old(self).sent,
            final(self).marked == old(self).marked,
            final(self).durable == old(self).durable,
            final(self).started_at == old(self).started_at,
            final(self).total == old(self).total,
            final(self).session == old(self).session,
            final(self).attempts == old(self).attempts,
    {
        if self.machine.state() != AutomationState::Stopped {
            let _ = self.machine.transition_to(AutomationState::Complete);
        }
        let cp = self.snapshot(CheckpointStatus::Finished, &now, None);
        proof {
            assert(task_ids(self.queue@) =~= Seq::<Seq<char>>::empty());
        }
        self.written = Ghost(Some(cp@));
        self.stage = Stage::Final;
        Step::Write(cp)
    }

    /// Take the next queued trainee in hand and ask for its in-flight record;
    /// with nothing left, close the batch.
    fn take_next(&mut self, now: String) -> (step: Step)
        requires
            old(self).wf(),
            old(self).stage == Stage::Session || old(self).stage == Stage::Settled,
        ensures
            final(self).wf(),
            took_next(*old(self), *final(self), step, now@),
            final(self).policy == old(self).policy,
            final(self).carried == old(self).carried,
            final(self).roster == old(self).roster,
            final(self).sent == old(self).sent,
            old(self).queue@.len() == 0 ==> final(self).marked == old(self).marked,
            old(self).queue@.len() > 0 ==> final(self).marked@ == old(self).marked@.push(
                old(self).queue@[0].id@,
            ),
            final(self).durable == old(self).durable,
            final(self).started_at == old(self).started_at,
            final(self).total == old(self).total,
            final(self).session == old(self).session,
            final(self).attempts == old(self).attempts,
    {
        let next = self.queue.dequeue();
        match next {
            None => self.finish(now),
            Some(task) => {
                proof {
                    let keys = task_ids(old(self).queue@);
                    assert(old(self).queue@.len() > 0);
                    assert(keys.len() == self.roster@.len() - self.taken@);
                    assert(self.taken@ < self.roster@.len());
                    assert(keys[0] == task.id@);
                    assert(self.roster@.subrange(self.taken@, self.roster@.len() as int)[0]
                        == self.roster@[self.taken@]);
                    let old_q = old(self).queue@;
                    let rest = self.roster@.subrange(self.taken@ + 1, self.roster@.len() as int);
                    assert(self.queue@ == old_q.drop_first());
                    assert(task_ids(self.queue@).len() == rest.len());
                    assert forall|k: int| 0 <= k < rest.len() implies task_ids(self.queue@)[k]
                        == rest[k] by {
                        assert(self.queue@[k] == old_q[k + 1]);
                        assert(keys[k + 1] == self.roster@.subrange(
                            self.taken@,
                            self.roster@.len() as int,
                        )[k + 1]);
                    }
                    assert(task_ids(self.queue@) =~= rest);
                }
                let cp = self.snapshot(CheckpointStatus::Running, &now, Some(&task.id));
                proof {
                    let k = self.roster@[self.taken@];
                    let rest = task_ids(self.queue@);
                    if rest.contains(k) {
                        let j = choose|j: int| 0 <= j < rest.len() && rest[j] == k;
                        assert(self.roster@[self.taken@ + 1 + j] == k);
                    }
                    assert(self.roster@.take(self.taken@ + 1) =~= self.marked@.push(k));
                }
                self.marked = Ghost(self.marked@.push(task.id@));
                self.current = Some(task);
                self.taken = Ghost(self.taken@ + 1);
                self.written = Ghost(Some(cp@));
                self.stage = Stage::Marker;
                Step::Write(cp)
            },
        }
    }

    /// Send the next attempt of the trainee in hand.
    fn send_attempt(&mut self) -> (step: Step)
        requires
            old(self).running_ok(),
            old(self).current is Some,
            old(self).current->0.id@ == old(self).roster@[old(self).taken@ - 1],
            old(self).taken@ >= 1,
            old(self).sent@.len() == old(self).taken@,
            old(self).marked@.len() == old(self).taken@,
            !task_ids(old(self).queue@).contains(old(self).current->0.id@),
            old(self).attempts < old(self).policy.max_attempts || old(self).attempts == 0,
            old(self).results@.len() + old(self).queue@.len() + 1 == old(self).total,
            task_ids(old(self).queue@) == old(self).roster@.subrange(
                old(self).taken@,
                old(self).roster@.len() as int,
            ),
            old(self).durable@ == Some(
                snapshot_view(
                    CheckpointStatus::Running,
                    old(self).started_at@,
                    old(self).durable@->0.updated_at,
                    old(self).total as nat,
                    result_views(old(self).results@),
                    task_ids(old(self).queue@),
                    Some(old(self).current->0.id@),
                ),
            ),
        ensures
            final(self).wf(),
            submits(*final(self), step),
            final(self).attempts == old(self).attempts + 1,
            final(self).current == old(self).current,
            final(self).results == old(self).results,
            final(self).queue == old(self).queue,
            final(self).policy == old(self).policy,
            final(self).carried == old(self).carried,
            final(self).roster == old(self).roster,
            final(self).sent == old(self).sent,
            final(self).marked == old(self).marked,
            final(self).durable == old(self).durable,
            final(self).started_at == old(self).started_at,
            final(self).total == old(self).total,
            final(self).session == old(self).session,
            final(self).job_id == old(self).job_id,
    {
        self.attempts = self.attempts + 1;
        let _ = self.machine.transition_to(AutomationState::Submitting);
        let trainee = match &self.current {
            Some(task) => task.payload.copied(),
            None => TraineeRef { id: None, name: None },
        };
        let session = match &self.session {
            Some(session) => session.copied(),
            None => SessionInput {
                training_date: String::new(),
                instructor: String::new(),
                training_type: String::new(),
            },
        };
        let req = Request::submit_training(self.job_id.clone(), trainee, session);
        self.stage = Stage::Reply;
        Step::Send(req)
    }

    /// Record the result of the trainee in hand and ask for the checkpoint
    /// holding it; the same write clears the in-flight marker.
    fn record(&mut self, record: TrainingResult, now: String) -> (step: Step)
        requires
            old(self).wf(),
            old(self).stage == Stage::Reply,
        ensures
            final(self).wf(),
            recorded(*old(self), *final(self), step, now@, record@),
            final(self).policy == old(self).policy,
            final(self).carried == old(self).carried,
            final(self).roster == old(self).roster,
            final(self).sent == old(self).sent,
            final(self).marked == old(self).marked,
            final(self).durable == old(self).durable,
            final(self).started_at == old(self).started_at,
            final(self).total == old(self).total,
            final(self).session == old(self).session,
    {
        self.current = None;
        let ghost before = self.results@;
        self.results.push(record);
        proof {
            assert(result_views(self.results@) =~= result_views(before).push(record@));
        }
        let cp = self.snapshot(CheckpointStatus::Running, &now, None);
        self.written = Ghost(Some(cp@));
        self.stage = Stage::Settled;
        Step::Write(cp)
    }
}


/// The record of a submission that got no reply.
fn transport_failure(trainee: &TraineeRef, attempts: u32, error: &String) -> (record:
    TrainingResult)
    ensures
        record@ == transport_record(trainee@, attempts, error@),
{
    let id = match &trainee.id {
        Some(id) => id.clone(),
        None => owned(""),
    };
    let name = match &trainee.name {
        Some(name) => name.clone(),
        None => owned(""),
    };
    let mut message = String::from_str("transport error: ");
    message.append(error.as_str());
    TrainingResult {
        trainee_id: id,
        trainee_name: name,
        outcome: Outcome::Indeterminate,
        attempts,
        error_code: Some(String::from_str("NETWORK")),
        message: Some(message),
    }
}

/// The record a settled reply leaves.
fn reply_result(resp: &Response, trainee: &TraineeRef, attempts: u32, settled: Settle) -> (record:
    TrainingResult)
    requires
        settled@ == crate::decision::settlement_for(*resp),
    ensures
        record@ == reply_record(*resp, trainee@, attempts),
{
    let (id, name) = match &resp.trainee {
        Some(t) => (t.id.clone(), t.name.clone()),
        None => (
            match &trainee.id {
                Some(id) => id.clone(),
                None => owned(""),
            },
            match &trainee.name {
                Some(name) => name.clone(),
                None => owned(""),
            },
        ),
    };
    match settled {
        Settle::Success => TrainingResult {
            trainee_id: id,
            trainee_name: name,
            outcome: Outcome::Success,
            attempts,
            error_code: None,
            message: copy_text(&resp.reference),
        },
        Settle::Failed { code, message } => TrainingResult {
            trainee_id: id,
            trainee_name: name,
            outcome: Outcome::Failed,
            attempts,
            error_code: Some(code),
            message: Some(message),
        },
        Settle::Indeterminate { message } => TrainingResult {
            trainee_id: id,
            trainee_name: name,
            outcome: Outcome::Indeterminate,
            attempts,
            error_code: copy_text(&resp.error_code),
            message: Some(message),
        },
        Settle::Retry { code, message } => {
            let mut text = String::from_str("gave up after ");
            push_decimal(&mut text, attempts as u64);
            text.append(" attempts: ");
            text.append(message.as_str());
            TrainingResult {
                trainee_id: id,
                trainee_name: name,
                outcome: Outcome::Failed,
                attempts,
                error_code: Some(code),
                message: Some(text),
            }
        },
    }
}

proof fn lemma_take_push(s: Seq<Seq<char>>, n: int)
    requires
        1 <= n <= s.len(),
    ensures
        s.take(n - 1).push(s[n - 1]) == s.take(n),
{
    assert(s.take(n - 1).push(s[n - 1]) =~= s.take(n));
}

impl BatchEngine {
    /// Whether the sink has accepted the last write the engine asked for.
    pub closed spec fn write_accepted(self) -> bool {
        self.durable@ == self.written@
    }

    /// Close the batch before the trainee in hand is sent: it goes back to
    /// the head of the queue, and the whole queue is recorded as skipped.
    fn stop_before_sending(&mut self, now: String) -> (step: Step)
        requires
            old(self).wf(),
            old(self).stage == Stage::Marker,
        ensures
            final(self).wf(),
            closed_batch(
                *old(self),
                *final(self),
                step,
                now@,
                old(self).results() + skipped_views(
                    seq![old(self).in_hand()->0] + old(self).queued(),
                    NOT_SUBMITTED@,
                ),
            ),
            final(self).policy == old(self).policy,
            final(self).carried == old(self).carried,
            final(self).roster == old(self).roster,
            final(self).sent == old(self).sent,
            final(self).marked == old(self).marked,
            final(self).durable == old(self).durable,
            final(self).started_at == old(self).started_at,
            final(self).total == old(self).total,
            final(self).session == old(self).session,
    {
        let mut held: Option<QueueTask<TraineeRef>> = None;
        std::mem::swap(&mut held, &mut self.current);
        match held {
            Some(task) => self.queue.put_back(task),
            None => {},
        }
        drain_skipped(&mut self.queue, &mut self.results, NOT_SUBMITTED);
        self.taken = Ghost(self.roster@.len() as int);
        let _ = self.machine.transition_to(AutomationState::Stopped);
        self.finish(now)
    }

    /// What follows an accepted in-flight write, given the job id drawn for
    /// the trainee in hand: with an id, its first submission goes out under
    /// it; without one (the system's random source failed) it cannot be sent,
    /// so the batch closes with it and the rest of the queue skipped.
    pub fn after_draw(&mut self, id: Option<String>, now: String) -> (step: Step)
        requires
            old(self).wf(),
            old(self).stage() == Stage::Marker,
            old(self).write_accepted(),
        ensures
            final(self).wf(),
            final(self).policy() == old(self).policy(),
            final(self).carried() == old(self).carried(),
            final(self).roster() == old(self).roster(),
            final(self).session() == old(self).session(),
            final(self).total() == old(self).total(),
            final(self).started_at() == old(self).started_at(),
            final(self).marked() == old(self).marked(),
            match id {
                Some(id) => {
                    &&& submits(*final(self), step)
                    &&& final(self).job_id() == id@
                    &&& final(self).in_hand() == old(self).in_hand()
                    &&& final(self).attempts() == 1
                    &&& final(self).results() == old(self).results()
                    &&& final(self).queued() == old(self).queued()
                    &&& final(self).sent_keys() == old(self).sent_keys().push(
                        old(self).in_hand()->0.id@,
                    )
                    &&& final(self).durable() == old(self).durable()
                },
                None => {
                    &&& closed_batch(
                        *old(self),
                        *final(self),
                        step,
                        now@,
                        old(self).results() + skipped_views(
                            seq![old(self).in_hand()->0] + old(self).queued(),
                            NOT_SUBMITTED@,
                        ),
                    )
                    &&& final(self).sent_keys() == old(self).sent_keys()
                },
            },
    {
        match id {
            Some(id) => {
                let _ = self.machine.transition_to(AutomationState::LoadingTrainee);
                self.job_id = id;
                self.attempts = 0;
                proof {
                    lemma_take_push(self.roster@, self.taken@);
                }
                self.sent = Ghost(self.sent@.push(self.current->0.id@));
                self.send_attempt()
            },
            None => self.stop_before_sending(now),
        }
    }
}

/// How a step moves the record of in-flight writes: a write naming `k` in
/// flight adds `k`, which no earlier write named; any other step adds nothing;
/// and no trainee is ever named twice.
pub open spec fn marks(pre: BatchEngine, post: BatchEngine, step: Step) -> bool {
    &&& step matches Step::Write(cp) ==> match cp@.in_flight {
        Some(k) => post.marked() == pre.marked().push(k) && !pre.marked().contains(k),
        None => post.marked() == pre.marked(),
    }
    &&& !(step is Write) ==> post.marked() == pre.marked()
    &&& post.marked().no_duplicates()
}

/// The trainees named in flight by the checkpoint writes among `steps`, in
/// order.
pub open spec fn in_flight_keys(steps: Seq<Step>) -> Seq<Seq<char>>
    decreases steps.len(),
{
    if steps.len() == 0 {
        Seq::empty()
    } else {
        let before = in_flight_keys(steps.drop_last());
        match steps.last() {
            Step::Write(cp) => match cp@.in_flight {
                Some(k) => before.push(k),
                None => before,
            },
            _ => before,
        }
    }
}

/// How `advance` ends a batch: a refused in-flight write closes it with the
/// trainee in hand and the rest of the queue skipped, sending nothing; the
/// terminal write's answer hands every result over and leaves the engine idle.
pub open spec fn closing(pre: BatchEngine, event: Event, post: BatchEngine, step: Step, now: Seq<char>) -> bool {
    &&& (pre.stage() == Stage::Marker && event matches Event::Written(Err(_))) ==> {
        &&& closed_batch(
            pre,
            post,
            step,
            now,
            pre.results() + skipped_views(seq![pre.in_hand()->0] + pre.queued(), NOT_SUBMITTED@),
        )
        &&& post.sent_keys() == pre.sent_keys()
        &&& post.total() == pre.total()
    }
    &&& pre.stage() == Stage::Final ==> {
        &&& post.stage() == Stage::Idle
        &&& post.sent_keys() == pre.sent_keys()
        &&& step matches Step::Finished(results) && result_views(results@) == pre.results()
            && results@.len() == pre.total()
    }
}

/// A refused in-flight write stops the batch before that trainee is sent: no
/// submission follows it, the report skips the trainee in hand and everything
/// still queued, in queue order, and still counts the whole `total`; the
/// trainees sent are the ones sent before, and the engine ends idle, taking no
/// further event.
pub proof fn a_refused_in_flight_write_sends_nothing_more(
    first: BatchEngine,
    refused: Event,
    closed: BatchEngine,
    close_step: Step,
    answer: Event,
    last: BatchEngine,
    last_step: Step,
    now: Seq<char>,
    later: Seq<char>,
)
    requires
        first.stage() == Stage::Marker,
        refused matches Event::Written(Err(_)),
        closing(first, refused, closed, close_step, now),
        answers(closed.stage(), answer),
        closing(closed, answer, last, last_step, later),
    ensures
        !(close_step is Send) && !(last_step is Send),
        last_step matches Step::Finished(results) && {
            &&& result_views(results@) == first.results() + skipped_views(
                seq![first.in_hand()->0] + first.queued(),
                NOT_SUBMITTED@,
            )
            &&& results@.len() == first.total()
        },
        last.sent_keys() == first.sent_keys(),
        last.stage() == Stage::Idle,
        forall|e: Event| !answers(last.stage(), e),
{
}

/// The keys of the trainees a run has yet to settle: those still queued, then
/// the one in hand.
pub open spec fn unsettled(e: BatchEngine) -> Seq<Seq<char>> {
    task_ids(e.queued()) + match e.in_hand() {
        Some(t) => seq![t.id@],
        None => Seq::<Seq<char>>::empty(),
    }
}

/// No result row names a trainee the run has yet to settle.
pub open spec fn rows_clear(e: BatchEngine) -> bool {
    forall|j: int|
        0 <= j < e.results().len() ==> !unsettled(e).contains(#[trigger] e.results()[j].trainee_id)
}

/// Every trainee the run has yet to settle that carries an id is queued under
/// that id.
pub open spec fn ids_are_keys(e: BatchEngine) -> bool {
    &&& forall|j: int|
        0 <= j < e.queued().len() ==> ((#[trigger] e.queued()[j]).payload@.id matches Some(id)
            ==> e.queued()[j].id@ == id)
    &&& e.in_hand() matches Some(t) ==> (t.payload@.id matches Some(id) ==> t.id@ == id)
}

/// The worker's reply to a submission names the trainee it was sent for, or
/// no trainee at all.
pub open spec fn names_the_trainee_sent(pre: BatchEngine, event: Event) -> bool {
    pre.stage() == Stage::Reply ==> (event matches Event::Replied(Ok(resp)) ==> (
    resp.trainee matches Some(t) ==> t.id@ == pre.in_hand()->0.id@))
}

proof fn lemma_took_next_stays_clear(pre: BatchEngine, post: BatchEngine, step: Step, now: Seq<char>)
    requires
        pre.wf(),
        post.wf(),
        pre.stage() == Stage::Session || pre.stage() == Stage::Settled,
        rows_clear(pre),
        took_next(pre, post, step, now),
    ensures
        rows_clear(post),
{
    if pre.queued().len() == 0 {
        assert(unsettled(post) =~= Seq::<Seq<char>>::empty());
    } else {
        let q = pre.queued();
        assert(unsettled(pre) =~= task_ids(q));
        assert forall|x: Seq<char>| unsettled(post).contains(x) implies unsettled(pre).contains(x) by {
            let j = choose|j: int| 0 <= j < unsettled(post).len() && unsettled(post)[j] == x;
            if j < q.len() - 1 {
                assert(unsettled(pre)[j + 1] == x);
            } else {
                assert(unsettled(pre)[0] == x);
            }
        }
    }
}

proof fn lemma_closed_stays_clear(post: BatchEngine)
    requires
        post.wf(),
        post.stage() == Stage::Final,
        post.queued().len() == 0,
    ensures
        rows_clear(post),
{
    assert(unsettled(post) =~= Seq::<Seq<char>>::empty());
}

proof fn lemma_recorded_row_stays_clear(pre: BatchEngine, post: BatchEngine, row: ResultView)
    requires
        pre.wf(),
        pre.stage() == Stage::Reply,
        post.wf(),
        post.stage() == Stage::Settled,
        rows_clear(pre),
        ids_are_keys(pre),
        !pre.roster().contains(""@),
        post.roster() == pre.roster(),
        post.results() == pre.results().push(row),
        post.queued() == pre.queued(),
        row.trainee_id == pre.in_hand()->0.id@ || row.trainee_id == fallback_id(
            pre.in_hand()->0.payload@,
        ),
    ensures
        rows_clear(post),
{
    let k = pre.in_hand()->0.id@;
    let q = task_ids(pre.queued());
    assert(unsettled(post) =~= q);
    assert(unsettled(pre) =~= q.push(k));
    assert(!q.contains(row.trainee_id)) by {
        if row.trainee_id != k {
            assert(pre.in_hand()->0.payload@.id is None);
            assert(row.trainee_id == ""@);
            if q.contains(""@) {
                let j = choose|j: int| 0 <= j < q.len() && q[j] == ""@;
                assert(pre.roster().subrange(pre.taken_count(), pre.roster().len() as int)[j] == ""@);
                assert(pre.roster()[pre.taken_count() + j] == ""@);
            }
        }
    }
    assert forall|j: int| 0 <= j < post.results().len() implies !unsettled(post).contains(
        #[trigger] post.results()[j].trainee_id,
    ) by {
        if j < pre.results().len() {
            assert(post.results()[j] == pre.results()[j]);
            if q.contains(pre.results()[j].trainee_id) {
                let t = choose|t: int| 0 <= t < q.len() && q[t] == pre.results()[j].trainee_id;
                assert(unsettled(pre)[t] == q[t]);
            }
        }
    }
}

/// What one call of `advance` guarantees that a whole run is built from: the
/// event answered what the engine waited for; the count is kept and every
/// write accounts for it; in-flight writes are recorded as `marks` says; a
/// batch ends as `closing` says; and a send is always a submission of the
/// trainee in hand, sent after every earlier in-flight write and once the sink
/// has accepted the write naming it in flight.
pub open spec fn advances(pre: BatchEngine, event: Event, post: BatchEngine, step: Step, now: Seq<char>) -> bool {
    &&& answers(pre.stage(), event)
    &&& post.total() == pre.total()
    &&& step matches Step::Write(cp) ==> cp@.partitioned() && cp@.total == post.total()
    &&& marks(pre, post, step)
    &&& closing(pre, event, post, step, now)
    &&& step is Send ==> post.stage() == Stage::Reply && submits(post, step)
    &&& pre.stage() == Stage::Settled ==> if aborts_after(pre.results().last()) {
        closed_batch(
            pre,
            post,
            step,
            now,
            pre.results() + skipped_views(pre.queued(), abort_text(pre.results().last())),
        )
    } else {
        took_next(pre, post, step, now)
    }
    &&& post.roster() == pre.roster()
    &&& ids_are_keys(pre) ==> ids_are_keys(post)
    &&& (rows_clear(pre) && ids_are_keys(pre) && !pre.roster().contains(""@)
        && names_the_trainee_sent(pre, event)) ==> rows_clear(post)
    &&& step matches Step::Write(cp) ==> (cp@.in_flight is Some ==> cp@.results == post.results()
        && post.in_hand() is Some && cp@.in_flight == Some(post.in_hand()->0.id@))
    &&& post.stage() == Stage::Reply ==> {
        &&& post.in_hand() is Some
        &&& post.marked() == post.sent_keys()
        &&& post.sent_keys().last() == post.in_hand()->0.id@
        &&& !task_ids(post.queued()).contains(post.in_hand()->0.id@)
        &&& post.durable() == Some(
            snapshot_view(
                CheckpointStatus::Running,
                post.started_at(),
                post.durable()->0.updated_at,
                post.total(),
                post.results(),
                task_ids(post.queued()),
                Some(post.in_hand()->0.id@),
            ),
        )
    }
}

/// `engines`, `events`, `steps` and `nows` are a run: each step is what
/// `advance` made of the engine before it, the event and the time.
pub open spec fn run_of(
    engines: Seq<BatchEngine>,
    events: Seq<Event>,
    steps: Seq<Step>,
    nows: Seq<Seq<char>>,
) -> bool {
    &&& engines.len() == steps.len() + 1
    &&& events.len() == steps.len()
    &&& nows.len() == steps.len()
    &&& forall|i: int| 0 <= i < steps.len() ==> #[trigger] step_of(engines, events, steps, nows, i)
}

/// Step `i` of a run is what `advance` made of the engine before it.
pub open spec fn step_of(
    engines: Seq<BatchEngine>,
    events: Seq<Event>,
    steps: Seq<Step>,
    nows: Seq<Seq<char>>,
    i: int,
) -> bool {
    advances(engines[i], events[i], engines[i + 1], steps[i], nows[i])
}

proof fn lemma_run_keeps_total(
    engines: Seq<BatchEngine>,
    events: Seq<Event>,
    steps: Seq<Step>,
    nows: Seq<Seq<char>>,
    i: int,
)
    requires
        run_of(engines, events, steps, nows),
        0 <= i <= steps.len(),
    ensures
        engines[i].total() == engines[0].total(),
    decreases i,
{
    if i > 0 {
        lemma_run_keeps_total(engines, events, steps, nows, i - 1);
        assert(step_of(engines, events, steps, nows, i - 1));
    }
}

/// Every checkpoint a run asks to have written accounts for every trainee of
/// the batch exactly once, against the one `total` the run began with: the
/// distinct trainees queued plus the records carried in (see `began`).
pub proof fn every_write_of_a_run_accounts_for_the_batch(
    engines: Seq<BatchEngine>,
    events: Seq<Event>,
    steps: Seq<Step>,
    nows: Seq<Seq<char>>,
)
    requires
        run_of(engines, events, steps, nows),
    ensures
        forall|i: int|
            0 <= i < steps.len() ==> (#[trigger] steps[i] matches Step::Write(cp) ==> cp@.partitioned()
                && cp@.total == engines[0].total()),
{
    assert forall|i: int| 0 <= i < steps.len() implies (#[trigger] steps[i] matches Step::Write(
        cp,
    ) ==> cp@.partitioned() && cp@.total == engines[0].total()) by {
        lemma_run_keeps_total(engines, events, steps, nows, i + 1);
        assert(step_of(engines, events, steps, nows, i));
    }
}

proof fn lemma_prefix_is_run(
    engines: Seq<BatchEngine>,
    events: Seq<Event>,
    steps: Seq<Step>,
    nows: Seq<Seq<char>>,
    n: int,
)
    requires
        run_of(engines, events, steps, nows),
        0 <= n <= steps.len(),
    ensures
        run_of(engines.take(n + 1), events.take(n), steps.take(n), nows.take(n)),
{
    assert forall|i: int| 0 <= i < n implies #[trigger] step_of(
        engines.take(n + 1),
        events.take(n),
        steps.take(n),
        nows.take(n),
        i,
    ) by {
        assert(step_of(engines, events, steps, nows, i));
    }
}

/// Over a whole run that starts from `begin`, exactly one in-flight write is
/// made per trainee however many attempts it takes, and every submission is
/// preceded by its trainee's: the trainees named in flight by the writes
/// before a send are exactly the trainees sent so far, all different, the last
/// of them being the one this send submits; and the last write the sink
/// accepted before it names that trainee in flight, with a running status,
/// the trainee out of the queue.
pub proof fn each_send_follows_its_one_in_flight_write(
    engines: Seq<BatchEngine>,
    events: Seq<Event>,
    steps: Seq<Step>,
    nows: Seq<Seq<char>>,
)
    requires
        run_of(engines, events, steps, nows),
        engines[0].marked() == Seq::<Seq<char>>::empty(),
    ensures
        in_flight_keys(steps).no_duplicates(),
        forall|i: int|
            0 <= i < steps.len() && #[trigger] steps[i] is Send ==> {
                let post = engines[i + 1];
                let k = post.in_hand()->0.id@;
                &&& submits(post, steps[i])
                &&& in_flight_keys(steps.take(i)) == post.sent_keys()
                &&& in_flight_keys(steps.take(i)).last() == k
                &&& !task_ids(post.queued()).contains(k)
                &&& post.durable() matches Some(cp) && cp.status == CheckpointStatus::Running
                    && cp.in_flight == Some(k) && cp.pending == task_ids(post.queued())
            },
{
    assert forall|i: int| 0 <= i < steps.len() implies #[trigger] marks(
        engines[i],
        engines[i + 1],
        steps[i],
    ) by {
        assert(step_of(engines, events, steps, nows, i));
    }
    one_in_flight_write_per_trainee(engines, steps);
    assert forall|i: int| 0 <= i < steps.len() && #[trigger] steps[i] is Send implies {
        let post = engines[i + 1];
        let k = post.in_hand()->0.id@;
        &&& submits(post, steps[i])
        &&& in_flight_keys(steps.take(i)) == post.sent_keys()
        &&& in_flight_keys(steps.take(i)).last() == k
        &&& !task_ids(post.queued()).contains(k)
        &&& post.durable() matches Some(cp) && cp.status == CheckpointStatus::Running
            && cp.in_flight == Some(k) && cp.pending == task_ids(post.queued())
    } by {
        assert(step_of(engines, events, steps, nows, i));
        lemma_prefix_is_run(engines, events, steps, nows, i + 1);
        let e = engines.take(i + 2);
        let st = steps.take(i + 1);
        assert forall|j: int| 0 <= j < st.len() implies #[trigger] marks(e[j], e[j + 1], st[j]) by {
            assert(step_of(e, events.take(i + 1), st, nows.take(i + 1), j));
        }
        one_in_flight_write_per_trainee(e, st);
        assert(st.drop_last() =~= steps.take(i));
        assert(e.last() == engines[i + 1]);
    }
}

proof fn lemma_run_stays_clear(
    engines: Seq<BatchEngine>,
    events: Seq<Event>,
    steps: Seq<Step>,
    nows: Seq<Seq<char>>,
    i: int,
)
    requires
        run_of(engines, events, steps, nows),
        rows_clear(engines[0]),
        ids_are_keys(engines[0]),
        !engines[0].roster().contains(""@),
        forall|t: int| 0 <= t < steps.len() ==> #[trigger] names_the_trainee_sent(engines[t], events[t]),
        0 <= i <= steps.len(),
    ensures
        rows_clear(engines[i]),
        ids_are_keys(engines[i]),
        engines[i].roster() == engines[0].roster(),
    decreases i,
{
    if i > 0 {
        lemma_run_stays_clear(engines, events, steps, nows, i - 1);
        assert(step_of(engines, events, steps, nows, i - 1));
        assert(names_the_trainee_sent(engines[i - 1], events[i - 1]));
    }
}

/// Over a whole run, no checkpoint that names a trainee in flight holds a
/// result row for that trainee, and neither does the write the sink accepted
/// before each submission. This holds provided the run began with no carried
/// record naming a trainee of its roster (see `began`), no roster key is
/// empty, and every reply to a submission names the trainee it was sent for
/// or no one: a result row's id is the one the worker's reply gives, so a
/// worker that names another trainee can break it.
pub proof fn no_row_names_the_trainee_in_flight(
    engines: Seq<BatchEngine>,
    events: Seq<Event>,
    steps: Seq<Step>,
    nows: Seq<Seq<char>>,
)
    requires
        run_of(engines, events, steps, nows),
        rows_clear(engines[0]),
        ids_are_keys(engines[0]),
        !engines[0].roster().contains(""@),
        forall|t: int| 0 <= t < steps.len() ==> #[trigger] names_the_trainee_sent(engines[t], events[t]),
    ensures
        forall|i: int|
            0 <= i < steps.len() ==> (#[trigger] steps[i] matches Step::Write(cp) ==> (
            cp@.in_flight matches Some(k) ==> !result_ids(cp@.results).contains(k))),
        forall|i: int|
            0 <= i < steps.len() && #[trigger] steps[i] is Send ==> (engines[i + 1].durable() matches Some(
                cp,
            ) && !result_ids(cp.results).contains(engines[i + 1].in_hand()->0.id@)),
{
    assert forall|i: int| 0 <= i < steps.len() implies (#[trigger] steps[i] matches Step::Write(cp) ==> (
    cp@.in_flight matches Some(k) ==> !result_ids(cp@.results).contains(k))) by {
        lemma_run_stays_clear(engines, events, steps, nows, i + 1);
        assert(step_of(engines, events, steps, nows, i));
        let post = engines[i + 1];
        if let Step::Write(cp) = steps[i] {
            if let Some(k) = cp@.in_flight {
                assert(unsettled(post).contains(k)) by {
                    assert(unsettled(post)[unsettled(post).len() - 1] == k);
                }
                if result_ids(cp@.results).contains(k) {
                    let j = choose|j: int| 0 <= j < result_ids(cp@.results).len() && result_ids(cp@.results)[j] == k;
                    assert(post.results()[j].trainee_id == k);
                }
            }
        }
    }
    assert forall|i: int| 0 <= i < steps.len() && #[trigger] steps[i] is Send implies (engines[i
        + 1].durable() matches Some(cp) && !result_ids(cp.results).contains(
        engines[i + 1].in_hand()->0.id@,
    )) by {
        lemma_run_stays_clear(engines, events, steps, nows, i + 1);
        assert(step_of(engines, events, steps, nows, i));
        let post = engines[i + 1];
        let k = post.in_hand()->0.id@;
        let cp = post.durable()->0;
        assert(unsettled(post).contains(k)) by {
            assert(unsettled(post)[unsettled(post).len() - 1] == k);
        }
        if result_ids(cp.results).contains(k) {
            let j = choose|j: int| 0 <= j < result_ids(cp.results).len() && result_ids(cp.results)[j] == k;
            assert(post.results()[j].trainee_id == k);
        }
    }
}

/// What stops a batch after a result: an indeterminate outcome (the record may
/// be on the portal unconfirmed), or an error code of SESSION_EXPIRED or
/// PORTAL_STRUCTURE_CHANGED (the session or the portal itself is gone). Any
/// other result, a definitive failure included, lets the batch go on.
pub proof fn what_stops_a_batch(result: ResultView)
    ensures
        aborts_after(result) <==> (result.outcome == Outcome::Indeterminate || result.error_code
            == Some("SESSION_EXPIRED"@) || result.error_code == Some(
            "PORTAL_STRUCTURE_CHANGED"@,
        )),
{
}

/// After a result recorded with SESSION_EXPIRED or PORTAL_STRUCTURE_CHANGED,
/// the next step closes the batch: nothing more is sent, every trainee still
/// queued is recorded as skipped, in queue order, under the abort's reason
/// ("batch aborted: " and the code, for a failure), and the terminal
/// checkpoint holds them with an empty queue.
pub proof fn an_abort_code_closes_the_batch(
    pre: BatchEngine,
    event: Event,
    post: BatchEngine,
    step: Step,
    now: Seq<char>,
)
    requires
        advances(pre, event, post, step, now),
        pre.stage() == Stage::Settled,
        pre.results().len() > 0,
        pre.results().last().error_code == Some("SESSION_EXPIRED"@)
            || pre.results().last().error_code == Some("PORTAL_STRUCTURE_CHANGED"@),
    ensures
        !(step is Send),
        post.stage() == Stage::Final,
        post.queued().len() == 0,
        post.results() == pre.results() + skipped_views(
            pre.queued(),
            abort_text(pre.results().last()),
        ),
        pre.results().last().outcome != Outcome::Indeterminate ==> abort_text(pre.results().last())
            == "batch aborted: "@ + pre.results().last().error_code->0,
        step matches Step::Write(cp) && cp@.pending.len() == 0 && cp@.results == post.results(),
{
    what_stops_a_batch(pre.results().last());
}

/// Over a whole run, once the sink refuses an in-flight write nothing more is
/// sent: the next step is the terminal write, the one after hands over the
/// results (`a_refused_in_flight_write_sends_nothing_more` says which), and the
/// engine then takes no further event, so the run has no step after those.
pub proof fn a_refused_in_flight_write_ends_the_run(
    engines: Seq<BatchEngine>,
    events: Seq<Event>,
    steps: Seq<Step>,
    nows: Seq<Seq<char>>,
    i: int,
)
    requires
        run_of(engines, events, steps, nows),
        0 <= i < steps.len(),
        engines[i].stage() == Stage::Marker,
        events[i] matches Event::Written(Err(_)),
    ensures
        steps.len() <= i + 2,
        forall|j: int| i <= j < steps.len() ==> !(#[trigger] steps[j] is Send),
{
    assert(step_of(engines, events, steps, nows, i));
    if i + 1 < steps.len() {
        assert(step_of(engines, events, steps, nows, i + 1));
        if i + 2 < steps.len() {
            assert(step_of(engines, events, steps, nows, i + 2));
        }
    }
}

/// Over a whole run, from `begin` on, the engine asks for exactly one
/// in-flight write per trainee, however many attempts that trainee takes: the
/// trainees its writes name in flight are all different, and they are exactly
/// the ones its record holds. `engines[i + 1]` and `steps[i]` are what
/// `advance` made of `engines[i]`, so each pair meets `marks`.
pub proof fn one_in_flight_write_per_trainee(engines: Seq<BatchEngine>, steps: Seq<Step>)
    requires
        engines.len() == steps.len() + 1,
        engines[0].marked() == Seq::<Seq<char>>::empty(),
        forall|i: int| 0 <= i < steps.len() ==> #[trigger] marks(engines[i], engines[i + 1], steps[i]),
    ensures
        in_flight_keys(steps) == engines.last().marked(),
        in_flight_keys(steps).no_duplicates(),
    decreases steps.len(),
{
    if steps.len() > 0 {
        let n = steps.len() - 1;
        assert forall|i: int| 0 <= i < steps.drop_last().len() implies #[trigger] marks(
            engines.drop_last()[i],
            engines.drop_last()[i + 1],
            steps.drop_last()[i],
        ) by {
            assert(marks(engines[i], engines[i + 1], steps[i]));
        }
        one_in_flight_write_per_trainee(engines.drop_last(), steps.drop_last());
        assert(marks(engines[n], engines[n + 1], steps[n]));
        assert(engines.drop_last().last() == engines[n]);
    }
}

impl BatchEngine {
    /// Carry out the engine's side of `event`, the answer to the last step,
    /// and say what has to happen next.
    ///
    /// Every checkpoint it asks for accounts for every trainee exactly once; a
    /// trainee's submission is only ever sent once the sink has accepted the
    /// record naming it in flight; and no trainee of the roster is sent twice.
    pub fn advance(&mut self, event: Event, now: String) -> (step: Step)
        requires
            old(self).wf(),
            answers(old(self).stage(), event),
        ensures
            final(self).wf(),
            final(self).policy() == old(self).policy(),
            final(self).carried() == old(self).carried(),
            final(self).roster() == old(self).roster(),
            final(self).session() == old(self).session(),
            final(self).total() == old(self).total(),
            final(self).started_at() == old(self).started_at(),
            step matches Step::Write(cp) ==> cp@.partitioned() && cp@.total == final(self).total()
                && cp@.started_at == final(self).started_at(),
            marks(*old(self), *final(self), step),
            closing(*old(self), event, *final(self), step, now@),
            advances(*old(self), event, *final(self), step, now@),
            ids_are_keys(*old(self)) ==> ids_are_keys(*final(self)),
            (rows_clear(*old(self)) && ids_are_keys(*old(self)) && !old(self).roster().contains(""@)
                && names_the_trainee_sent(*old(self), event)) ==> rows_clear(*final(self)),
            step matches Step::Write(cp) ==> (cp@.in_flight is Some ==> cp@.results
                == final(self).results() && final(self).in_hand() is Some && cp@.in_flight == Some(
                final(self).in_hand()->0.id@,
            )),
            !(old(self).stage() == Stage::Marker && event matches Event::Written(Ok(_)))
                ==> final(self).sent_keys() == old(self).sent_keys(),
            final(self).sent_keys() == final(self).marked().take(
                final(self).sent_keys().len() as int,
            ),
            final(self).stage() == Stage::Reply ==> {
                &&& final(self).marked() == final(self).sent_keys()
                &&& final(self).sent_keys().last() == final(self).in_hand()->0.id@
                &&& !task_ids(final(self).queued()).contains(final(self).in_hand()->0.id@)
            },
            final(self).stage() == Stage::Reply ==> final(self).durable() == Some(
                snapshot_view(
                    CheckpointStatus::Running,
                    final(self).started_at(),
                    final(self).durable()->0.updated_at,
                    final(self).total(),
                    final(self).results(),
                    task_ids(final(self).queued()),
                    Some(final(self).in_hand()->0.id@),
                ),
            ),
            final(self).roster().no_duplicates(),
            final(self).stage() == Stage::Reply ==> (final(self).attempts() == 1
                || final(self).attempts() <= final(self).policy().max_attempts),
            final(self).sent_keys().no_duplicates(),
            final(self).sent_keys() == final(self).roster().take(
                final(self).sent_keys().len() as int,
            ),
            old(self).stage() == Stage::Session ==> match event {
                Event::Replied(Err(e)) => final(self).stage() == Stage::Idle && (step matches Step::Failed(
                    m,
                ) && m@ == e@),
                Event::Replied(Ok(resp)) => if resp.status == Status::Okay {
                    took_next(*old(self), *final(self), step, now@)
                } else {
                    final(self).stage() == Stage::Idle && (step matches Step::Failed(m) && m@
                        == "session not established: "@ + crate::protocol::summary_text(resp))
                },
                _ => true,
            },
            old(self).stage() == Stage::Marker ==> match event {
                Event::Written(Ok(_)) => {
                    ||| {
                        &&& submits(*final(self), step)
                        &&& hyphenated_uuid(final(self).job_id())
                        &&& final(self).in_hand() == old(self).in_hand()
                        &&& final(self).attempts() == 1
                        &&& final(self).results() == old(self).results()
                        &&& final(self).queued() == old(self).queued()
                        &&& final(self).sent_keys() == old(self).sent_keys().push(
                            old(self).in_hand()->0.id@,
                        )
                    }
                    ||| {
                        &&& closed_batch(
                            *old(self),
                            *final(self),
                            step,
                            now@,
                            old(self).results() + skipped_views(
                                seq![old(self).in_hand()->0] + old(self).queued(),
                                NOT_SUBMITTED@,
                            ),
                        )
                        &&& final(self).sent_keys() == old(self).sent_keys()
                    }
                },
                Event::Written(Err(_)) => {
                    &&& closed_batch(
                        *old(self),
                        *final(self),
                        step,
                        now@,
                        old(self).results() + skipped_views(
                            seq![old(self).in_hand()->0] + old(self).queued(),
                            NOT_SUBMITTED@,
                        ),
                    )
                    &&& final(self).sent_keys() == old(self).sent_keys()
                },
                _ => true,
            },
            old(self).stage() == Stage::Reply ==> match event {
                Event::Replied(Err(e)) => recorded(
                    *old(self),
                    *final(self),
                    step,
                    now@,
                    transport_record(old(self).in_hand()->0.payload@, old(self).attempts(), e@),
                ),
                Event::Replied(Ok(resp)) => if crate::decision::settlement_for(resp) is Retry
                    && old(self).attempts() < old(self).policy().max_attempts {
                    &&& final(self).stage() == Stage::Backoff
                    &&& final(self).job_id() == old(self).job_id()
                    &&& step matches Step::Wait(ms) && ms == crate::decision::backoff_delay(
                        old(self).policy(),
                        old(self).attempts(),
                    )
                    &&& final(self).in_hand() == old(self).in_hand()
                    &&& final(self).attempts() == old(self).attempts()
                    &&& final(self).results() == old(self).results()
                    &&& final(self).queued() == old(self).queued()
                } else {
                    recorded(
                        *old(self),
                        *final(self),
                        step,
                        now@,
                        reply_record(resp, old(self).in_hand()->0.payload@, old(self).attempts()),
                    )
                },
                _ => true,
            },
            old(self).stage() == Stage::Backoff ==> {
                &&& submits(*final(self), step)
                &&& final(self).job_id() == old(self).job_id()
                &&& final(self).attempts() == old(self).attempts() + 1
                &&& final(self).in_hand() == old(self).in_hand()
                &&& final(self).results() == old(self).results()
                &&& final(self).queued() == old(self).queued()
                &&& final(self).sent_keys() == old(self).sent_keys()
            },
            old(self).stage() == Stage::Settled ==> if aborts_after(old(self).results().last()) {
                closed_batch(
                    *old(self),
                    *final(self),
                    step,
                    now@,
                    old(self).results() + skipped_views(
                        old(self).queued(),
                        abort_text(old(self).results().last()),
                    ),
                )
            } else {
                took_next(*old(self), *final(self), step, now@)
            },
            old(self).stage() == Stage::Final ==> {
                &&& final(self).stage() == Stage::Idle
                &&& step matches Step::Finished(results) && result_views(results@) == old(
                    self,
                ).results() && results@.len() == old(self).total()
            },
    {
        let ghost now_view = now@;
        let ghost ev = event;
        match event {
            Event::Replied(reply) => {
                if self.stage == Stage::Session {
                    match reply {
                        Err(e) => {
                            self.stage = Stage::Idle;
                            Step::Failed(e)
                        },
                        Ok(resp) => {
                            if resp.status != Status::Okay {
                                let mut message = String::from_str("session not established: ");
                                let summary = resp.summary();
                                message.append(summary.as_str());
                                self.stage = Stage::Idle;
                                Step::Failed(message)
                            } else {
                                let ghost pre = *self;
                                let step = self.take_next(now);
                                proof {
                                    if rows_clear(pre) {
                                        lemma_took_next_stays_clear(pre, *self, step, now_view);
                                    }
                                }
                                step
                            }
                        },
                    }
                } else {
                    let trainee = match &self.current {
                        Some(task) => task.payload.copied(),
                        None => TraineeRef { id: None, name: None },
                    };
                    match reply {
                        Err(e) => {
                            let record = transport_failure(&trainee, self.attempts, &e);
                            let ghost pre = *self;
                            let ghost row = record@;
                            let step = self.record(record, now);
                            proof {
                                if rows_clear(pre) && ids_are_keys(pre) && !pre.roster().contains(""@) {
                                    lemma_recorded_row_stays_clear(pre, *self, row);
                                }
                            }
                            step
                        },
                        Ok(resp) => {
                            let settled = settle_submit(&resp);
                            let retry = match &settled {
                                Settle::Retry { .. } => true,
                                _ => false,
                            };
                            if retry && self.attempts < self.policy.max_attempts {
                                let _ = self.machine.transition_to(AutomationState::Retrying);
                                self.stage = Stage::Backoff;
                                Step::Wait(self.policy.delay_for_attempt(self.attempts))
                            } else {
                                let _ = self.machine.transition_to(AutomationState::Verifying);
                                let record = reply_result(&resp, &trainee, self.attempts, settled);
                                let ghost pre = *self;
                                let ghost row = record@;
                                let step = self.record(record, now);
                                proof {
                                    if rows_clear(pre) && ids_are_keys(pre) && !pre.roster().contains(""@)
                                        && names_the_trainee_sent(pre, ev) {
                                        lemma_recorded_row_stays_clear(pre, *self, row);
                                    }
                                }
                                step
                            }
                        },
                    }
                }
            },
            Event::Written(written) => {
                let accepted = written.is_ok();
                if accepted {
                    self.durable = Ghost(self.written@);
                }
                if self.stage == Stage::Marker {
                    if accepted {
                        let id = new_id();
                        self.after_draw(id, now)
                    } else {
                        self.stop_before_sending(now)
                    }
                } else if self.stage == Stage::Settled {
                    let last = self.results.len() - 1;
                    if should_abort(&self.results[last]) {
                        let reason = abort_reason(&self.results[last]);
                        drain_skipped(&mut self.queue, &mut self.results, reason.as_str());
                        self.taken = Ghost(self.roster@.len() as int);
                        let _ = self.machine.transition_to(AutomationState::Stopped);
                        let step = self.finish(now);
                        proof {
                            lemma_closed_stays_clear(*self);
                        }
                        step
                    } else {
                        let ghost pre = *self;
                        let step = self.take_next(now);
                        proof {
                            if rows_clear(pre) {
                                lemma_took_next_stays_clear(pre, *self, step, now_view);
                            }
                        }
                        step
                    }
                } else {
                    let mut results: Vec<TrainingResult> = Vec::new();
                    std::mem::swap(&mut results, &mut self.results);
                    self.stage = Stage::Idle;
                    Step::Finished(results)
                }
            },
            Event::Waited => self.send_attempt(),
        }
    }
}

} // verus!
