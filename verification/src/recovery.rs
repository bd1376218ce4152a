//! Reconciling the checkpoint slot before a batch starts.
//!
//! A new batch must not take the slot from a predecessor that still owes an
//! answer: the engine rewrites the file in full, so the predecessor's records
//! would be gone, and the loss would look like a clean run, not a loss.

use vstd::prelude::*;

use crate::checkpoint::{
    has_outcome, in_flight_view, opt_seq, result_ids, BatchCheckpoint, CheckpointStatus,
    CheckpointView, Unreconciled,
};
use crate::protocol::TraineeRef;
use crate::report::{copy_text, outcome_count, result_views, texts, Outcome, ResultView, TrainingResult};
use crate::store::StoredCheckpoint;
use crate::text::{decimal, owned, push_count, same_text};

verus! {

/// The operator's acknowledgement that they have read a predecessor's
/// unconfirmed records and accept that the new run will not touch them.
pub const RESUME_ENV: &'static str = "DSSP_RESUME";

// ---------------------------------------------------------------------------
// the acknowledgement
// ---------------------------------------------------------------------------

/// Unicode's `White_Space` property, the set `char::is_whitespace` tests.
pub open spec fn white_space(c: char) -> bool {
    let v = c as u32;
    (0x9 <= v <= 0xd) || v == 0x20 || v == 0x85 || v == 0xa0 || v == 0x1680 || (0x2000 <= v
        <= 0x200a) || v == 0x2028 || v == 0x2029 || v == 0x202f || v == 0x205f || v == 0x3000
}

/// `s` without its leading white space.
pub open spec fn trim_start(s: Seq<char>) -> Seq<char>
    decreases s.len(),
{
    if s.len() > 0 && white_space(s[0]) {
        trim_start(s.drop_first())
    } else {
        s
    }
}

/// `s` without its trailing white space.
pub open spec fn trim_end(s: Seq<char>) -> Seq<char>
    decreases s.len(),
{
    if s.len() > 0 && white_space(s.last()) {
        trim_end(s.drop_last())
    } else {
        s
    }
}

/// `s` without white space at either end.
pub open spec fn trimmed(s: Seq<char>) -> Seq<char> {
    trim_end(trim_start(s))
}

/// The code of `c` with ASCII upper case folded to lower case.
pub open spec fn lower_code(c: char) -> u32 {
    let v = c as u32;
    if 65 <= v <= 90 {
        (v + 32) as u32
    } else {
        v
    }
}

/// Whether `s`, with ASCII case folded to lower, is exactly `word`.
pub open spec fn folds_to(s: Seq<char>, word: Seq<char>) -> bool {
    s.len() == word.len() && forall|k: int| 0 <= k < s.len() ==> lower_code(s[k]) == word[k] as u32
}

/// Whether a value of the acknowledgement variable says yes: trimmed and
/// ASCII-lowercased, it is one of `1`, `true`, `yes`, `on`. Anything else,
/// the empty value included, is a no.
pub open spec fn affirmative_text(value: Seq<char>) -> bool {
    let t = trimmed(value);
    folds_to(t, "1"@) || folds_to(t, "true"@) || folds_to(t, "yes"@) || folds_to(t, "on"@)
}

pub fn is_whitespace_char(c: char) -> (ws: bool)
    ensures
        ws == white_space(c),
{
    let v = c as u32;
    (0x9 <= v && v <= 0xd) || v == 0x20 || v == 0x85 || v == 0xa0 || v == 0x1680 || (0x2000 <= v
        && v <= 0x200a) || v == 0x2028 || v == 0x2029 || v == 0x202f || v == 0x205f || v == 0x3000
}

/// Whether `value[from..to]` folds to `word`.
fn folds_to_word(value: &str, from: usize, to: usize, word: &str) -> (same: bool)
    requires
        from <= to <= value@.len(),
    ensures
        same == folds_to(value@.subrange(from as int, to as int), word@),
{
    let len = word.unicode_len();
    if to - from != len {
        return false;
    }
    let mut k: usize = 0;
    while k < len
        invariant
            len == word@.len(),
            to - from == len,
            from <= to <= value@.len(),
            k <= len,
            forall|m: int|
                0 <= m < k ==> lower_code(value@.subrange(from as int, to as int)[m])
                    == word@[m] as u32,
        decreases len - k,
    {
        let c = value.get_char(from + k);
        let v = c as u32;
        let lowered = if 65 <= v && v <= 90 {
            v + 32
        } else {
            v
        };
        if lowered != word.get_char(k) as u32 {
            assert(value@.subrange(from as int, to as int)[k as int] == c);
            return false;
        }
        assert(value@.subrange(from as int, to as int)[k as int] == c);
        k += 1;
    }
    true
}

/// Whether a value of [`RESUME_ENV`] is the operator saying yes.
///
/// Only an explicit affirmative counts: a false yes can put a trainee on the
/// portal twice, a false no costs a re-run.
pub fn is_affirmative(value: &str) -> (yes: bool)
    ensures
        yes == affirmative_text(value@),
{
    let n = value.unicode_len();
    let mut i: usize = 0;
    assert(value@.subrange(0, n as int) =~= value@);
    while i < n && is_whitespace_char(value.get_char(i))
        invariant
            n == value@.len(),
            i <= n,
            trim_start(value@) == trim_start(value@.subrange(i as int, n as int)),
        decreases n - i,
    {
        assert(value@.subrange(i as int, n as int).drop_first() =~= value@.subrange(
            i as int + 1,
            n as int,
        ));
        i += 1;
    }
    assert(trim_start(value@) == value@.subrange(i as int, n as int));
    let mut j: usize = n;
    while j > i && is_whitespace_char(value.get_char(j - 1))
        invariant
            n == value@.len(),
            i <= j <= n,
            trim_end(value@.subrange(i as int, n as int)) == trim_end(
                value@.subrange(i as int, j as int),
            ),
        decreases j - i,
    {
        assert(value@.subrange(i as int, j as int).drop_last() =~= value@.subrange(
            i as int,
            j as int - 1,
        ));
        j -= 1;
    }
    assert(trimmed(value@) == value@.subrange(i as int, j as int));
    proof {
        reveal_strlit("1");
        reveal_strlit("true");
        reveal_strlit("yes");
        reveal_strlit("on");
    }
    folds_to_word(value, i, j, "1") || folds_to_word(value, i, j, "true") || folds_to_word(
        value,
        i,
        j,
        "yes",
    ) || folds_to_word(value, i, j, "on")
}


// ---------------------------------------------------------------------------
// reading the predecessor
// ---------------------------------------------------------------------------

/// What a start may do with the slot, once the predecessor has been read.
pub struct Start {
    pub plan: Plan,
    /// The predecessor's checkpoint as it now stands, when there was one.
    pub previous: Option<BatchCheckpoint>,
    /// Whether this start rewrote the status, i.e. found a killed process.
    pub recovered: bool,
}

pub enum Plan {
    /// Nothing to continue.
    Fresh,
    /// Continue a predecessor.
    Resume {
        /// Trainees it never attempted, in queue order. Safe to run: nothing
        /// was sent for them.
        roster: Vec<TraineeRef>,
        /// Everything it recorded, to be carried into the new batch so its
        /// checkpoint cannot drop it. Never run again.
        carried: Vec<TrainingResult>,
        /// How many of those a human still owes an answer for.
        owed: usize,
    },
}

/// The decision a stored predecessor leads to, and what has to be written and
/// said on the way.
pub struct Reconciled {
    /// The checkpoint to write back before going on: the interruption, or an
    /// untracked build's suspicion, recorded. A failed write only means the
    /// next start refuses again.
    pub save: Option<BatchCheckpoint>,
    /// A warning for the operator: the file does not add up.
    pub warning: Option<String>,
    /// The start, or the refusal.
    pub outcome: Result<Start, String>,
}

/// The trainee an untracked file could have sent without recording it: the
/// head of its queue.
pub open spec fn suspect_of(cp: CheckpointView, tracks_in_flight: bool) -> Option<Seq<char>> {
    if !tracks_in_flight && cp.pending.len() > 0 {
        Some(cp.pending[0])
    } else {
        None
    }
}

/// The checkpoint with an untracked build's suspicion written down: the head of
/// its queue moves into `in_flight`, unless a real marker is already there.
pub open spec fn promoted(cp: CheckpointView, tracks_in_flight: bool) -> CheckpointView {
    if !tracks_in_flight && cp.pending.len() > 0 && cp.in_flight is None {
        CheckpointView { pending: cp.pending.drop_first(), in_flight: Some(cp.pending[0]), ..cp }
    } else {
        cp
    }
}

/// The checkpoint with a killed process's status recorded as interrupted.
pub open spec fn marked(cp: CheckpointView) -> CheckpointView {
    if cp.is_live() {
        CheckpointView { status: CheckpointStatus::Interrupted, ..cp }
    } else {
        cp
    }
}

/// Whether a text is anything but `id`.
pub open spec fn other_than(id: Seq<char>) -> spec_fn(Seq<char>) -> bool {
    |x: Seq<char>| x != id
}

/// The trainees a resume runs: the never-attempted ones, without the suspect.
pub open spec fn resume_roster(cp: CheckpointView, suspect: Option<Seq<char>>) -> Seq<Seq<char>> {
    match suspect {
        Some(id) => cp.never_attempted().filter(other_than(id)),
        None => cp.never_attempted(),
    }
}

/// Whether a result is anything but a drained skip.
pub open spec fn not_skipped() -> spec_fn(ResultView) -> bool {
    |r: ResultView| r.outcome != Outcome::Skipped
}

/// Everything the predecessor settled or could not settle: its results other
/// than the drained skips, then the trainee left in flight.
pub open spec fn carried_views(cp: CheckpointView) -> Seq<ResultView> {
    cp.results.filter(not_skipped()) + opt_seq(cp.in_flight_record())
}

/// How many results were submitted and reached a conclusion.
pub open spec fn settled_count(cp: CheckpointView) -> nat {
    outcome_count(cp.results, Outcome::Success) + outcome_count(cp.results, Outcome::Failed)
}

/// Why the file cannot simply be overwritten.
pub open spec fn reason_text(cp: CheckpointView, unconfirmed: nat, suspect: Option<Seq<char>>) -> Seq<char> {
    match suspect {
        Some(id) => "the file was written by a build that could not record a submission in flight, so "@
            + id + " — next in its queue — may already be on the portal"@,
        None => match cp.in_flight {
            Some(id) => "the process was killed while submitting "@ + id
                + " — that submission may have reached the portal"@,
            None => if cp.unaccounted() > 0 {
                "it accounts for "@ + decimal((cp.total - cp.unaccounted()) as nat) + " of its "@
                    + decimal(cp.total) + " trainee(s), so "@ + decimal(cp.unaccounted())
                    + " cannot be placed at all — check the portal for whoever is missing"@
            } else {
                decimal(unconfirmed)
                    + " submission(s) may already exist on the portal — check them there before going on"@
            },
        },
    }
}

/// The way forward a refusal offers.
pub open spec fn action_text(cp: CheckpointView, suspect: Option<Seq<char>>) -> Seq<char> {
    let never = resume_roster(cp, suspect).len();
    if cp.unaccounted() > 0 {
        "the counts are short by "@ + decimal(cp.unaccounted())
            + " — check the portal before deciding anything; a resume will not run them"@
    } else if never > 0 {
        "re-run with DSSP_RESUME=1 to continue the "@ + decimal(never)
            + " never-attempted trainee(s); nothing unconfirmed is replayed"@
    } else {
        "re-run with DSSP_RESUME=1 to carry the unconfirmed record(s) forward — there is nothing left to attempt"@
    }
}

/// The refusal an operator reads: the file, what is in it, why it cannot be
/// overwritten, and the ways forward.
pub open spec fn refusal_text(path: Seq<char>, cp: CheckpointView, unconfirmed: nat, suspect: Option<Seq<char>>) -> Seq<char> {
    "dssp-bot: refusing to start — the checkpoint at "@ + path + " is not reconciled\n"@
        + "dssp-bot:   previous batch started "@ + cp.started_at + ": "@ + decimal(cp.total)
        + " trainee(s), "@ + decimal(settled_count(cp)) + " settled, "@ + decimal(unconfirmed)
        + " unconfirmed, "@ + decimal(resume_roster(cp, suspect).len()) + " never attempted\n"@
        + "dssp-bot:   "@ + reason_text(cp, unconfirmed, suspect) + "\n"@ + "dssp-bot:   "@
        + action_text(cp, suspect) + "\n"@ + "dssp-bot:   or move "@ + path
        + " aside to start a fresh batch, once you have checked the portal"@
}

/// The warning for a file whose groups fall short of its total.
pub open spec fn shortfall_text(path: Seq<char>, cp: CheckpointView) -> Seq<char> {
    "dssp-bot: "@ + path + " accounts for "@ + decimal((cp.total - cp.unaccounted()) as nat)
        + " of its "@ + decimal(cp.total) + " trainee(s) — "@ + decimal(cp.unaccounted())
        + " cannot be placed and may have been submitted without being recorded"@
}

/// What a recovered predecessor left.
pub open spec fn recovered_text(path: Seq<char>, cp: CheckpointView) -> Seq<char> {
    "dssp-bot: recovered an interrupted batch from "@ + path + ": "@ + decimal(settled_count(cp))
        + " settled, "@ + decimal(cp.unconfirmed().len()) + " unconfirmed, "@ + decimal(
        cp.never_attempted().len(),
    ) + " never attempted of "@ + decimal(cp.total)
}

/// Why a file that exists but cannot be read refuses a start.
pub open spec fn unreadable_text(path: Seq<char>, error: Seq<char>) -> Seq<char> {
    "dssp-bot: refusing to start — the checkpoint at "@ + path + " cannot be read: "@ + error
        + "\ndssp-bot:   a checkpoint that cannot be read must not be treated as if no batch ran\ndssp-bot:   if you are certain nothing was submitted, move "@
        + path + " aside and re-run"@
}

/// A checkpoint holds ids, because that is what the engine queued. A resume
/// re-resolves them, so a trainee who has since left the portal stops the run
/// instead of being submitted against a dead id.
fn by_id(id: &String) -> (trainee: TraineeRef)
    ensures
        trainee.id == Some(*id),
        trainee.name is None,
{
    TraineeRef { id: Some(id.clone()), name: None }
}

pub(crate) proof fn lemma_filter_step_any<A>(s: Seq<A>, i: int, pred: spec_fn(A) -> bool)
    requires
        0 <= i < s.len(),
    ensures
        s.take(i + 1).filter(pred) == if pred(s[i]) {
            s.take(i).filter(pred).push(s[i])
        } else {
            s.take(i).filter(pred)
        },
{
    reveal(Seq::filter);
    assert(s.take(i + 1).drop_last() =~= s.take(i));
}

/// Everything the predecessor settled or could not settle: the records a
/// resumed batch must carry into its own file rather than leave behind. The
/// never-attempted rows are absent: those are the roster.
fn carried(previous: &BatchCheckpoint) -> (records: Vec<TrainingResult>)
    ensures
        result_views(records@) == carried_views(previous@),
{
    let ghost views = result_views(previous.results@);
    let mut records: Vec<TrainingResult> = Vec::new();
    let mut i: usize = 0;
    while i < previous.results.len()
        invariant
            views == result_views(previous.results@),
            i <= previous.results@.len(),
            result_views(records@) == views.take(i as int).filter(not_skipped()),
        decreases previous.results@.len() - i,
    {
        proof {
            lemma_filter_step_any(views, i as int, not_skipped());
        }
        if previous.results[i].outcome != Outcome::Skipped {
            records.push(previous.results[i].copied());
            assert(result_views(records@) =~= views.take(i as int).filter(not_skipped()).push(
                views[i as int],
            ));
        }
        i += 1;
    }
    assert(views.take(previous.results@.len() as int) =~= views);
    let ghost kept = result_views(records@);
    match previous.in_flight_record() {
        Some(record) => {
            records.push(record);
            assert(result_views(records@) =~= kept.push(record@));
        },
        None => {
            assert(kept + opt_seq(previous@.in_flight_record()) =~= kept);
        },
    }
    records
}

proof fn lemma_count_step_at(results: Seq<ResultView>, i: int, outcome: Outcome)
    requires
        0 <= i < results.len(),
    ensures
        outcome_count(results.take(i + 1), outcome) == outcome_count(results.take(i), outcome)
            + if results[i].outcome == outcome {
            1nat
        } else {
            0nat
        },
{
    assert(results.take(i + 1).drop_last() =~= results.take(i));
}

proof fn lemma_count_at_most(results: Seq<ResultView>, a: Outcome, b: Outcome)
    requires
        a != b,
    ensures
        outcome_count(results, a) + outcome_count(results, b) <= results.len(),
    decreases results.len(),
{
    if results.len() > 0 {
        lemma_count_at_most(results.drop_last(), a, b);
    }
}

/// Records in `results` that were submitted and reached a conclusion: the
/// successes and the failures. Not the skipped rows, which were never sent.
fn settled(cp: &BatchCheckpoint) -> (count: usize)
    ensures
        count == settled_count(cp@),
{
    let ghost views = result_views(cp.results@);
    let mut count: usize = 0;
    let mut i: usize = 0;
    while i < cp.results.len()
        invariant
            views == result_views(cp.results@),
            i <= cp.results@.len(),
            count == outcome_count(views.take(i as int), Outcome::Success) + outcome_count(
                views.take(i as int),
                Outcome::Failed,
            ),
        decreases cp.results@.len() - i,
    {
        proof {
            lemma_count_step_at(views, i as int, Outcome::Success);
            lemma_count_step_at(views, i as int, Outcome::Failed);
            lemma_count_at_most(views.take(i as int + 1), Outcome::Success, Outcome::Failed);
        }
        match cp.results[i].outcome {
            Outcome::Success | Outcome::Failed => count += 1,
            _ => {},
        }
        i += 1;
    }
    assert(views.take(cp.results@.len() as int) =~= views);
    count
}

/// The never-attempted ids, without the suspect.
fn roster_ids(previous: &BatchCheckpoint, suspect: &Option<String>) -> (ids: Vec<String>)
    ensures
        texts(ids@) == resume_roster(
            previous@,
            match suspect {
                Some(s) => Some(s@),
                None => None,
            },
        ),
{
    let never = previous.never_attempted();
    match suspect {
        None => {
            assert(texts(never@) == resume_roster(previous@, None));
            never
        },
        Some(skip) => {
            let ghost all = texts(never@);
            let ghost keep = other_than(skip@);
            let mut ids: Vec<String> = Vec::new();
            let mut i: usize = 0;
            while i < never.len()
                invariant
                    all == texts(never@),
                    keep == other_than(skip@),
                    i <= never@.len(),
                    texts(ids@) == all.take(i as int).filter(keep),
                decreases never@.len() - i,
            {
                proof {
                    lemma_filter_step_any(all, i as int, keep);
                }
                if !same_text(never[i].as_str(), skip.as_str()) {
                    ids.push(never[i].clone());
                    assert(texts(ids@) =~= all.take(i as int).filter(keep).push(all[i as int]));
                }
                i += 1;
            }
            assert(all.take(never@.len() as int) =~= all);
            assert(texts(ids@) == resume_roster(previous@, Some(skip@)));
            ids
        },
    }
}

/// Why the file cannot simply be overwritten.
fn reason(previous: &BatchCheckpoint, unconfirmed: usize, suspect: &Option<String>) -> (text: String)
    ensures
        text@ == reason_text(
            previous@,
            unconfirmed as nat,
            match suspect {
                Some(s) => Some(s@),
                None => None,
            },
        ),
{
    if let Some(id) = suspect {
        let mut text = String::from_str(
            "the file was written by a build that could not record a submission in flight, so ",
        );
        text.append(id.as_str());
        text.append(" — next in its queue — may already be on the portal");
        return text;
    }
    if let Some(id) = &previous.in_flight {
        let mut text = String::from_str("the process was killed while submitting ");
        text.append(id.as_str());
        text.append(" — that submission may have reached the portal");
        return text;
    }
    let unaccounted = previous.unaccounted();
    if unaccounted > 0 {
        let mut text = String::from_str("it accounts for ");
        push_count(&mut text, previous.total - unaccounted);
        text.append(" of its ");
        push_count(&mut text, previous.total);
        text.append(" trainee(s), so ");
        push_count(&mut text, unaccounted);
        text.append(" cannot be placed at all — check the portal for whoever is missing");
        return text;
    }
    let mut text = String::new();
    push_count(&mut text, unconfirmed);
    text.append(" submission(s) may already exist on the portal — check them there before going on");
    assert(text@ =~= decimal(unconfirmed as nat)
        + " submission(s) may already exist on the portal — check them there before going on"@);
    text
}

/// The refusal an operator reads, naming the file, what is in it, why it
/// cannot be overwritten, and the ways forward.
fn refusal(path: &str, previous: &BatchCheckpoint, unreconciled: &Unreconciled, suspect: &Option<String>) -> (text: String)
    ensures
        text@ == refusal_text(
            path@,
            previous@,
            unreconciled.indeterminate@.len() as nat,
            match suspect {
                Some(s) => Some(s@),
                None => None,
            },
        ),
{
    let never = roster_ids(previous, suspect).len();
    let unconfirmed = unreconciled.indeterminate.len();
    let unaccounted = previous.unaccounted();
    let mut action = String::new();
    if unaccounted > 0 {
        action.append("the counts are short by ");
        push_count(&mut action, unaccounted);
        action.append(" — check the portal before deciding anything; a resume will not run them");
    } else if never > 0 {
        action.append("re-run with DSSP_RESUME=1 to continue the ");
        push_count(&mut action, never);
        action.append(" never-attempted trainee(s); nothing unconfirmed is replayed");
    } else {
        action.append(
            "re-run with DSSP_RESUME=1 to carry the unconfirmed record(s) forward — there is nothing left to attempt",
        );
    }
    let mut text = String::from_str("dssp-bot: refusing to start — the checkpoint at ");
    text.append(path);
    text.append(" is not reconciled\n");
    text.append("dssp-bot:   previous batch started ");
    text.append(previous.started_at.as_str());
    text.append(": ");
    push_count(&mut text, previous.total);
    text.append(" trainee(s), ");
    push_count(&mut text, settled(previous));
    text.append(" settled, ");
    push_count(&mut text, unconfirmed);
    text.append(" unconfirmed, ");
    push_count(&mut text, never);
    text.append(" never attempted\n");
    text.append("dssp-bot:   ");
    let why = reason(previous, unconfirmed, suspect);
    text.append(why.as_str());
    text.append("\n");
    text.append("dssp-bot:   ");
    text.append(action.as_str());
    text.append("\n");
    text.append("dssp-bot:   or move ");
    text.append(path);
    text.append(" aside to start a fresh batch, once you have checked the portal");
    text
}

/// A predecessor was found and reconciled: its records are all still there.
pub fn recovered_line(path: &str, previous: &BatchCheckpoint) -> (line: String)
    ensures
        line@ == recovered_text(path@, previous@),
{
    let unconfirmed = previous.unreconciled().indeterminate.len();
    let never = previous.never_attempted().len();
    let mut line = String::from_str("dssp-bot: recovered an interrupted batch from ");
    line.append(path);
    line.append(": ");
    push_count(&mut line, settled(previous));
    line.append(" settled, ");
    push_count(&mut line, unconfirmed);
    line.append(" unconfirmed, ");
    push_count(&mut line, never);
    line.append(" never attempted of ");
    push_count(&mut line, previous.total);
    line
}

/// A file that exists but cannot be read is not a file that says nothing ran.
pub fn unreadable(path: &str, error: &str) -> (text: String)
    ensures
        text@ == unreadable_text(path@, error@),
{
    let mut text = String::from_str("dssp-bot: refusing to start — the checkpoint at ");
    text.append(path);
    text.append(" cannot be read: ");
    text.append(error);
    text.append(
        "\ndssp-bot:   a checkpoint that cannot be read must not be treated as if no batch ran\ndssp-bot:   if you are certain nothing was submitted, move ",
    );
    text.append(path);
    text.append(" aside and re-run");
    text
}


/// The warning for a file whose groups fall short of its total.
fn shortfall(path: &str, previous: &BatchCheckpoint) -> (text: String)
    ensures
        text@ == shortfall_text(path@, previous@),
{
    let unaccounted = previous.unaccounted();
    let mut text = String::from_str("dssp-bot: ");
    text.append(path);
    text.append(" accounts for ");
    push_count(&mut text, previous.total - unaccounted);
    text.append(" of its ");
    push_count(&mut text, previous.total);
    text.append(" trainee(s) — ");
    push_count(&mut text, unaccounted);
    text.append(" cannot be placed and may have been submitted without being recorded");
    text
}

/// The views of a roster, entry by entry.
pub open spec fn by_id_roster(ids: Seq<Seq<char>>) -> Seq<crate::protocol::TraineeRefView> {
    ids.map_values(|id: Seq<char>| crate::protocol::TraineeRefView { id: Some(id), name: None })
}

/// What reconciling a stored predecessor read from `path` gives: the
/// checkpoint to write back, the warning, and the start or the refusal.
pub open spec fn reconciles(path: Seq<char>, stored: StoredCheckpoint, resume: bool, done: Reconciled) -> bool {
    let cp = stored.checkpoint@;
    let suspect = suspect_of(cp, stored.tracks_in_flight);
    let m = marked(promoted(cp, stored.tracks_in_flight));
    &&& (done.save is Some <==> (cp.is_live() || suspect is Some))
    &&& (done.save matches Some(c) ==> c@ == m)
    &&& (done.warning is Some <==> m.unaccounted() > 0)
    &&& (done.warning matches Some(w) ==> w@ == shortfall_text(path, m))
    &&& resume ==> (done.outcome matches Ok(start) && {
        &&& start.recovered == cp.is_live()
        &&& start.previous matches Some(prev) && prev@ == m
        &&& start.plan matches Plan::Resume { roster, carried, owed } && {
            &&& roster@.map_values(|t: TraineeRef| t@) == by_id_roster(
                resume_roster(m, suspect),
            )
            &&& result_views(carried@) == carried_views(m)
            &&& owed == m.unconfirmed().len()
        }
    })
    &&& (!resume && m.blocks_start()) ==> (done.outcome matches Err(message) && message@
        == refusal_text(path, m, m.unconfirmed().len(), suspect))
    &&& (!resume && !m.blocks_start()) ==> (done.outcome matches Ok(start) && {
        &&& start.plan is Fresh
        &&& start.recovered == cp.is_live()
        &&& start.previous matches Some(prev) && prev@ == m
    })
}

/// Decide what a start may do with a predecessor read from `path`.
///
/// A file from a build that could not record a submission in flight has its
/// suspicion, the head of its queue, moved into `in_flight` before anything
/// reads its counts, because every write adds the key whose absence is the
/// evidence. A live file is marked interrupted. Without the acknowledgement
/// (`resume`), a file that may be missing a submission refuses the start;
/// with it, the never-attempted trainees (less the suspect) become the roster
/// and everything else the predecessor recorded is carried, never run again.
pub fn reconcile(path: &str, stored: StoredCheckpoint, resume: bool) -> (done: Reconciled)
    ensures
        reconciles(path@, stored, resume, done),

{
    let tracks = stored.tracks_in_flight;
    let mut previous = stored.checkpoint;
    let ghost cp = previous@;
    let suspect = previous.untracked_suspect(tracks);
    let suspect_id: Option<String> = match &suspect {
        Some(record) => Some(record.trainee_id.clone()),
        None => None,
    };
    match &suspect_id {
        Some(id) => {
            let changed = previous.promote_suspect(id.as_str());
            proof {
                if changed {
                    let at = choose|at: int|
                        crate::checkpoint::first_position(cp.pending, id@, at) && previous@.pending
                            == cp.pending.remove(at);
                    assert(at == 0) by {
                        if at > 0 {
                            assert(cp.pending[0] != id@);
                        }
                    }
                    assert(cp.pending.remove(0) =~= cp.pending.drop_first());
                } else {
                    if cp.in_flight is None {
                        assert(cp.pending.contains(id@)) by {
                            assert(cp.pending[0] == id@);
                        }
                    }
                }
                assert(previous@ == promoted(cp, tracks));
            }
        },
        None => {
            assert(previous@ == promoted(cp, tracks));
        },
    }
    let ghost p = previous@;
    let blocked = previous.blocks_start();
    let unreconciled = previous.unreconciled();
    let recovered = previous.mark_interrupted();
    proof {
        assert(previous@ == marked(p));
        assert(p.unconfirmed() == previous@.unconfirmed());
    }
    let unaccounted = previous.unaccounted();
    let warning = if unaccounted > 0 {
        Some(shortfall(path, &previous))
    } else {
        None
    };
    let save = if recovered || suspect_id.is_some() {
        Some(previous.copied())
    } else {
        None
    };
    if resume {
        let ids = roster_ids(&previous, &suspect_id);
        let mut roster: Vec<TraineeRef> = Vec::new();
        let mut i: usize = 0;
        while i < ids.len()
            invariant
                i <= ids@.len(),
                roster@.len() == i,
                forall|k: int|
                    0 <= k < i ==> (#[trigger] roster@[k])@ == (crate::protocol::TraineeRefView {
                        id: Some(ids@[k]@),
                        name: None,
                    }),
            decreases ids@.len() - i,
        {
            roster.push(by_id(&ids[i]));
            i += 1;
        }
        proof {
            assert(roster@.map_values(|t: TraineeRef| t@) =~= by_id_roster(texts(ids@)));
        }
        let records = carried(&previous);
        let owed = unreconciled.indeterminate.len();
        return Reconciled {
            save,
            warning,
            outcome: Ok(
                Start {
                    plan: Plan::Resume { roster, carried: records, owed },
                    previous: Some(previous),
                    recovered,
                },
            ),
        };
    }
    if blocked {
        let message = refusal(path, &previous, &unreconciled, &suspect_id);
        return Reconciled { save, warning, outcome: Err(message) };
    }
    Reconciled {
        save,
        warning,
        outcome: Ok(Start { plan: Plan::Fresh, previous: Some(previous), recovered }),
    }
}



/// Decide what a start may do with the checkpoint slot at `path`, from what
/// reading it gave: nothing there (`Ok(None)`), a file that exists but could
/// not be read (`Err`), or a stored predecessor. An empty slot starts fresh; an
/// unreadable one refuses even a resume, because a checkpoint that cannot be
/// read is not one that says nothing ran.
pub fn reconcile_slot(path: &str, loaded: Result<Option<StoredCheckpoint>, String>, resume: bool) -> (done: Reconciled)
    ensures
        match loaded {
            Err(e) => {
                &&& done.save is None
                &&& done.warning is None
                &&& done.outcome matches Err(m) && m@ == unreadable_text(path@, e@)
            },
            Ok(None) => {
                &&& done.save is None
                &&& done.warning is None
                &&& done.outcome matches Ok(start) && start.plan is Fresh && start.previous is None
                    && !start.recovered
            },
            Ok(Some(stored)) => reconciles(path@, stored, resume, done),
        },
{
    match loaded {
        Err(e) => Reconciled { save: None, warning: None, outcome: Err(unreadable(path, e.as_str())) },
        Ok(None) => Reconciled {
            save: None,
            warning: None,
            outcome: Ok(Start { plan: Plan::Fresh, previous: None, recovered: false }),
        },
        Ok(Some(stored)) => reconcile(path, stored, resume),
    }
}

// ---------------------------------------------------------------------------
// what a reconciliation promises
// ---------------------------------------------------------------------------

/// Every id a file names, group by group: the results, the queue, the
/// trainee in flight.
pub open spec fn file_ids(cp: CheckpointView) -> Seq<Seq<char>> {
    result_ids(cp.results) + cp.pending + opt_seq(cp.in_flight)
}

/// The groups of a file name disjoint sets of trainees, and no group names
/// one twice.
pub open spec fn disjoint_groups(cp: CheckpointView) -> bool {
    &&& result_ids(cp.results).no_duplicates()
    &&& cp.pending.no_duplicates()
    &&& forall|x: Seq<char>| result_ids(cp.results).contains(x) ==> !cp.pending.contains(x)
    &&& cp.in_flight matches Some(f) ==> !result_ids(cp.results).contains(f)
        && !cp.pending.contains(f)
}

proof fn lemma_groups_of_distinct(cp: CheckpointView)
    requires
        file_ids(cp).no_duplicates(),
    ensures
        disjoint_groups(cp),
{
    let r = result_ids(cp.results);
    let q = cp.pending;
    let all = file_ids(cp);
    assert forall|i: int, j: int| 0 <= i < r.len() && 0 <= j < r.len() && i != j implies r[i]
        != r[j] by {
        assert(all[i] == r[i] && all[j] == r[j]);
    }
    assert forall|i: int, j: int| 0 <= i < q.len() && 0 <= j < q.len() && i != j implies q[i]
        != q[j] by {
        assert(all[r.len() + i] == q[i] && all[r.len() + j] == q[j]);
    }
    assert forall|x: Seq<char>| r.contains(x) implies !q.contains(x) by {
        let i = choose|i: int| 0 <= i < r.len() && r[i] == x;
        if q.contains(x) {
            let j = choose|j: int| 0 <= j < q.len() && q[j] == x;
            assert(all[i] == x && all[r.len() + j] == x);
        }
    }
    if let Some(f) = cp.in_flight {
        let last = (r.len() + q.len()) as int;
        assert(all[last] == f);
        if r.contains(f) {
            let i = choose|i: int| 0 <= i < r.len() && r[i] == f;
            assert(all[i] == f);
        }
        if q.contains(f) {
            let j = choose|j: int| 0 <= j < q.len() && q[j] == f;
            assert(all[r.len() + j] == f);
        }
    }
}

proof fn lemma_groups_reconciled(cp: CheckpointView, tracks: bool)
    requires
        disjoint_groups(cp),
    ensures
        disjoint_groups(marked(promoted(cp, tracks))),
        marked(promoted(cp, tracks)).results == cp.results,
        marked(promoted(cp, tracks)).total == cp.total,
        marked(promoted(cp, tracks)).accounted() == cp.accounted(),
{
    let p = promoted(cp, tracks);
    if !tracks && cp.pending.len() > 0 && cp.in_flight is None {
        let q = cp.pending;
        assert forall|x: Seq<char>| p.pending.contains(x) implies q.contains(x) by {
            let j = choose|j: int| 0 <= j < p.pending.len() && p.pending[j] == x;
            assert(q[j + 1] == x);
        }
        assert(!p.pending.contains(q[0])) by {
            if p.pending.contains(q[0]) {
                let j = choose|j: int| 0 <= j < p.pending.len() && p.pending[j] == q[0];
                assert(q[j + 1] == q[0]);
            }
        }
        assert(q.contains(q[0]));
        assert forall|x: Seq<char>| result_ids(p.results).contains(x) implies !p.pending.contains(
            x,
        ) by {
            if p.pending.contains(x) {
                assert(q.contains(x));
            }
        }
        assert forall|i: int, j: int|
            0 <= i < p.pending.len() && 0 <= j < p.pending.len() && i != j implies p.pending[i]
            != p.pending[j] by {
            assert(p.pending[i] == q[i + 1] && p.pending[j] == q[j + 1]);
        }
    }
}

proof fn lemma_filter_origin<A>(s: Seq<A>, pred: spec_fn(A) -> bool, x: A)
    requires
        s.filter(pred).contains(x),
    ensures
        s.contains(x),
        pred(x),
{
    s.lemma_filter_contains_rev(pred, x);
    let k = choose|k: int| 0 <= k < s.filter(pred).len() && s.filter(pred)[k] == x;
    s.lemma_filter_pred(pred, k);
}

proof fn lemma_ids_origin(s: Seq<ResultView>, x: Seq<char>)
    requires
        result_ids(s).contains(x),
    ensures
        exists|i: int| 0 <= i < s.len() && s[i].trainee_id == x,
{
    let k = choose|k: int| 0 <= k < result_ids(s).len() && result_ids(s)[k] == x;
    assert(s[k].trainee_id == x);
}

proof fn lemma_ids_of_filter(s: Seq<ResultView>, pred: spec_fn(ResultView) -> bool, x: Seq<char>)
    requires
        result_ids(s.filter(pred)).contains(x),
    ensures
        exists|i: int| 0 <= i < s.len() && s[i].trainee_id == x && pred(s[i]),
{
    lemma_ids_origin(s.filter(pred), x);
    let k = choose|k: int| 0 <= k < s.filter(pred).len() && s.filter(pred)[k].trainee_id == x;
    let r = s.filter(pred)[k];
    assert(s.filter(pred).contains(r));
    lemma_filter_origin(s, pred, r);
    let i = choose|i: int| 0 <= i < s.len() && s[i] == r;
}

proof fn lemma_result_id_at(s: Seq<ResultView>, i: int)
    requires
        0 <= i < s.len(),
    ensures
        result_ids(s).contains(s[i].trainee_id),
{
    assert(result_ids(s)[i] == s[i].trainee_id);
}

/// A resume never offers a trainee it carries: nothing that settled, nothing
/// unconfirmed, not the trainee left in flight and not an untracked file's
/// suspect is ever handed back to the worker, provided the file names each
/// trainee once.
pub proof fn resume_never_replays(cp: CheckpointView, tracks_in_flight: bool)
    requires
        file_ids(cp).no_duplicates(),
    ensures
        ({
            let m = marked(promoted(cp, tracks_in_flight));
            let suspect = suspect_of(cp, tracks_in_flight);
            let roster = resume_roster(m, suspect);
            &&& forall|x: Seq<char>|
                #[trigger] roster.contains(x) ==> !result_ids(carried_views(m)).contains(x)
                    && !result_ids(m.unconfirmed()).contains(x)
            &&& suspect matches Some(id) ==> !roster.contains(id)
        }),
{
    let m = marked(promoted(cp, tracks_in_flight));
    let suspect = suspect_of(cp, tracks_in_flight);
    let roster = resume_roster(m, suspect);
    lemma_groups_of_distinct(cp);
    lemma_groups_reconciled(cp, tracks_in_flight);
    let r = m.results;
    let never = m.never_attempted();
    assert forall|x: Seq<char>| #[trigger] roster.contains(x) implies !result_ids(
        carried_views(m),
    ).contains(x) && !result_ids(m.unconfirmed()).contains(x) by {
        if let Some(id) = suspect {
            lemma_filter_origin(never, other_than(id), x);
        }
        assert(never.contains(x));
        let k = choose|k: int| 0 <= k < never.len() && never[k] == x;
        let skipped = result_ids(r.filter(has_outcome(Outcome::Skipped)));
        let from_skips = k < skipped.len();
        if from_skips {
            assert(skipped[k] == x);
            lemma_ids_of_filter(r, has_outcome(Outcome::Skipped), x);
        } else {
            assert(m.pending[k - skipped.len()] == x);
            assert(m.pending.contains(x));
        }
        // Nothing carried has that id.
        let carried = carried_views(m);
        if result_ids(carried).contains(x) {
            lemma_ids_origin(carried, x);
            let c = choose|c: int| 0 <= c < carried.len() && carried[c].trainee_id == x;
            let kept = r.filter(not_skipped());
            if c < kept.len() {
                assert(result_ids(kept)[c] == x);
                lemma_ids_of_filter(r, not_skipped(), x);
                let j = choose|j: int| 0 <= j < r.len() && r[j].trainee_id == x && not_skipped()(r[j]);
                lemma_result_id_at(r, j);
                if from_skips {
                    let i = choose|i: int|
                        0 <= i < r.len() && r[i].trainee_id == x && has_outcome(Outcome::Skipped)(r[i]);
                    assert(result_ids(r)[i] == result_ids(r)[j]);
                }
            } else {
                assert(m.in_flight == Some(x));
                if from_skips {
                    let i = choose|i: int|
                        0 <= i < r.len() && r[i].trainee_id == x && has_outcome(Outcome::Skipped)(r[i]);
                    lemma_result_id_at(r, i);
                }
            }
        }
        // Nor anything unconfirmed.
        let unconfirmed = m.unconfirmed();
        if result_ids(unconfirmed).contains(x) {
            lemma_ids_origin(unconfirmed, x);
            let c = choose|c: int| 0 <= c < unconfirmed.len() && unconfirmed[c].trainee_id == x;
            let ind = r.filter(has_outcome(Outcome::Indeterminate));
            if c < ind.len() {
                assert(result_ids(ind)[c] == x);
                lemma_ids_of_filter(r, has_outcome(Outcome::Indeterminate), x);
                let j = choose|j: int|
                    0 <= j < r.len() && r[j].trainee_id == x && has_outcome(Outcome::Indeterminate)(r[j]);
                lemma_result_id_at(r, j);
                if from_skips {
                    let i = choose|i: int|
                        0 <= i < r.len() && r[i].trainee_id == x && has_outcome(Outcome::Skipped)(r[i]);
                    assert(result_ids(r)[i] == result_ids(r)[j]);
                }
            } else {
                assert(m.in_flight == Some(x));
                if from_skips {
                    let i = choose|i: int|
                        0 <= i < r.len() && r[i].trainee_id == x && has_outcome(Outcome::Skipped)(r[i]);
                    lemma_result_id_at(r, i);
                }
            }
        }
    }
    if let Some(id) = suspect {
        if roster.contains(id) {
            lemma_filter_origin(never, other_than(id), id);
        }
    }
}


proof fn lemma_skips_and_rest(s: Seq<ResultView>)
    ensures
        s.filter(has_outcome(Outcome::Skipped)).len() + s.filter(not_skipped()).len() == s.len(),
    decreases s.len(),
{
    reveal(Seq::filter);
    if s.len() > 0 {
        lemma_skips_and_rest(s.drop_last());
    }
}

proof fn lemma_filter_keeps_all<A>(s: Seq<A>, pred: spec_fn(A) -> bool)
    requires
        forall|i: int| 0 <= i < s.len() ==> pred(#[trigger] s[i]),
    ensures
        s.filter(pred) == s,
    decreases s.len(),
{
    reveal(Seq::filter);
    if s.len() > 0 {
        assert forall|i: int| 0 <= i < s.drop_last().len() implies pred(
            #[trigger] s.drop_last()[i],
        ) by {
            assert(s.drop_last()[i] == s[i]);
        }
        lemma_filter_keeps_all(s.drop_last(), pred);
        assert(s.drop_last().push(s.last()) =~= s);
    }
}

/// A resume accounts for exactly the batch it continues: the trainees it runs
/// and the records it carries add up to the predecessor's `total`, when the
/// predecessor's groups added up and named each trainee once (and a file
/// without the in-flight key has no marker in it).
pub proof fn resume_accounts_for_the_batch(cp: CheckpointView, tracks_in_flight: bool)
    requires
        file_ids(cp).no_duplicates(),
        cp.partitioned(),
        !tracks_in_flight ==> cp.in_flight is None,
    ensures
        ({
            let m = marked(promoted(cp, tracks_in_flight));
            resume_roster(m, suspect_of(cp, tracks_in_flight)).len() + carried_views(m).len()
                == cp.total
        }),
{
    let m = marked(promoted(cp, tracks_in_flight));
    let suspect = suspect_of(cp, tracks_in_flight);
    lemma_groups_of_distinct(cp);
    lemma_groups_reconciled(cp, tracks_in_flight);
    let never = m.never_attempted();
    let r = m.results;
    if let Some(id) = suspect {
        assert(m.in_flight == Some(id));
        assert forall|i: int| 0 <= i < never.len() implies other_than(id)(#[trigger] never[i]) by {
            let skipped = result_ids(r.filter(has_outcome(Outcome::Skipped)));
            if i < skipped.len() {
                assert(skipped.contains(never[i]));
                if never[i] == id {
                    lemma_ids_of_filter(r, has_outcome(Outcome::Skipped), id);
                    let j = choose|j: int|
                        0 <= j < r.len() && r[j].trainee_id == id && has_outcome(Outcome::Skipped)(r[j]);
                    lemma_result_id_at(r, j);
                }
            } else {
                assert(m.pending[i - skipped.len()] == never[i]);
                assert(m.pending.contains(never[i]));
            }
        }
        lemma_filter_keeps_all(never, other_than(id));
    }
    lemma_skips_and_rest(r);
}

proof fn lemma_filter_within(s: Seq<ResultView>, p: spec_fn(ResultView) -> bool, q: spec_fn(ResultView) -> bool)
    requires
        forall|r: ResultView| #[trigger] q(r) ==> p(r),
    ensures
        s.filter(p).filter(q) == s.filter(q),
    decreases s.len(),
{
    reveal(Seq::filter);
    if s.len() > 0 {
        lemma_filter_within(s.drop_last(), p, q);
        if p(s.last()) {
            assert(s.filter(p) == s.drop_last().filter(p).push(s.last()));
            assert(s.filter(p).drop_last() =~= s.drop_last().filter(p));
        }
    }
}

/// A resume splits the batch it continues in two and loses no one: the
/// trainees it runs and the records it carries name different trainees; what
/// it carries is every result that was not a drained skip, then the trainee in
/// flight (an untracked file's suspect among them); the number it owes an
/// answer for is the number of unconfirmed records it carries; and, when the
/// predecessor's groups added up (and a file without the in-flight key has no
/// marker), the two together make up its `total`. Provided the file names each
/// trainee once.
pub proof fn a_resume_splits_the_batch(cp: CheckpointView, tracks_in_flight: bool)
    requires
        file_ids(cp).no_duplicates(),
    ensures
        ({
            let m = marked(promoted(cp, tracks_in_flight));
            let suspect = suspect_of(cp, tracks_in_flight);
            let roster = resume_roster(m, suspect);
            let carried = carried_views(m);
            &&& forall|x: Seq<char>|
                #[trigger] roster.contains(x) ==> !result_ids(carried).contains(x)
            &&& result_ids(carried) == result_ids(cp.results.filter(not_skipped())) + opt_seq(
                m.in_flight,
            )
            &&& m.in_flight == match suspect {
                Some(id) => if cp.in_flight is None {
                    Some(id)
                } else {
                    cp.in_flight
                },
                None => cp.in_flight,
            }
            &&& carried.filter(has_outcome(Outcome::Indeterminate)) == m.unconfirmed()
            &&& (cp.partitioned() && (!tracks_in_flight ==> cp.in_flight is None)) ==> roster.len()
                + carried.len() == cp.total
        }),
{
    let m = marked(promoted(cp, tracks_in_flight));
    resume_never_replays(cp, tracks_in_flight);
    if cp.partitioned() && (!tracks_in_flight ==> cp.in_flight is None) {
        resume_accounts_for_the_batch(cp, tracks_in_flight);
    }
    let kept = m.results.filter(not_skipped());
    let tail = opt_seq(m.in_flight_record());
    assert(result_ids(kept + tail) =~= result_ids(kept) + opt_seq(m.in_flight));
    lemma_filter_within(m.results, not_skipped(), has_outcome(Outcome::Indeterminate));
    Seq::filter_distributes_over_add(kept, tail, has_outcome(Outcome::Indeterminate));
    reveal(Seq::filter);
    assert(tail.filter(has_outcome(Outcome::Indeterminate)) =~= tail);
}

/// Reconciling a file rewrites its status and, for an untracked file, where
/// its suspect sits; it never drops a record: the results, the count, the
/// clock and the number of trainees the groups place are all as they were.
pub proof fn reconciling_keeps_every_record(cp: CheckpointView, tracks_in_flight: bool)
    ensures
        ({
            let m = marked(promoted(cp, tracks_in_flight));
            &&& m.results == cp.results
            &&& m.total == cp.total
            &&& m.started_at == cp.started_at
            &&& m.updated_at == cp.updated_at
            &&& m.accounted() == cp.accounted()
            &&& m.unconfirmed().len() >= cp.unconfirmed().len()
            &&& tracks_in_flight ==> m.pending == cp.pending && m.in_flight == cp.in_flight
            &&& !m.is_live()
        }),
{
}

} // verus!
