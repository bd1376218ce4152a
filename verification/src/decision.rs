//! Retry / stop policy. The coordinator owns every decision; the worker only
//! reports.
//!
//! An indeterminate submission is never retried, a failure that might have
//! reached the portal is treated as indeterminate, and only a provably-safe,
//! transient error is retried (bounded, with backoff).

use vstd::prelude::*;

use crate::protocol::{Response, Status};
use crate::text::{owned, same_text};

verus! {

#[derive(Debug, Clone)]
pub enum Decision {
    /// Definitive, success-side result (confirmed / duplicate). Report and stop.
    Accept(String),
    /// Definitive failure a retry cannot fix (rejected / bad input / no match).
    Reject(String),
    /// Stop and require a human: submitted-but-unconfirmed, a maybe-landed
    /// transport failure, an expired session, or a changed portal.
    Halt(String),
    /// Provably nothing submitted and transient: safe to try again.
    Retry(String),
}

/// A decision as plain values.
pub enum DecisionView {
    Accept(Seq<char>),
    Reject(Seq<char>),
    Halt(Seq<char>),
    Retry(Seq<char>),
}

impl View for Decision {
    type V = DecisionView;

    open spec fn view(&self) -> DecisionView {
        match self {
            Decision::Accept(s) => DecisionView::Accept(s@),
            Decision::Reject(s) => DecisionView::Reject(s@),
            Decision::Halt(s) => DecisionView::Halt(s@),
            Decision::Retry(s) => DecisionView::Retry(s@),
        }
    }
}

pub struct RetryPolicy {
    pub max_attempts: u32,
    pub initial_delay_ms: u64,
    pub max_delay_ms: u64,
    pub backoff_factor: u64,
}

impl Default for RetryPolicy {
    fn default() -> (policy: Self)
        ensures
            policy.max_attempts == 3,
            policy.initial_delay_ms == 500,
            policy.max_delay_ms == 5000,
            policy.backoff_factor == 2,
    {
        RetryPolicy { max_attempts: 3, initial_delay_ms: 500, max_delay_ms: 5_000, backoff_factor: 2 }
    }
}

/// `x`, saturated at the largest `u64`.
pub open spec fn saturate(x: int) -> int {
    if x > u64::MAX {
        u64::MAX as int
    } else {
        x
    }
}

/// `base` raised to `exp`.
pub open spec fn power(base: int, exp: nat) -> int
    decreases exp,
{
    if exp == 0 {
        1
    } else {
        base * power(base, (exp - 1) as nat)
    }
}

/// The wait before retry `attempt` (1-based) under `policy`, in milliseconds:
/// the initial delay grown by the backoff factor once per earlier attempt,
/// every step saturating, then capped at the ceiling.
pub open spec fn backoff_delay(policy: RetryPolicy, attempt: u32) -> int {
    let exp: nat = if attempt == 0 {
        0
    } else {
        (attempt - 1) as nat
    };
    let grown = saturate(policy.initial_delay_ms * saturate(power(policy.backoff_factor as int, exp)));
    if grown < policy.max_delay_ms {
        grown
    } else {
        policy.max_delay_ms as int
    }
}

proof fn lemma_power_nonneg(base: int, exp: nat)
    requires
        base >= 0,
    ensures
        power(base, exp) >= 0,
    decreases exp,
{
    if exp > 0 {
        lemma_power_nonneg(base, (exp - 1) as nat);
        assert(base * power(base, (exp - 1) as nat) >= 0) by (nonlinear_arith)
            requires
                base >= 0,
                power(base, (exp - 1) as nat) >= 0,
        ;
    }
}

/// Saturating product of two `u64`s.
fn saturating_product(a: u64, b: u64) -> (p: u64)
    ensures
        p == saturate(a * b),
{
    match a.checked_mul(b) {
        Some(p) => p,
        None => u64::MAX,
    }
}

proof fn lemma_power_of_small_base(base: int, exp: nat)
    requires
        0 <= base <= 1,
        exp >= 1,
    ensures
        power(base, exp) == base,
    decreases exp,
{
    if exp > 1 {
        lemma_power_of_small_base(base, (exp - 1) as nat);
        assert(base * base == base) by (nonlinear_arith)
            requires
                0 <= base <= 1,
        ;
        assert(power(base, exp) == base * power(base, (exp - 1) as nat));
    } else {
        assert(power(base, 0) == 1);
        assert(power(base, 1) == base * power(base, 0));
    }
}

proof fn lemma_power_grows(base: int, i: nat, j: nat)
    requires
        base >= 1,
        i <= j,
    ensures
        power(base, i) <= power(base, j),
    decreases j,
{
    if i < j {
        lemma_power_grows(base, i, (j - 1) as nat);
        lemma_power_nonneg(base, (j - 1) as nat);
        let before = power(base, (j - 1) as nat);
        assert(base * before >= before) by (nonlinear_arith)
            requires
                base >= 1,
                before >= 0,
        ;
    }
}

/// `base` to the `exp`, saturating at the largest `u64`. Stops as soon as the
/// value saturates, so it takes at most 64 steps whatever `exp` is.
fn saturating_power(base: u64, exp: u32) -> (p: u64)
    ensures
        p == saturate(power(base as int, exp as nat)),
{
    if exp == 0 {
        return 1;
    }
    if base <= 1 {
        proof {
            lemma_power_of_small_base(base as int, exp as nat);
        }
        return base;
    }
    let mut acc: u64 = 1;
    let mut i: u32 = 0;
    while i < exp
        invariant
            i <= exp,
            base >= 2,
            acc == saturate(power(base as int, i as nat)),
        decreases exp - i,
    {
        if acc == u64::MAX {
            proof {
                lemma_power_grows(base as int, i as nat, exp as nat);
            }
            return u64::MAX;
        }
        let ghost before = power(base as int, i as nat);
        proof {
            lemma_power_nonneg(base as int, i as nat);
            assert(power(base as int, (i + 1) as nat) == base * before);
            assert(acc * base == base * acc) by (nonlinear_arith);
        }
        acc = saturating_product(acc, base);
        i += 1;
    }
    acc
}

/// Over the attempts of one trainee the wait never shrinks, provided the
/// backoff factor is at least 1, and it never exceeds the policy's ceiling.
pub proof fn backoff_never_shrinks(policy: RetryPolicy, a: u32, b: u32)
    requires
        policy.backoff_factor >= 1,
        a <= b,
    ensures
        backoff_delay(policy, a) <= backoff_delay(policy, b),
        backoff_delay(policy, b) <= policy.max_delay_ms,
{
    let ea: nat = if a == 0 {
        0
    } else {
        (a - 1) as nat
    };
    let eb: nat = if b == 0 {
        0
    } else {
        (b - 1) as nat
    };
    let f = policy.backoff_factor as int;
    lemma_power_grows(f, ea, eb);
    lemma_power_nonneg(f, ea);
    let pa = saturate(power(f, ea));
    let pb = saturate(power(f, eb));
    assert(0 <= pa <= pb);
    let init = policy.initial_delay_ms as int;
    assert(init * pa <= init * pb) by (nonlinear_arith)
        requires
            init >= 0,
            0 <= pa <= pb,
    ;
}

impl RetryPolicy {
    /// Milliseconds to wait before retry `attempt`.
    pub fn delay_for_attempt(&self, attempt: u32) -> (millis: u64)
        ensures
            millis == backoff_delay(*self, attempt),
            millis <= self.max_delay_ms,
    {
        let exp = attempt.saturating_sub(1);
        let raw = saturating_product(self.initial_delay_ms, saturating_power(self.backoff_factor, exp));
        if raw < self.max_delay_ms {
            raw
        } else {
            self.max_delay_ms
        }
    }
}

/// Codes that a retry can plausibly clear.
pub open spec fn recoverable_code(code: Seq<char>) -> bool {
    code == "ELEMENT_NOT_FOUND"@ || code == "TIMEOUT"@ || code == "NETWORK"@ || code
        == "PORTAL_UNAVAILABLE"@
}

/// Codes that must stop the whole batch.
pub open spec fn batch_abort_code(code: Seq<char>) -> bool {
    code == "SESSION_EXPIRED"@ || code == "PORTAL_STRUCTURE_CHANGED"@
}

fn is_recoverable(code: &str) -> (recoverable: bool)
    ensures
        recoverable == recoverable_code(code@),
{
    same_text(code, "ELEMENT_NOT_FOUND") || same_text(code, "TIMEOUT") || same_text(
        code,
        "NETWORK",
    ) || same_text(code, "PORTAL_UNAVAILABLE")
}

fn aborts_batch(code: &str) -> (aborts: bool)
    ensures
        aborts == batch_abort_code(code@),
{
    same_text(code, "SESSION_EXPIRED") || same_text(code, "PORTAL_STRUCTURE_CHANGED")
}

/// The text std's `Debug` prints for a string: quoted, with escapes.
pub uninterp spec fn debug_quoted(text: Seq<char>) -> Seq<char>;

/// `format!("{:?}", text)`: std's `Debug` rendering of a string slice.
#[verifier::external_body]
fn quoted(text: &str) -> (out: String)
    ensures
        out@ == debug_quoted(text@),
{
    format!("{text:?}")
}

/// The message for an outcome the protocol does not define, printed the way
/// `Debug` prints an optional string.
pub open spec fn unrecognized_text(outcome: Option<Seq<char>>) -> Seq<char> {
    "unrecognized outcome "@ + match outcome {
        Some(o) => "Some("@ + debug_quoted(o) + ")"@,
        None => "None"@,
    }
}

fn unrecognized(outcome: &Option<String>) -> (message: String)
    ensures
        message@ == unrecognized_text(crate::report::opt_text(*outcome)),
{
    let mut message = String::from_str("unrecognized outcome ");
    match outcome {
        Some(o) => {
            message.append("Some(");
            let q = quoted(o.as_str());
            message.append(q.as_str());
            message.append(")");
        },
        None => message.append("None"),
    }
    message
}

/// An optional text, or a fallback.
pub open spec fn text_or(text: Option<String>, fallback: Seq<char>) -> Seq<char> {
    match text {
        Some(s) => s@,
        None => fallback,
    }
}

/// The error code an error reply is read under.
pub open spec fn reply_code(resp: Response) -> Seq<char> {
    text_or(resp.error_code, "SUBMISSION_FAILED"@)
}

/// Whether an error reply proves that nothing was submitted. An absent flag
/// means "unknown", never "safe".
pub open spec fn proves_nothing(resp: Response) -> bool {
    match resp.proves_nothing_submitted {
        Some(flag) => flag,
        None => false,
    }
}

/// `code — message`, as an error is reported.
pub open spec fn code_text(resp: Response) -> Seq<char> {
    reply_code(resp) + " — "@ + text_or(resp.message, ""@)
}

/// The operator-facing decision for a `submit_training` reply.
pub open spec fn decision_for(resp: Response) -> DecisionView {
    match resp.status {
        Status::Okay => {
            let outcome = resp.outcome;
            if outcome is Some && outcome->0@ == "confirmed"@ {
                DecisionView::Accept(
                    match resp.reference {
                        Some(r) => "confirmed (ref "@ + r@ + ")"@,
                        None => "confirmed"@,
                    },
                )
            } else if outcome is Some && outcome->0@ == "duplicate"@ {
                DecisionView::Accept("duplicate — "@ + text_or(resp.message, "already recorded"@))
            } else if outcome is Some && outcome->0@ == "rejected"@ {
                DecisionView::Reject(
                    "rejected — "@ + text_or(resp.message, "portal refused the record"@),
                )
            } else if outcome is Some && outcome->0@ == "indeterminate"@ {
                DecisionView::Halt(
                    "indeterminate — "@ + text_or(resp.message, "no readable result"@)
                        + " (submitted but unconfirmed; verify on the portal before re-running)"@,
                )
            } else {
                DecisionView::Halt(unrecognized_text(crate::report::opt_text(outcome)))
            }
        },
        Status::Error => {
            if batch_abort_code(reply_code(resp)) {
                DecisionView::Halt(code_text(resp))
            } else if !proves_nothing(resp) {
                DecisionView::Halt(
                    code_text(resp) + " (submission may have landed; not retrying)"@,
                )
            } else if recoverable_code(reply_code(resp)) {
                DecisionView::Retry(code_text(resp))
            } else {
                DecisionView::Reject(code_text(resp))
            }
        },
        Status::Ready => DecisionView::Halt("unexpected ready line mid-flow"@),
    }
}

/// Whether an optional text is present and equal to `word`.
fn outcome_is(outcome: &Option<String>, word: &str) -> (is: bool)
    ensures
        is == (outcome is Some && outcome->0@ == word@),
{
    match outcome {
        Some(o) => same_text(o.as_str(), word),
        None => false,
    }
}

/// An optional text's content, or a fallback.
fn text_or_else(text: &Option<String>, fallback: &str) -> (out: String)
    ensures
        out@ == text_or(*text, fallback@),
{
    match text {
        Some(s) => s.clone(),
        None => owned(fallback),
    }
}

/// `code — message` for an error reply.
fn code_message(resp: &Response) -> (out: String)
    ensures
        out@ == code_text(*resp),
{
    let mut out = text_or_else(&resp.error_code, "SUBMISSION_FAILED");
    out.append(" — ");
    let message = text_or_else(&resp.message, "");
    out.append(message.as_str());
    out
}

fn reply_proves_nothing(resp: &Response) -> (flag: bool)
    ensures
        flag == proves_nothing(*resp),
{
    match resp.proves_nothing_submitted {
        Some(flag) => flag,
        None => false,
    }
}

/// Decide what to do with a `submit_training` response.
pub fn decide_submit(resp: &Response) -> (decision: Decision)
    ensures
        decision@ == decision_for(*resp),
{
    match resp.status {
        Status::Okay => {
            if outcome_is(&resp.outcome, "confirmed") {
                match &resp.reference {
                    Some(r) => {
                        let mut text = String::from_str("confirmed (ref ");
                        text.append(r.as_str());
                        text.append(")");
                        Decision::Accept(text)
                    },
                    None => Decision::Accept(String::from_str("confirmed")),
                }
            } else if outcome_is(&resp.outcome, "duplicate") {
                let mut text = String::from_str("duplicate — ");
                let message = text_or_else(&resp.message, "already recorded");
                text.append(message.as_str());
                Decision::Accept(text)
            } else if outcome_is(&resp.outcome, "rejected") {
                let mut text = String::from_str("rejected — ");
                let message = text_or_else(&resp.message, "portal refused the record");
                text.append(message.as_str());
                Decision::Reject(text)
            } else if outcome_is(&resp.outcome, "indeterminate") {
                let mut text = String::from_str("indeterminate — ");
                let message = text_or_else(&resp.message, "no readable result");
                text.append(message.as_str());
                text.append(
                    " (submitted but unconfirmed; verify on the portal before re-running)",
                );
                Decision::Halt(text)
            } else {
                Decision::Halt(unrecognized(&resp.outcome))
            }
        },
        Status::Error => {
            let code = text_or_else(&resp.error_code, "SUBMISSION_FAILED");
            let text = code_message(resp);
            if aborts_batch(code.as_str()) {
                Decision::Halt(text)
            } else if !reply_proves_nothing(resp) {
                let mut text = text;
                text.append(" (submission may have landed; not retrying)");
                Decision::Halt(text)
            } else if is_recoverable(code.as_str()) {
                Decision::Retry(text)
            } else {
                Decision::Reject(text)
            }
        },
        Status::Ready => Decision::Halt(String::from_str("unexpected ready line mid-flow")),
    }
}

/// Batch-oriented settling of a `submit_training` response into a
/// per-trainee result category: what goes in the batch report, and whether to
/// retry.
#[derive(Debug, Clone, PartialEq, Eq)]
pub enum Settle {
    Success,
    Failed { code: String, message: String },
    Indeterminate { message: String },
    Retry { code: String, message: String },
}

/// A settlement as plain values.
pub enum SettleView {
    Success,
    Failed { code: Seq<char>, message: Seq<char> },
    Indeterminate { message: Seq<char> },
    Retry { code: Seq<char>, message: Seq<char> },
}

impl View for Settle {
    type V = SettleView;

    open spec fn view(&self) -> SettleView {
        match self {
            Settle::Success => SettleView::Success,
            Settle::Failed { code, message } => SettleView::Failed {
                code: code@,
                message: message@,
            },
            Settle::Indeterminate { message } => SettleView::Indeterminate { message: message@ },
            Settle::Retry { code, message } => SettleView::Retry { code: code@, message: message@ },
        }
    }
}

/// The batch settlement of a `submit_training` reply.
pub open spec fn settlement_for(resp: Response) -> SettleView {
    match resp.status {
        Status::Okay => {
            let outcome = resp.outcome;
            if outcome is Some && outcome->0@ == "confirmed"@ {
                SettleView::Success
            } else if outcome is Some && outcome->0@ == "duplicate"@ {
                SettleView::Failed {
                    code: "DUPLICATE_RECORD"@,
                    message: text_or(resp.message, "already recorded"@),
                }
            } else if outcome is Some && outcome->0@ == "rejected"@ {
                SettleView::Failed {
                    code: "SUBMISSION_FAILED"@,
                    message: text_or(resp.message, "portal refused the record"@),
                }
            } else if outcome is Some && outcome->0@ == "indeterminate"@ {
                SettleView::Indeterminate { message: text_or(resp.message, "no readable result"@) }
            } else {
                SettleView::Indeterminate {
                    message: unrecognized_text(crate::report::opt_text(outcome)),
                }
            }
        },
        Status::Error => {
            let code = reply_code(resp);
            let message = text_or(resp.message, ""@);
            if proves_nothing(resp) && !batch_abort_code(code) && recoverable_code(code) {
                SettleView::Retry { code, message }
            } else if !proves_nothing(resp) {
                SettleView::Indeterminate {
                    message: code + " — "@ + message + " (submission may have landed)"@,
                }
            } else {
                SettleView::Failed { code, message }
            }
        },
        Status::Ready => SettleView::Indeterminate { message: "unexpected ready line mid-flow"@ },
    }
}

pub fn settle_submit(resp: &Response) -> (settled: Settle)
    ensures
        settled@ == settlement_for(*resp),
{
    match resp.status {
        Status::Okay => {
            if outcome_is(&resp.outcome, "confirmed") {
                Settle::Success
            } else if outcome_is(&resp.outcome, "duplicate") {
                Settle::Failed {
                    code: String::from_str("DUPLICATE_RECORD"),
                    message: text_or_else(&resp.message, "already recorded"),
                }
            } else if outcome_is(&resp.outcome, "rejected") {
                Settle::Failed {
                    code: String::from_str("SUBMISSION_FAILED"),
                    message: text_or_else(&resp.message, "portal refused the record"),
                }
            } else if outcome_is(&resp.outcome, "indeterminate") {
                Settle::Indeterminate {
                    message: text_or_else(&resp.message, "no readable result"),
                }
            } else {
                Settle::Indeterminate { message: unrecognized(&resp.outcome) }
            }
        },
        Status::Error => {
            let code = text_or_else(&resp.error_code, "SUBMISSION_FAILED");
            let proves = reply_proves_nothing(resp);
            let message = text_or_else(&resp.message, "");
            if proves && !aborts_batch(code.as_str()) && is_recoverable(code.as_str()) {
                Settle::Retry { code, message }
            } else if !proves {
                let mut text = code;
                text.append(" — ");
                text.append(message.as_str());
                text.append(" (submission may have landed)");
                Settle::Indeterminate { message: text }
            } else {
                Settle::Failed { code, message }
            }
        },
        Status::Ready => Settle::Indeterminate {
            message: String::from_str("unexpected ready line mid-flow"),
        },
    }
}

/// Only a reply that proves nothing reached the portal, with a transient code
/// that does not stop the batch, is ever retried, on both decision paths; an
/// indeterminate outcome never is.
pub proof fn retry_only_when_provably_unsent(resp: Response)
    ensures
        decision_for(resp) is Retry ==> {
            &&& resp.status == Status::Error
            &&& resp.proves_nothing_submitted == Some(true)
            &&& recoverable_code(reply_code(resp))
            &&& !batch_abort_code(reply_code(resp))
        },
        settlement_for(resp) is Retry ==> {
            &&& resp.status == Status::Error
            &&& resp.proves_nothing_submitted == Some(true)
            &&& recoverable_code(reply_code(resp))
            &&& !batch_abort_code(reply_code(resp))
        },
        (resp.outcome is Some && resp.outcome->0@ == "indeterminate"@ && resp.status
            == Status::Okay) ==> decision_for(resp) is Halt && settlement_for(resp) is Indeterminate,
{
    reveal_strlit("indeterminate");
    reveal_strlit("confirmed");
    reveal_strlit("duplicate");
    reveal_strlit("rejected");
    assert("indeterminate"@.len() != "confirmed"@.len());
    assert("indeterminate"@.len() != "duplicate"@.len());
    assert("indeterminate"@.len() != "rejected"@.len());
}

/// The operator path and the batch path agree on when a submission is retried.
pub proof fn both_paths_retry_alike(resp: Response)
    ensures
        decision_for(resp) is Retry <==> settlement_for(resp) is Retry,
{
}

/// An error that may have reached the portal (its flag is false or absent) is
/// never a clean failure: the operator path halts and the batch path records it
/// as indeterminate.
pub proof fn maybe_landed_is_never_a_clean_failure(resp: Response)
    requires
        resp.status == Status::Error,
        !proves_nothing(resp),
    ensures
        decision_for(resp) is Halt,
        settlement_for(resp) is Indeterminate,
{
}


/// Whether a reply's error code is one a retry can plausibly clear.
pub open spec fn transient_code(resp: Response) -> bool {
    resp.error_code matches Some(c) && (c@ == "ELEMENT_NOT_FOUND"@ || c@ == "TIMEOUT"@ || c@
        == "NETWORK"@ || c@ == "PORTAL_UNAVAILABLE"@)
}

/// Whether a reply's error code means the job has to stop.
pub open spec fn stopping_code(resp: Response) -> bool {
    resp.error_code matches Some(c) && (c@ == "SESSION_EXPIRED"@ || c@
        == "PORTAL_STRUCTURE_CHANGED"@)
}

/// Which error replies that prove nothing was submitted are retried, by code,
/// on both paths: exactly those whose code is ELEMENT_NOT_FOUND, TIMEOUT,
/// NETWORK or PORTAL_UNAVAILABLE. SESSION_EXPIRED and PORTAL_STRUCTURE_CHANGED
/// halt the job (and are failures on the batch path); any other code, a
/// missing one included, is a definitive failure that is not retried.
pub proof fn the_retryable_codes(resp: Response)
    requires
        resp.status == Status::Error,
        resp.proves_nothing_submitted == Some(true),
    ensures
        transient_code(resp) ==> decision_for(resp) is Retry && settlement_for(resp) is Retry,
        stopping_code(resp) ==> decision_for(resp) is Halt && settlement_for(resp) is Failed,
        !transient_code(resp) && !stopping_code(resp) ==> decision_for(resp) is Reject
            && settlement_for(resp) is Failed,
{
    reveal_strlit("ELEMENT_NOT_FOUND");
    reveal_strlit("TIMEOUT");
    reveal_strlit("NETWORK");
    reveal_strlit("PORTAL_UNAVAILABLE");
    reveal_strlit("SESSION_EXPIRED");
    reveal_strlit("PORTAL_STRUCTURE_CHANGED");
    reveal_strlit("SUBMISSION_FAILED");
    let code = reply_code(resp);
    if resp.error_code is None {
        assert(code == "SUBMISSION_FAILED"@);
        assert(code.len() == 17);
        assert(code[1] == 'U');
    } else {
        assert(code == resp.error_code->0@);
    }
    if !transient_code(resp) && !stopping_code(resp) {
        assert(!recoverable_code(code));
        assert(!batch_abort_code(code));
    }
}


/// How an ok reply's outcome is read, on both paths: `confirmed` is accepted
/// and a success; `duplicate` is accepted by the operator path but recorded by
/// a batch as a DUPLICATE_RECORD failure; `rejected` is a definitive failure;
/// `indeterminate`, or any outcome the protocol does not define (none at all
/// included), halts the operator and leaves the batch an unconfirmed record. A
/// ready line mid-flow is never taken for a result. None of these is retried.
pub proof fn the_outcome_table(resp: Response)
    requires
        resp.status == Status::Okay || resp.status == Status::Ready,
    ensures
        !(decision_for(resp) is Retry) && !(settlement_for(resp) is Retry),
        resp.status == Status::Ready ==> decision_for(resp) is Halt && settlement_for(
            resp,
        ) is Indeterminate,
        resp.status == Status::Okay ==> match resp.outcome {
            Some(o) => if o@ == "confirmed"@ {
                decision_for(resp) is Accept && settlement_for(resp) is Success
            } else if o@ == "duplicate"@ {
                decision_for(resp) is Accept && (settlement_for(resp) matches SettleView::Failed {
                    code,
                    ..
                } && code == "DUPLICATE_RECORD"@)
            } else if o@ == "rejected"@ {
                decision_for(resp) is Reject && settlement_for(resp) is Failed
            } else {
                decision_for(resp) is Halt && settlement_for(resp) is Indeterminate
            },
            None => decision_for(resp) is Halt && settlement_for(resp) is Indeterminate,
        },
{
}

} // verus!
