//! Wire protocol shared with the worker (version 1).
//!
//! JSON, one object per line, over the worker's stdin/stdout. The `job_id` is
//! echoed on every response; stdout carries protocol lines only. The encoding
//! itself lives with the process that owns the pipe; these are the messages.

use vstd::prelude::*;

use crate::report::{copy_text, opt_text};
use crate::text::{decimal, push_decimal, same_text};

pub mod op;

verus! {

pub const V: u32 = 1;

/// Trainee selector: by id when given, else by name. An ambiguous name match
/// is rejected by the worker: the id must then be supplied, never guessed.
#[derive(Debug, Clone)]
pub struct TraineeRef {
    pub id: Option<String>,
    pub name: Option<String>,
}

/// Training details for one submission. `instructor`/`training_type` may be a
/// portal value or its label; the worker resolves either.
#[derive(Debug, Clone)]
pub struct SessionInput {
    pub training_date: String,
    pub instructor: String,
    pub training_type: String,
}

#[derive(Debug)]
pub struct Request {
    pub v: u32,
    pub job_id: String,
    pub op: &'static str,
    pub trainee_id: Option<String>,
    pub trainee: Option<TraineeRef>,
    pub session: Option<SessionInput>,
}

/// A trainee selector as plain values.
pub struct TraineeRefView {
    pub id: Option<Seq<char>>,
    pub name: Option<Seq<char>>,
}

impl View for TraineeRef {
    type V = TraineeRefView;

    open spec fn view(&self) -> TraineeRefView {
        TraineeRefView { id: opt_text(self.id), name: opt_text(self.name) }
    }
}

impl TraineeRef {
    /// A field-for-field copy.
    pub fn copied(&self) -> (copy: TraineeRef)
        ensures
            copy == *self,
    {
        TraineeRef { id: copy_text(&self.id), name: copy_text(&self.name) }
    }
}

impl SessionInput {
    /// A field-for-field copy.
    pub fn copied(&self) -> (copy: SessionInput)
        ensures
            copy == *self,
    {
        SessionInput {
            training_date: self.training_date.clone(),
            instructor: self.instructor.clone(),
            training_type: self.training_type.clone(),
        }
    }
}

impl Request {
    fn new(job_id: String, op: &'static str) -> (req: Self)
        ensures
            req.v == V,
            req.job_id == job_id,
            req.op == op,
            req.trainee_id is None,
            req.trainee is None,
            req.session is None,
    {
        Request { v: V, job_id, op, trainee_id: None, trainee: None, session: None }
    }

    pub fn ping(job_id: String) -> (req: Self)
        ensures
            req.v == V,
            req.job_id == job_id,
            req.op@ == op::PING@,
            req.trainee_id is None,
            req.trainee is None,
            req.session is None,
    {
        Self::new(job_id, op::PING)
    }

    pub fn ensure_session(job_id: String) -> (req: Self)
        ensures
            req.v == V,
            req.job_id == job_id,
            req.op@ == op::ENSURE_SESSION@,
            req.trainee_id is None,
            req.trainee is None,
            req.session is None,
    {
        Self::new(job_id, op::ENSURE_SESSION)
    }

    pub fn list_trainees(job_id: String) -> (req: Self)
        ensures
            req.v == V,
            req.job_id == job_id,
            req.op@ == op::LIST_TRAINEES@,
            req.trainee_id is None,
            req.trainee is None,
            req.session is None,
    {
        Self::new(job_id, op::LIST_TRAINEES)
    }

    pub fn get_form_options(job_id: String, trainee_id: Option<String>) -> (req: Self)
        ensures
            req.v == V,
            req.job_id == job_id,
            req.op@ == op::GET_FORM_OPTIONS@,
            req.trainee_id == trainee_id,
            req.trainee is None,
            req.session is None,
    {
        let mut req = Self::new(job_id, op::GET_FORM_OPTIONS);
        req.trainee_id = trainee_id;
        req
    }

    pub fn submit_training(job_id: String, trainee: TraineeRef, session: SessionInput) -> (req:
        Self)
        ensures
            req.v == V,
            req.job_id == job_id,
            req.op@ == op::SUBMIT_TRAINING@,
            req.trainee_id is None,
            req.trainee == Some(trainee),
            req.session == Some(session),
    {
        let mut req = Self::new(job_id, op::SUBMIT_TRAINING);
        req.trainee = Some(trainee);
        req.session = Some(session);
        req
    }
}

/// Status of a worker line: the startup handshake (`ready`) or a reply to a
/// request (`ok` / `error`).
#[derive(Debug, Clone, Copy, PartialEq, Eq, Structural)]
pub enum Status {
    Okay,
    Error,
    Ready,
}

#[derive(Debug, Clone)]
pub struct FormOption {
    pub value: String,
    pub label: String,
}

#[derive(Debug, Clone)]
pub struct TraineeInfo {
    pub id: String,
    pub name: String,
    pub sn: String,
    pub course: String,
    pub training_sessions: String,
}

#[derive(Debug, Clone)]
pub struct TraineeResolved {
    pub id: String,
    pub name: String,
}

/// A parsed worker response. Field-level options keep decoding robust against
/// ops that were never asked about.
#[derive(Debug, Clone)]
pub struct Response {
    pub v: u32,
    pub job_id: String,
    pub op: String,
    pub status: Status,
    pub error_code: Option<String>,
    pub message: Option<String>,
    pub proves_nothing_submitted: Option<bool>,
    pub pong: Option<bool>,
    pub authenticated: Option<bool>,
    pub count: Option<u64>,
    pub trainees: Option<Vec<TraineeInfo>>,
    pub instructors: Option<Vec<FormOption>>,
    pub training_types: Option<Vec<FormOption>>,
    pub trainee: Option<TraineeResolved>,
    pub attempts: Option<u32>,
    pub outcome: Option<String>,
    pub reference: Option<String>,
}

/// How a flag is printed.
pub open spec fn flag_text(flag: bool) -> Seq<char> {
    if flag {
        "true"@
    } else {
        "false"@
    }
}

/// The one-line summary of a response, for logs and the final report.
pub open spec fn summary_text(resp: Response) -> Seq<char> {
    match resp.status {
        Status::Okay => match resp.outcome {
            Some(outcome) => "ok outcome="@ + outcome@,
            None => match resp.count {
                Some(count) => "ok count="@ + decimal(count as nat),
                None => "ok"@,
            },
        },
        Status::Error => "error code="@ + match resp.error_code {
            Some(code) => code@,
            None => "?"@,
        } + " proves_nothing_submitted="@ + flag_text(
            match resp.proves_nothing_submitted {
                Some(flag) => flag,
                None => false,
            },
        ),
        Status::Ready => "ready"@,
    }
}

impl Response {
    /// Human-readable summary for logs and the final report.
    pub fn summary(&self) -> (line: String)
        ensures
            line@ == summary_text(*self),
    {
        match self.status {
            Status::Okay => {
                if let Some(outcome) = &self.outcome {
                    let mut line = String::from_str("ok outcome=");
                    line.append(outcome.as_str());
                    line
                } else if let Some(count) = self.count {
                    let mut line = String::from_str("ok count=");
                    push_decimal(&mut line, count);
                    line
                } else {
                    String::from_str("ok")
                }
            },
            Status::Error => {
                let mut line = String::from_str("error code=");
                match &self.error_code {
                    Some(code) => line.append(code.as_str()),
                    None => line.append("?"),
                }
                line.append(" proves_nothing_submitted=");
                let flag = match self.proves_nothing_submitted {
                    Some(flag) => flag,
                    None => false,
                };
                if flag {
                    line.append("true");
                } else {
                    line.append("false");
                }
                line
            },
            Status::Ready => String::from_str("ready"),
        }
    }
}

/// How a status is named in diagnostics.
pub open spec fn status_name(status: Status) -> Seq<char> {
    match status {
        Status::Okay => "Ok"@,
        Status::Error => "Error"@,
        Status::Ready => "Ready"@,
    }
}

/// Why a first line that is not the ready handshake ends the start.
pub open spec fn handshake_text(status: Status) -> Seq<char> {
    "expected ready handshake, got "@ + status_name(status)
}

/// Why a reply under another `job_id` is refused.
pub open spec fn mismatch_text(sent: Seq<char>, received: Seq<char>) -> Seq<char> {
    "job_id mismatch: sent "@ + sent + ", received "@ + received + " — protocol violation"@
}

/// The worker's first line must be the ready handshake.
pub fn handshake(first: &Response) -> (ready: Result<(), String>)
    ensures
        ready is Ok <==> first.status == Status::Ready,
        ready matches Err(m) ==> m@ == handshake_text(first.status),
{
    let name = match first.status {
        Status::Ready => return Ok(()),
        Status::Okay => "Ok",
        Status::Error => "Error",
    };
    proof {
        reveal_strlit("Ok");
        reveal_strlit("Error");
    }
    let mut m = String::from_str("expected ready handshake, got ");
    m.append(name);
    Err(m)
}

/// A reply counts only under the `job_id` it was sent with: anything else is
/// a protocol violation, never a result.
pub fn echoed(req: &Request, resp: Response) -> (reply: Result<Response, String>)
    ensures
        reply is Ok <==> resp.job_id@ == req.job_id@,
        reply matches Ok(r) ==> r == resp,
        reply matches Err(m) ==> m@ == mismatch_text(req.job_id@, resp.job_id@),
{
    if same_text(req.job_id.as_str(), resp.job_id.as_str()) {
        Ok(resp)
    } else {
        let mut m = String::from_str("job_id mismatch: sent ");
        m.append(req.job_id.as_str());
        m.append(", received ");
        m.append(resp.job_id.as_str());
        m.append(" — protocol violation");
        Err(m)
    }
}

} // verus!
