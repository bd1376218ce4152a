//! Automation state machine.
//!
//! Guards the per-trainee progression so an illegal jump (e.g. submitting
//! without having loaded a trainee) is a hard error rather than a silent bug.

use vstd::prelude::*;

verus! {

#[derive(Debug, Clone, Copy, PartialEq, Eq, Structural)]
pub enum AutomationState {
    Idle,
    Initializing,
    LoadingTrainee,
    OpeningForm,
    FillingForm,
    Validating,
    Submitting,
    Verifying,
    Retrying,
    Paused,
    Stopped,
    Complete,
}

/// The active (in-flight) states: a batch is doing portal work in these.
pub open spec fn active_state(state: AutomationState) -> bool {
    match state {
        AutomationState::Initializing
        | AutomationState::LoadingTrainee
        | AutomationState::OpeningForm
        | AutomationState::FillingForm
        | AutomationState::Validating
        | AutomationState::Submitting
        | AutomationState::Verifying
        | AutomationState::Retrying => true,
        _ => false,
    }
}

/// What every active state may also do: retry, advance to the next trainee,
/// pause, stop, or complete.
pub open spec fn active_exits() -> Seq<AutomationState> {
    seq![
        AutomationState::Retrying,
        AutomationState::LoadingTrainee,
        AutomationState::Paused,
        AutomationState::Stopped,
        AutomationState::Complete,
    ]
}

/// The transition table: the states `from` may move to, in table order.
pub open spec fn allowed_targets(from: AutomationState) -> Seq<AutomationState> {
    match from {
        AutomationState::Idle => seq![AutomationState::Initializing],
        AutomationState::Initializing => active_exits(),
        AutomationState::LoadingTrainee => seq![AutomationState::OpeningForm] + active_exits(),
        AutomationState::OpeningForm => seq![AutomationState::FillingForm] + active_exits(),
        AutomationState::FillingForm => seq![AutomationState::Validating] + active_exits(),
        AutomationState::Validating => seq![AutomationState::Submitting] + active_exits(),
        AutomationState::Submitting => seq![AutomationState::Verifying] + active_exits(),
        AutomationState::Verifying => seq![AutomationState::LoadingTrainee] + active_exits(),
        AutomationState::Retrying => seq![
            AutomationState::OpeningForm,
            AutomationState::FillingForm,
            AutomationState::Validating,
            AutomationState::Submitting,
            AutomationState::Verifying,
        ] + active_exits(),
        AutomationState::Paused => seq![
            AutomationState::LoadingTrainee,
            AutomationState::Stopped,
            AutomationState::Complete,
        ],
        AutomationState::Stopped => seq![AutomationState::Idle],
        AutomationState::Complete => seq![AutomationState::Idle],
    }
}

/// Whether the table lets `from` move to `to`.
pub open spec fn transition_allowed(from: AutomationState, to: AutomationState) -> bool {
    allowed_targets(from).contains(to)
}

/// The name a state is printed under.
pub open spec fn state_label(state: AutomationState) -> Seq<char> {
    match state {
        AutomationState::Idle => "Idle"@,
        AutomationState::Initializing => "Initializing"@,
        AutomationState::LoadingTrainee => "LoadingTrainee"@,
        AutomationState::OpeningForm => "OpeningForm"@,
        AutomationState::FillingForm => "FillingForm"@,
        AutomationState::Validating => "Validating"@,
        AutomationState::Submitting => "Submitting"@,
        AutomationState::Verifying => "Verifying"@,
        AutomationState::Retrying => "Retrying"@,
        AutomationState::Paused => "Paused"@,
        AutomationState::Stopped => "Stopped"@,
        AutomationState::Complete => "Complete"@,
    }
}

/// The refusal text for an illegal jump.
pub open spec fn illegal_transition_text(from: AutomationState, to: AutomationState) -> Seq<char> {
    "illegal state transition: "@ + state_label(from) + " -> "@ + state_label(to)
}

/// Every active state may retry, move on to the next trainee, pause, stop or
/// complete; only initialization leaves `Idle`; and a stopped or completed run
/// can go nowhere but back to `Idle`.
pub proof fn active_states_can_always_wind_down(from: AutomationState, to: AutomationState)
    ensures
        active_state(from) && active_exits().contains(to) ==> transition_allowed(from, to),
        from == AutomationState::Idle ==> (transition_allowed(from, to) <==> to
            == AutomationState::Initializing),
        (from == AutomationState::Stopped || from == AutomationState::Complete) ==> (
        transition_allowed(from, to) <==> to == AutomationState::Idle),
{
    let targets = allowed_targets(from);
    if active_state(from) && active_exits().contains(to) {
        let k = choose|k: int| 0 <= k < active_exits().len() && active_exits()[k] == to;
        let offset = targets.len() - active_exits().len();
        assert(targets[offset + k] == to);
    }
    if from == AutomationState::Idle || from == AutomationState::Stopped || from
        == AutomationState::Complete {
        if transition_allowed(from, to) {
            let k = choose|k: int| 0 <= k < targets.len() && targets[k] == to;
            assert(targets.len() == 1);
        } else {
            assert(targets[0] != to);
        }
    }
}

/// Whether `to` is one of the moves every active state may make: retry, load
/// the next trainee, pause, stop or complete.
pub open spec fn winds_down(to: AutomationState) -> bool {
    to == AutomationState::Retrying || to == AutomationState::LoadingTrainee || to
        == AutomationState::Paused || to == AutomationState::Stopped || to
        == AutomationState::Complete
}

/// The legal moves, state by state: idle only initializes; each form step
/// moves on to the next one (and verifying back to the next trainee); a retry
/// may go back to any form step; every active state may also wind down; a
/// paused run may resume with the next trainee, stop or complete; a stopped or
/// completed run only goes back to idle.
pub proof fn the_legal_moves(from: AutomationState, to: AutomationState)
    ensures
        transition_allowed(from, to) <==> match from {
            AutomationState::Idle => to == AutomationState::Initializing,
            AutomationState::Initializing => winds_down(to),
            AutomationState::LoadingTrainee => to == AutomationState::OpeningForm || winds_down(to),
            AutomationState::OpeningForm => to == AutomationState::FillingForm || winds_down(to),
            AutomationState::FillingForm => to == AutomationState::Validating || winds_down(to),
            AutomationState::Validating => to == AutomationState::Submitting || winds_down(to),
            AutomationState::Submitting => to == AutomationState::Verifying || winds_down(to),
            AutomationState::Verifying => to == AutomationState::LoadingTrainee || winds_down(to),
            AutomationState::Retrying => to == AutomationState::OpeningForm || to
                == AutomationState::FillingForm || to == AutomationState::Validating || to
                == AutomationState::Submitting || to == AutomationState::Verifying || winds_down(
                to,
            ),
            AutomationState::Paused => to == AutomationState::LoadingTrainee || to
                == AutomationState::Stopped || to == AutomationState::Complete,
            AutomationState::Stopped => to == AutomationState::Idle,
            AutomationState::Complete => to == AutomationState::Idle,
        },
{
    broadcast use {
        vstd::seq_lib::lemma_seq_contains_after_push,
        vstd::seq_lib::lemma_seq_concat_contains_all_elements,
        vstd::seq_lib::lemma_seq_empty_contains_nothing,
    };

}

/// A paused run may resume by loading the next trainee, and may instead stop
/// or complete; it can do nothing else.
pub proof fn a_paused_run_may_resume(to: AutomationState)
    ensures
        transition_allowed(AutomationState::Paused, AutomationState::LoadingTrainee),
        transition_allowed(AutomationState::Paused, AutomationState::Stopped),
        transition_allowed(AutomationState::Paused, AutomationState::Complete),
        transition_allowed(AutomationState::Paused, to) ==> (to == AutomationState::LoadingTrainee
            || to == AutomationState::Stopped || to == AutomationState::Complete),
{
    the_legal_moves(AutomationState::Paused, to);
    the_legal_moves(AutomationState::Paused, AutomationState::LoadingTrainee);
    the_legal_moves(AutomationState::Paused, AutomationState::Stopped);
    the_legal_moves(AutomationState::Paused, AutomationState::Complete);
}

pub fn is_active(state: AutomationState) -> (active: bool)
    ensures
        active == active_state(state),
{
    match state {
        AutomationState::Initializing
        | AutomationState::LoadingTrainee
        | AutomationState::OpeningForm
        | AutomationState::FillingForm
        | AutomationState::Validating
        | AutomationState::Submitting
        | AutomationState::Verifying
        | AutomationState::Retrying => true,
        _ => false,
    }
}

/// Every active state may also retry, advance to the next trainee, pause,
/// stop, or complete.
fn from_active(next: Vec<AutomationState>) -> (all: Vec<AutomationState>)
    ensures
        all@ == next@ + active_exits(),
{
    let mut next = next;
    next.push(AutomationState::Retrying);
    next.push(AutomationState::LoadingTrainee);
    next.push(AutomationState::Paused);
    next.push(AutomationState::Stopped);
    next.push(AutomationState::Complete);
    next
}

fn allowed(from: AutomationState) -> (targets: Vec<AutomationState>)
    ensures
        targets@ == allowed_targets(from),
{
    match from {
        AutomationState::Idle => vec![AutomationState::Initializing],
        AutomationState::Initializing => from_active(vec![]),
        AutomationState::LoadingTrainee => from_active(vec![AutomationState::OpeningForm]),
        AutomationState::OpeningForm => from_active(vec![AutomationState::FillingForm]),
        AutomationState::FillingForm => from_active(vec![AutomationState::Validating]),
        AutomationState::Validating => from_active(vec![AutomationState::Submitting]),
        AutomationState::Submitting => from_active(vec![AutomationState::Verifying]),
        AutomationState::Verifying => from_active(vec![AutomationState::LoadingTrainee]),
        AutomationState::Retrying => from_active(
            vec![
                AutomationState::OpeningForm,
                AutomationState::FillingForm,
                AutomationState::Validating,
                AutomationState::Submitting,
                AutomationState::Verifying,
            ],
        ),
        AutomationState::Paused => vec![
            AutomationState::LoadingTrainee,
            AutomationState::Stopped,
            AutomationState::Complete,
        ],
        AutomationState::Stopped => vec![AutomationState::Idle],
        AutomationState::Complete => vec![AutomationState::Idle],
    }
}

pub fn can_transition(from: AutomationState, to: AutomationState) -> (ok: bool)
    ensures
        ok == transition_allowed(from, to),
{
    let targets = allowed(from);
    let mut i: usize = 0;
    while i < targets.len()
        invariant
            targets@ == allowed_targets(from),
            i <= targets.len(),
            forall|j: int| 0 <= j < i ==> targets@[j] != to,
        decreases targets.len() - i,
    {
        if targets[i] == to {
            return true;
        }
        i += 1;
    }
    false
}

/// The printed name of a state.
fn label(state: AutomationState) -> (name: &'static str)
    ensures
        name@ == state_label(state),
{
    match state {
        AutomationState::Idle => "Idle",
        AutomationState::Initializing => "Initializing",
        AutomationState::LoadingTrainee => "LoadingTrainee",
        AutomationState::OpeningForm => "OpeningForm",
        AutomationState::FillingForm => "FillingForm",
        AutomationState::Validating => "Validating",
        AutomationState::Submitting => "Submitting",
        AutomationState::Verifying => "Verifying",
        AutomationState::Retrying => "Retrying",
        AutomationState::Paused => "Paused",
        AutomationState::Stopped => "Stopped",
        AutomationState::Complete => "Complete",
    }
}

#[derive(Debug)]
pub struct StateMachine {
    current: AutomationState,
}

impl View for StateMachine {
    type V = AutomationState;

    closed spec fn view(&self) -> AutomationState {
        self.current
    }
}

impl Default for StateMachine {
    fn default() -> (machine: Self)
        ensures
            machine@ == AutomationState::Idle,
    {
        StateMachine { current: AutomationState::Idle }
    }
}

impl StateMachine {
    pub fn new() -> (machine: Self)
        ensures
            machine@ == AutomationState::Idle,
    {
        Self::default()
    }

    pub fn state(&self) -> (state: AutomationState)
        ensures
            state == self@,
    {
        self.current
    }

    pub fn is_active(&self) -> (active: bool)
        ensures
            active == active_state(self@),
    {
        is_active(self.current)
    }

    pub fn can_transition_to(&self, next: AutomationState) -> (ok: bool)
        ensures
            ok == transition_allowed(self@, next),
    {
        can_transition(self.current, next)
    }

    /// Move to `next` when the table allows it; otherwise stay put and say why.
    pub fn transition_to(&mut self, next: AutomationState) -> (outcome: Result<(), String>)
        ensures
            transition_allowed(old(self)@, next) ==> outcome is Ok && final(self)@ == next,
            !transition_allowed(old(self)@, next) ==> {
                &&& final(self)@ == old(self)@
                &&& outcome matches Err(message) && message@ == illegal_transition_text(
                    old(self)@,
                    next,
                )
            },
    {
        if !self.can_transition_to(next) {
            let mut message = String::from_str("illegal state transition: ");
            message.append(label(self.current));
            message.append(" -> ");
            message.append(label(next));
            return Err(message);
        }
        self.current = next;
        Ok(())
    }

    pub fn reset(&mut self)
        ensures
            final(self)@ == AutomationState::Idle,
    {
        self.current = AutomationState::Idle;
    }
}

} // verus!
