use dssp_bot::state::{can_transition, is_active, AutomationState, StateMachine};

use AutomationState::{
    Complete, FillingForm, Idle, Initializing, LoadingTrainee, OpeningForm, Paused, Retrying,
    Stopped, Submitting, Validating, Verifying,
};

#[test]
fn happy_path_for_one_trainee() {
    let mut m = StateMachine::new();
    for step in [
        Initializing,
        LoadingTrainee,
        OpeningForm,
        FillingForm,
        Validating,
        Submitting,
        Verifying,
    ] {
        assert!(m.transition_to(step).is_ok(), "stuck before {step:?}");
    }
    // After verifying, the engine loops to the next trainee.
    assert!(m.transition_to(LoadingTrainee).is_ok());
    assert!(m.transition_to(Complete).is_ok());
}

#[test]
fn rejects_illegal_jumps() {
    let mut m = StateMachine::new();
    assert!(m.transition_to(Submitting).is_err()); // idle can only initialize
    assert!(m.transition_to(Initializing).is_ok());
    assert!(m.transition_to(Verifying).is_err()); // must load/fill/validate first
}

#[test]
fn retry_and_reset() {
    let mut m = StateMachine::new();
    m.transition_to(Initializing).unwrap();
    m.transition_to(LoadingTrainee).unwrap();
    m.transition_to(OpeningForm).unwrap();
    m.transition_to(FillingForm).unwrap();
    m.transition_to(Validating).unwrap();
    m.transition_to(Submitting).unwrap();
    assert!(m.transition_to(Retrying).is_ok());
    assert!(m.transition_to(Submitting).is_ok()); // retry re-submits
    m.reset();
    assert_eq!(m.state(), Idle);
}

#[test]
fn active_flag() {
    assert!(is_active(Submitting));
    assert!(!is_active(Idle));
    assert!(!is_active(Complete));
}

#[test]
fn an_illegal_jump_names_both_states_and_leaves_the_machine_where_it_was() {
    let mut m = StateMachine::new();
    let err = m.transition_to(Verifying).unwrap_err();
    assert_eq!(err, "illegal state transition: Idle -> Verifying");
    assert_eq!(m.state(), Idle);
}

#[test]
fn every_active_state_may_pause_stop_or_complete() {
    for from in [
        Initializing,
        LoadingTrainee,
        OpeningForm,
        FillingForm,
        Validating,
        Submitting,
        Verifying,
        Retrying,
    ] {
        assert!(is_active(from));
        for to in [Retrying, LoadingTrainee, Paused, Stopped, Complete] {
            assert!(can_transition(from, to), "{from:?} -> {to:?}");
        }
    }
    assert!(!dssp_bot::state::can_transition(Paused, Submitting));
    assert!(dssp_bot::state::can_transition(Stopped, Idle));
    assert!(!is_active(Paused));
}

#[test]
fn a_finished_run_goes_nowhere_but_back_to_idle() {
    for from in [Stopped, Complete] {
        assert!(can_transition(from, Idle));
        for to in [Initializing, LoadingTrainee, Retrying, Paused, Stopped, Complete] {
            assert!(!can_transition(from, to), "{from:?} -> {to:?}");
        }
    }
    assert!(can_transition(Idle, Initializing));
    assert!(!can_transition(Idle, LoadingTrainee));
}
