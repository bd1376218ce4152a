//! Operation names understood by the worker.

use vstd::prelude::*;

verus! {

pub const PING: &'static str = "ping";
pub const ENSURE_SESSION: &'static str = "ensure_session";
pub const LIST_TRAINEES: &'static str = "list_trainees";
pub const GET_FORM_OPTIONS: &'static str = "get_form_options";
pub const SUBMIT_TRAINING: &'static str = "submit_training";

} // verus!
