use vstd::prelude::*;

verus! {

/// Progress of the system-profile analysis.
#[derive(Clone, Debug)]
pub enum ProfileState {
    Idle,
    Loading,
    Ready(String),
    Error(String),
}

} // verus!
