//! The record of one optimization attempt.

use vstd::prelude::*;
use crate::params::Params;

verus! {

/// Where a trial stands. A trial starts as `Running`; the other two states
/// are final.
#[derive(Clone, Copy, Debug, PartialEq, Eq, Structural)]
pub enum TrialState {
    Running,
    Completed,
    Failed,
}

/// What a trial record says, as a mathematical value.
pub struct FrozenTrialView {
    pub trial_id: u32,
    pub state: TrialState,
    pub value: Option<u64>,
    pub params: Map<Seq<char>, u64>,
}

impl FrozenTrialView {
    /// The record of a trial that has just been created.
    pub open spec fn fresh(trial_id: u32) -> FrozenTrialView {
        FrozenTrialView {
            trial_id,
            state: TrialState::Running,
            value: None,
            params: Map::empty(),
        }
    }

    /// Whether the trial has reached a final state.
    pub open spec fn finished(self) -> bool {
        self.state != TrialState::Running
    }

    pub open spec fn with_value(self, value: u64) -> FrozenTrialView {
        FrozenTrialView { value: Some(value), ..self }
    }

    pub open spec fn with_state(self, state: TrialState) -> FrozenTrialView {
        FrozenTrialView { state, ..self }
    }

    pub open spec fn with_param(self, name: Seq<char>, value: u64) -> FrozenTrialView {
        FrozenTrialView { params: self.params.insert(name, value), ..self }
    }
}

/// A snapshot of one trial: its id, its state, its score once it has one,
/// and the parameters sampled for it. Numbers are binary64 encodings.
#[derive(Debug)]
pub struct FrozenTrial {
    pub(crate) trial_id: u32,
    pub(crate) state: TrialState,
    pub(crate) value: Option<u64>,
    pub(crate) params: Params,
}

impl View for FrozenTrial {
    type V = FrozenTrialView;

    open(crate) spec fn view(&self) -> FrozenTrialView {
        FrozenTrialView {
            trial_id: self.trial_id,
            state: self.state,
            value: self.value,
            params: self.params@,
        }
    }
}

impl Clone for FrozenTrial {
    fn clone(&self) -> (r: FrozenTrial)
        ensures
            r@ == self@,
    {
        FrozenTrial {
            trial_id: self.trial_id,
            state: self.state,
            value: self.value,
            params: self.params.clone(),
        }
    }
}

impl FrozenTrial {
    /// A running trial without score or parameters.
    pub fn new(trial_id: u32) -> (t: FrozenTrial)
        ensures
            t@ == FrozenTrialView::fresh(trial_id),
    {
        FrozenTrial { trial_id, state: TrialState::Running, value: None, params: Params::new() }
    }

    pub fn is_finished(&self) -> (r: bool)
        ensures
            r == self@.finished(),
    {
        match self.state {
            TrialState::Running => false,
            _ => true,
        }
    }

    pub fn trial_id(&self) -> (id: u32)
        ensures
            id == self@.trial_id,
    {
        self.trial_id
    }

    pub fn state(&self) -> (s: TrialState)
        ensures
            s == self@.state,
    {
        self.state
    }

    pub fn value(&self) -> (v: Option<u64>)
        ensures
            v == self@.value,
    {
        self.value
    }

    pub fn params(&self) -> (p: &Params)
        ensures
            p@ == self@.params,
    {
        &self.params
    }
}

} // verus!
