//! The append-only list of trials.

use vstd::prelude::*;
use crate::error::TrialError;
use crate::number::{value_key, value_rank};
use crate::trial::{FrozenTrial, FrozenTrialView, TrialState};

verus! {

/// Position `best` holds the best trial of `trials`: it is completed, no
/// completed trial ranks before it, and every completed trial in front of it
/// ranks strictly after it.
pub open spec fn is_best(trials: Seq<FrozenTrialView>, best: int) -> bool {
    &&& 0 <= best < trials.len()
    &&& trials[best].state == TrialState::Completed
    &&& forall|j: int|
        0 <= j < trials.len() && (#[trigger] trials[j]).state == TrialState::Completed
            ==> value_rank(trials[best].value) <= value_rank(trials[j].value)
    &&& forall|j: int|
        0 <= j < best && (#[trigger] trials[j]).state == TrialState::Completed ==> value_rank(
            trials[best].value,
        ) < value_rank(trials[j].value)
}

/// No trial of `trials` is completed.
pub open spec fn none_completed(trials: Seq<FrozenTrialView>) -> bool {
    forall|j: int| 0 <= j < trials.len() ==> (#[trigger] trials[j]).state != TrialState::Completed
}

/// Each trial's id is its position.
pub open spec fn ids_in_order(trials: Seq<FrozenTrialView>) -> bool {
    forall|i: int| 0 <= i < trials.len() ==> (#[trigger] trials[i]).trial_id == i
}

/// What every change to the trials keeps: no trial is removed or renumbered,
/// and a finished trial stays exactly as it is.
pub open spec fn keeps_history(before: Seq<FrozenTrialView>, after: Seq<FrozenTrialView>) -> bool {
    &&& before.len() <= after.len()
    &&& forall|i: int|
        0 <= i < before.len() ==> (#[trigger] after[i]).trial_id == before[i].trial_id && (
        before[i].finished() ==> after[i] == before[i])
}

/// The most trials that one storage can number.
pub const MAX_TRIALS: u64 = 0x1_0000_0000;

/// Owns the trials. A trial's id is its position; trials are appended and
/// never removed or reordered.
///
/// A method that changes a trial takes the list out of the storage, changes
/// it, and puts it back, so that the storage is well-formed at every moment.
#[derive(Debug)]
pub struct Storage {
    trials: Vec<FrozenTrial>,
}

impl View for Storage {
    type V = Seq<FrozenTrialView>;

    closed spec fn view(&self) -> Seq<FrozenTrialView> {
        Seq::new(self.trials@.len(), |i: int| self.trials@[i]@)
    }
}

impl Storage {
    #[verifier::type_invariant]
    pub closed spec fn well_formed(&self) -> bool {
        &&& self.trials@.len() <= MAX_TRIALS
        &&& forall|i: int| 0 <= i < self.trials@.len() ==> (#[trigger] self.trials@[i]).trial_id == i
    }

    /// In a well-formed storage ids are positions, and all of them fit.
    pub proof fn lemma_well_formed(&self)
        requires
            self.well_formed(),
        ensures
            ids_in_order(self@),
            self@.len() <= MAX_TRIALS,
    {
    }

    /// A storage without trials.
    pub fn new() -> (s: Storage)
        ensures
            s@ == Seq::<FrozenTrialView>::empty(),
    {
        let s = Storage { trials: Vec::new() };
        assert(s@ =~= Seq::<FrozenTrialView>::empty());
        s
    }

    /// How many trials there are.
    pub fn len(&self) -> (n: usize)
        ensures
            n == self@.len(),
    {
        self.trials.len()
    }

    /// Appends a running trial and returns its id, the next unused one.
    pub fn create_new_trial(&mut self) -> (trial_id: u32)
        requires
            old(self)@.len() < MAX_TRIALS,
        ensures
            trial_id == old(self)@.len(),
            final(self)@ == old(self)@.push(FrozenTrialView::fresh(trial_id)),
            keeps_history(old(self)@, final(self)@),
    {
        proof {
            use_type_invariant(&*self);
        }
        let trial_id: u32 = self.trials.len() as u32;
        let mut trials: Vec<FrozenTrial> = Vec::new();
        std::mem::swap(&mut trials, &mut self.trials);
        trials.push(FrozenTrial::new(trial_id));
        self.trials = trials;
        assert(self@ =~= old(self)@.push(FrozenTrialView::fresh(trial_id)));
        trial_id
    }

    /// A copy of the trial with this id, if there is one.
    pub fn get_trial(&self, trial_id: u32) -> (r: Option<FrozenTrial>)
        ensures
            match r {
                Some(t) => trial_id < self@.len() && t@ == self@[trial_id as int] && t@.trial_id
                    == trial_id,
                None => trial_id >= self@.len(),
            },
    {
        proof {
            use_type_invariant(self);
        }
        let i: usize = trial_id as usize;
        if i < self.trials.len() {
            Some(self.trials[i].clone())
        } else {
            None
        }
    }

    /// Where a write to `trial_id` goes: nowhere if there is no such trial,
    /// to its position if it is running, and to a failure if it is finished.
    fn writable(&self, trial_id: u32) -> (r: Result<Option<usize>, TrialError>)
        ensures
            match r {
                Ok(None) => trial_id >= self@.len(),
                Ok(Some(i)) => i == trial_id && trial_id < self@.len() && !self@[trial_id as int].finished(),
                Err(e) => trial_id < self@.len() && self@[trial_id as int].finished()
                    && e.is_finished_trial(),
            },
    {
        let i: usize = trial_id as usize;
        if i >= self.trials.len() {
            Ok(None)
        } else if self.trials[i].is_finished() {
            Err(TrialError::finished_trial())
        } else {
            Ok(Some(i))
        }
    }

    /// Sets the score of a running trial. A trial that is not there is left
    /// out in silence; a finished one refuses the write.
    pub fn set_trial_value(&mut self, trial_id: u32, value: u64) -> (r: Result<(), TrialError>)
        ensures
            r is Err <==> trial_id < old(self)@.len() && old(self)@[trial_id as int].finished(),
            r matches Err(e) ==> e.is_finished_trial() && final(self)@ == old(self)@,
            keeps_history(old(self)@, final(self)@),
            r is Ok ==> final(self)@ == if trial_id < old(self)@.len() {
                old(self)@.update(trial_id as int, old(self)@[trial_id as int].with_value(value))
            } else {
                old(self)@
            },
    {
        proof {
            use_type_invariant(&*self);
        }
        match self.writable(trial_id) {
            Err(e) => Err(e),
            Ok(None) => Ok(()),
            Ok(Some(i)) => {
                let mut trials: Vec<FrozenTrial> = Vec::new();
                std::mem::swap(&mut trials, &mut self.trials);
                trials[i].value = Some(value);
                self.trials = trials;
                assert(self@ =~= old(self)@.update(
                    trial_id as int,
                    old(self)@[trial_id as int].with_value(value),
                ));
                Ok(())
            },
        }
    }

    /// Sets the state of a running trial. A trial that is not there is left
    /// out in silence; a finished one refuses the write.
    pub fn set_trial_state(&mut self, trial_id: u32, state: TrialState) -> (r: Result<
        (),
        TrialError,
    >)
        ensures
            r is Err <==> trial_id < old(self)@.len() && old(self)@[trial_id as int].finished(),
            r matches Err(e) ==> e.is_finished_trial() && final(self)@ == old(self)@,
            keeps_history(old(self)@, final(self)@),
            r is Ok ==> final(self)@ == if trial_id < old(self)@.len() {
                old(self)@.update(trial_id as int, old(self)@[trial_id as int].with_state(state))
            } else {
                old(self)@
            },
    {
        proof {
            use_type_invariant(&*self);
        }
        match self.writable(trial_id) {
            Err(e) => Err(e),
            Ok(None) => Ok(()),
            Ok(Some(i)) => {
                let mut trials: Vec<FrozenTrial> = Vec::new();
                std::mem::swap(&mut trials, &mut self.trials);
                trials[i].state = state;
                self.trials = trials;
                assert(self@ =~= old(self)@.update(
                    trial_id as int,
                    old(self)@[trial_id as int].with_state(state),
                ));
                Ok(())
            },
        }
    }

    /// Records a sampled parameter of a running trial, in place of an earlier
    /// one of the same name. A trial that is not there is left out in
    /// silence; a finished one refuses the write.
    pub fn set_trial_param(&mut self, trial_id: u32, name: &str, value: u64) -> (r: Result<
        (),
        TrialError,
    >)
        ensures
            r is Err <==> trial_id < old(self)@.len() && old(self)@[trial_id as int].finished(),
            r matches Err(e) ==> e.is_finished_trial() && final(self)@ == old(self)@,
            keeps_history(old(self)@, final(self)@),
            r is Ok ==> final(self)@ == if trial_id < old(self)@.len() {
                old(self)@.update(
                    trial_id as int,
                    old(self)@[trial_id as int].with_param(name@, value),
                )
            } else {
                old(self)@
            },
    {
        proof {
            use_type_invariant(&*self);
        }
        match self.writable(trial_id) {
            Err(e) => Err(e),
            Ok(None) => Ok(()),
            Ok(Some(i)) => {
                let mut trials: Vec<FrozenTrial> = Vec::new();
                std::mem::swap(&mut trials, &mut self.trials);
                trials[i].params.insert(name, value);
                self.trials = trials;
                assert(self@ =~= old(self)@.update(
                    trial_id as int,
                    old(self)@[trial_id as int].with_param(name@, value),
                ));
                Ok(())
            },
        }
    }

    /// A copy of the best trial: among the completed ones the one of least
    /// score, and among several of least score the one of least id. Scores
    /// rank as `number::value_rank` says.
    pub fn get_best_trial(&self) -> (r: Option<FrozenTrial>)
        ensures
            r is None <==> none_completed(self@),
            r matches Some(t) ==> is_best(self@, t@.trial_id as int) && t@ == self@[t@.trial_id as int],
    {
        proof {
            use_type_invariant(self);
        }
        let mut best: Option<usize> = None;
        let mut best_key: i64 = 0;
        let mut i: usize = 0;
        while i < self.trials.len()
            invariant
                i <= self.trials@.len(),
                self.trials@.len() == self@.len(),
                best is None ==> none_completed(self@.take(i as int)),
                best matches Some(b) ==> b < i && is_best(self@.take(i as int), b as int) && best_key
                    == value_rank(self@[b as int].value),
            decreases self.trials@.len() - i,
        {
            let ghost before = self@.take(i as int);
            let ghost after = self@.take(i + 1);
            assert(forall|j: int| 0 <= j < i ==> after[j] == before[j]);
            assert(after[i as int] == self@[i as int]);
            let trial = &self.trials[i];
            match trial.state {
                TrialState::Completed => {
                    let key = value_key(trial.value);
                    match best {
                        None => {
                            best = Some(i);
                            best_key = key;
                        },
                        Some(b) => {
                            if key < best_key {
                                best = Some(i);
                                best_key = key;
                            }
                        },
                    }
                },
                _ => {},
            }
            i += 1;
            proof {
                match best {
                    None => {
                        assert(none_completed(after));
                    },
                    Some(b) => {
                        assert(is_best(after, b as int));
                    },
                }
            }
        }
        assert(self@.take(i as int) == self@);
        match best {
            None => None,
            Some(b) => Some(self.trials[b].clone()),
        }
    }
}

/// At most one position holds the best trial.
pub proof fn lemma_best_unique(trials: Seq<FrozenTrialView>, a: int, b: int)
    requires
        is_best(trials, a),
        is_best(trials, b),
    ensures
        a == b,
{
    if a < b {
        assert(trials[a].state == TrialState::Completed);
    } else if b < a {
        assert(trials[b].state == TrialState::Completed);
    }
}

/// Keeping history is reflexive and transitive: whatever a run of changes
/// does, each of which keeps history, keeps history.
pub proof fn lemma_keeps_history(
    first: Seq<FrozenTrialView>,
    second: Seq<FrozenTrialView>,
    third: Seq<FrozenTrialView>,
)
    ensures
        keeps_history(first, first),
        keeps_history(first, second) && keeps_history(second, third) ==> keeps_history(first, third),
{
    if keeps_history(first, second) && keeps_history(second, third) {
        assert forall|i: int| 0 <= i < first.len() implies (#[trigger] third[i]).trial_id
            == first[i].trial_id && (first[i].finished() ==> third[i] == first[i]) by {
            assert(second[i].trial_id == first[i].trial_id);
        }
    }
}

/// While history is kept the best score never gets worse.
pub proof fn lemma_best_never_worsens(
    before: Seq<FrozenTrialView>,
    after: Seq<FrozenTrialView>,
    b: int,
    a: int,
)
    requires
        keeps_history(before, after),
        is_best(before, b),
        is_best(after, a),
    ensures
        value_rank(after[a].value) <= value_rank(before[b].value),
{
    assert(after[b] == before[b]);
}

/// There is a best trial exactly when some trial is completed.
pub proof fn lemma_best_exists(trials: Seq<FrozenTrialView>)
    ensures
        none_completed(trials) <==> !exists|b: int| is_best(trials, b),
    decreases trials.len(),
{
    if trials.len() > 0 {
        let front = trials.drop_last();
        let last = trials.len() - 1;
        lemma_best_exists(front);
        assert(forall|j: int| 0 <= j < last ==> front[j] == trials[j]);
        if !none_completed(trials) {
            if none_completed(front) {
                assert(trials[last].state == TrialState::Completed);
                assert(is_best(trials, last));
            } else {
                let f = choose|b: int| is_best(front, b);
                if trials[last].state == TrialState::Completed && value_rank(trials[last].value)
                    < value_rank(trials[f].value) {
                    assert(is_best(trials, last));
                } else {
                    assert(is_best(trials, f));
                }
            }
        } else {
            assert forall|b: int| !is_best(trials, b) by {
                if 0 <= b < trials.len() {
                    assert(trials[b].state != TrialState::Completed);
                }
            }
        }
    } else {
        assert forall|b: int| !is_best(trials, b) by {}
    }
}

} // verus!
