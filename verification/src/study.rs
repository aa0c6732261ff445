//! The study: one storage and one sampler, the handle through which an
//! objective asks for parameters, and the loop that runs the objective.

use vstd::prelude::*;
use rand::rngs::StdRng;
use crate::error::TrialError;
use crate::number::within;
use crate::params::Params;
use crate::sampler::{lemma_uniform, uniform, uniform_distribution, Sampler};
use crate::storage::{
    ids_in_order, is_best, keeps_history, none_completed, Storage, MAX_TRIALS,
};
use crate::trial::{FrozenTrial, FrozenTrialView, TrialState};

verus! {

/// Owns the storage and the sampler for as long as it lives.
#[derive(Debug)]
pub struct Study {
    storage: Storage,
    sampler: Sampler,
}

/// The handle that an objective receives: one trial's id, and the study that
/// the trial belongs to, borrowed and not copied. What is suggested through
/// the handle is drawn from the study's own generator and recorded in the
/// study's own storage.
pub struct Trial<'a> {
    study: &'a mut Study,
    trial_id: u32,
}

/// A trial that did not complete, and why.
#[derive(Debug)]
pub struct TrialFailure {
    pub trial_id: u32,
    pub error: TrialError,
}

/// What suggestions made for trial `trial_id` can change: parameters of that
/// trial are added or replaced while it is running, and nothing else.
pub open spec fn suggested_only(
    before: Seq<FrozenTrialView>,
    after: Seq<FrozenTrialView>,
    trial_id: u32,
) -> bool {
    &&& after.len() == before.len()
    &&& forall|i: int| 0 <= i < before.len() && i != trial_id ==> #[trigger] after[i] == before[i]
    &&& trial_id < before.len() ==> {
        &&& after[trial_id as int].trial_id == before[trial_id as int].trial_id
        &&& after[trial_id as int].state == before[trial_id as int].state
        &&& after[trial_id as int].value == before[trial_id as int].value
        &&& before[trial_id as int].params.dom().subset_of(after[trial_id as int].params.dom())
        &&& before[trial_id as int].finished() ==> after[trial_id as int].params
            == before[trial_id as int].params
    }
}

/// Suggestions for one trial, made one after the other, are suggestions for
/// that trial; making none is one way of making them.
pub proof fn lemma_suggested_only(
    first: Seq<FrozenTrialView>,
    second: Seq<FrozenTrialView>,
    third: Seq<FrozenTrialView>,
    trial_id: u32,
)
    ensures
        suggested_only(first, first, trial_id),
        suggested_only(first, second, trial_id) && suggested_only(second, third, trial_id)
            ==> suggested_only(first, third, trial_id),
{
    if suggested_only(first, second, trial_id) && suggested_only(second, third, trial_id) {
        assert forall|i: int| 0 <= i < first.len() && i != trial_id implies #[trigger] third[i]
            == first[i] by {
            assert(second[i] == first[i]);
        }
    }
}

/// Suggestions keep history.
pub proof fn lemma_suggested_only_keeps_history(
    before: Seq<FrozenTrialView>,
    after: Seq<FrozenTrialView>,
    trial_id: u32,
)
    requires
        suggested_only(before, after, trial_id),
    ensures
        keeps_history(before, after),
{
    assert forall|i: int| 0 <= i < before.len() implies (#[trigger] after[i]).trial_id
        == before[i].trial_id && (before[i].finished() ==> after[i] == before[i]) by {
        if i == trial_id {
            assert(after[i].params =~= before[i].params || !before[i].finished());
        } else {
            assert(after[i] == before[i]);
        }
    }
}

/// Whether a failure is reported for trial `trial_id`.
pub open spec fn reported(failures: Seq<TrialFailure>, trial_id: int) -> bool {
    exists|k: int| 0 <= k < failures.len() && (#[trigger] failures[k]).trial_id == trial_id
}

/// The trials after the outcome of trial `trial_id` has been recorded: a
/// score completes a running trial, and nothing else changes anything.
pub open spec fn recorded(
    before: Seq<FrozenTrialView>,
    trial_id: u32,
    outcome: Result<u64, TrialError>,
) -> Seq<FrozenTrialView> {
    match outcome {
        Ok(value) if trial_id < before.len() && !before[trial_id as int].finished() => before.update(
            trial_id as int,
            before[trial_id as int].with_value(value).with_state(TrialState::Completed),
        ),
        _ => before,
    }
}

/// The capability that a study optimizes: given the handle of a fresh trial,
/// ask for parameters through it and return a score, or fail.
///
/// The handle is an implementation's only way to the study, and the handle
/// offers `suggest_uniform` and `generator`. So between the call and the
/// return nothing changes but the parameters of the handle's trial: that is
/// the contract, and each implementation owes it. What the study proves of
/// its trials it proves from this contract.
pub trait Objective {
    /// Whether `outcome` is what the objective may return for a trial whose
    /// parameters it leaves as `params`. An implementation that says nothing
    /// may return anything.
    open spec fn may_return(
        &self,
        params: Map<Seq<char>, u64>,
        outcome: Result<u64, TrialError>,
    ) -> bool {
        true
    }

    fn objective(&self, trial: Trial<'_>) -> (r: Result<u64, TrialError>)
        requires
            trial.id() < trial.trials().len(),
            trial.trials()[trial.id() as int] == FrozenTrialView::fresh(trial.id()),
        ensures
            suggested_only(trial.trials(), final(trial.borrowed()).trials(), trial.id()),
            self.may_return(final(trial.borrowed()).trials()[trial.id() as int].params, r),
    ;
}

/// How a trial stands once the study has run `objective` on it: completed
/// with the score that the objective returned, or, where a failure is
/// reported for it, still running without a score.
pub open spec fn ran<T: Objective>(
    objective: T,
    trial: FrozenTrialView,
    failures: Seq<TrialFailure>,
) -> bool {
    match trial.value {
        Some(score) => {
            &&& trial.state == TrialState::Completed
            &&& !reported(failures, trial.trial_id as int)
            &&& objective.may_return(trial.params, Ok(score))
        },
        None => trial.state == TrialState::Running && reported(failures, trial.trial_id as int),
    }
}

impl<'a> Trial<'a> {
    /// The borrow of the study that the handle holds.
    pub closed spec fn borrowed(self) -> &'a mut Study {
        self.study
    }

    /// The id of the handle's trial.
    pub closed spec fn id(&self) -> u32 {
        self.trial_id
    }

    /// The trials of the borrowed study, as they stand.
    pub open spec fn trials(self) -> Seq<FrozenTrialView> {
        self.borrowed().trials()
    }

    /// The id of the handle's trial.
    pub fn trial_id(&self) -> (id: u32)
        ensures
            id == self.id(),
    {
        self.trial_id
    }

    /// Binds a handle to a trial id and to the study.
    pub fn new(trial_id: u32, study: &'a mut Study) -> (trial: Trial<'a>)
        ensures
            trial.id() == trial_id,
            *trial.borrowed() == *old(study),
            trial.trials() == old(study).trials(),
            *final(trial.borrowed()) == *final(study),
    {
        Trial { study, trial_id }
    }

    /// Gives the borrow back: the study is then as the handle last saw it.
    /// Dropping the handle does the same; this says so to a caller that has
    /// to prove it.
    pub fn release(self)
        ensures
            *final(self.borrowed()) == *self.borrowed(),
    {
    }

    /// Lends the generator of the study's sampler, from which the caller
    /// draws the number that it then hands to `suggest_uniform`. What the
    /// caller leaves in it is the sampler's generator from then on; the
    /// trials stay as they are.
    pub fn generator(&mut self) -> (generator: &mut StdRng)
        ensures
            *generator == old(self).borrowed().sampler().rng(),
            final(self).borrowed().sampler().rng() == *final(generator),
            final(self).id() == old(self).id(),
            final(self).trials() == old(self).trials(),
            *final(final(self).borrowed()) == *final(old(self).borrowed()),
    {
        self.study.sampler.generator()
    }

    /// The description of the uniform distribution between `low` and `high`,
    /// if the handle's trial exists.
    pub fn uniform_distribution(&self, low: u64, high: u64) -> (r: Result<Params, TrialError>)
        ensures
            r is Ok <==> self.id() < self.trials().len(),
            r matches Ok(distribution) ==> distribution@ == uniform(low, high),
            r matches Err(e) ==> e.is_trial_not_found(),
    {
        match self.study.storage.get_trial(self.trial_id) {
            Some(_) => Ok(uniform_distribution(low, high)),
            None => Err(TrialError::trial_not_found()),
        }
    }

    /// Records `drawn`, one draw from the uniform distribution between `low`
    /// and `high`, as the parameter `name` of the handle's trial, and returns
    /// it. Fails, changing nothing, if the trial does not exist, if `drawn`
    /// does not lie within the bounds, or if the trial is finished, in this
    /// order. A second suggestion under one name replaces the first.
    pub fn suggest_uniform(&mut self, name: &str, low: u64, high: u64, drawn: u64) -> (r: Result<
        u64,
        TrialError,
    >)
        ensures
            final(self).id() == old(self).id(),
            *final(final(self).borrowed()) == *final(old(self).borrowed()),
            suggested_only(
                old(self).trials(),
                final(self).trials(),
                old(self).id(),
            ),
            r is Ok <==> {
                &&& old(self).id() < old(self).trials().len()
                &&& within(low, drawn, high)
                &&& !old(self).trials()[old(self).id() as int].finished()
            },
            r matches Ok(value) ==> {
                &&& value == drawn
                &&& within(low, value, high)
                &&& final(self).trials()[old(self).id() as int].params.dom().contains(name@)
                &&& final(self).trials()[old(self).id() as int].params[name@] == value
                &&& final(self).trials() == old(self).trials().update(
                    old(self).id() as int,
                    old(self).trials()[old(self).id() as int].with_param(name@, drawn),
                )
            },
            r matches Err(e) ==> {
                &&& final(self).trials() == old(self).trials()
                &&& if old(self).id() >= old(self).trials().len() {
                    e.is_trial_not_found()
                } else if !within(low, drawn, high) {
                    crate::sampler::is_refusal(uniform(low, high), e)
                } else {
                    e.is_finished_trial()
                }
            },
    {
        let trial = match self.study.storage.get_trial(self.trial_id) {
            Some(trial) => trial,
            None => {
                return Err(TrialError::trial_not_found());
            },
        };
        let distribution = uniform_distribution(low, high);
        proof {
            lemma_uniform(low, high);
        }
        let value = match self.study.sampler.sample_independent(&trial, name, &distribution, drawn) {
            Ok(value) => value,
            Err(e) => {
                return Err(e);
            },
        };
        match self.study.storage.set_trial_param(self.trial_id, name, value) {
            Ok(()) => Ok(value),
            Err(e) => Err(e),
        }
    }
}

impl Study {
    /// The trials of the study's storage.
    pub closed spec fn trials(&self) -> Seq<FrozenTrialView> {
        self.storage@
    }

    /// The study's sampler.
    pub closed spec fn sampler(&self) -> Sampler {
        self.sampler
    }

    /// A study over the given storage and sampler.
    pub fn new(storage: Storage, sampler: Sampler) -> (study: Study)
        ensures
            study.trials() == storage@,
            study.sampler() == sampler,
    {
        Study { storage, sampler }
    }

    /// The study's storage, to read.
    pub fn storage(&self) -> (storage: &Storage)
        ensures
            storage@ == self.trials(),
    {
        &self.storage
    }

    /// Records what the objective returned for trial `trial_id`. A score is
    /// set as the trial's value and the trial is then completed; a finished
    /// trial refuses that. A failure of the objective is handed back as it
    /// came. Whatever fails leaves the trials as they were.
    pub fn record_outcome(&mut self, trial_id: u32, outcome: Result<u64, TrialError>) -> (r: Result<
        (),
        TrialError,
    >)
        ensures
            final(self).trials() == recorded(old(self).trials(), trial_id, outcome),
            keeps_history(old(self).trials(), final(self).trials()),
            match outcome {
                Err(e) => r == Err::<(), TrialError>(e),
                Ok(_) => if trial_id < old(self).trials().len() && old(self).trials()[trial_id as int].finished() {
                    r matches Err(e) && e.is_finished_trial()
                } else {
                    r is Ok
                },
            },
    {
        let value = match outcome {
            Ok(value) => value,
            Err(e) => {
                return Err(e);
            },
        };
        match self.storage.set_trial_value(trial_id, value) {
            Ok(()) => {},
            Err(e) => {
                return Err(e);
            },
        }
        let r = self.storage.set_trial_state(trial_id, TrialState::Completed);
        assert(self.trials() =~= recorded(old(self).trials(), trial_id, outcome));
        r
    }

    /// Runs the objective on `n_trials` new trials, one after the other, and
    /// returns the failures in the order in which they occurred. A trial
    /// whose objective returns a score is completed with it; a trial whose
    /// objective fails stays running, and the next one is run all the same.
    pub fn optimize<T: Objective>(&mut self, objective: T, n_trials: u32) -> (failures: Vec<
        TrialFailure,
    >)
        requires
            old(self).trials().len() + n_trials <= MAX_TRIALS,
        ensures
            final(self).trials().len() == old(self).trials().len() + n_trials,
            ids_in_order(final(self).trials()),
            keeps_history(old(self).trials(), final(self).trials()),
            forall|i: int|
                0 <= i < old(self).trials().len() ==> #[trigger] final(self).trials()[i]
                    == old(self).trials()[i],
            forall|i: int|
                old(self).trials().len() <= i < final(self).trials().len() ==> ran(
                    objective,
                    #[trigger] final(self).trials()[i],
                    failures@,
                ),
            forall|k: int|
                0 <= k < failures@.len() ==> {
                    &&& old(self).trials().len() <= (#[trigger] failures@[k]).trial_id
                    &&& failures@[k].trial_id < final(self).trials().len()
                    &&& objective.may_return(
                        final(self).trials()[failures@[k].trial_id as int].params,
                        Err(failures@[k].error),
                    )
                },
            forall|k: int, l: int|
                0 <= k < l < failures@.len() ==> failures@[k].trial_id < failures@[l].trial_id,
    {
        let ghost first = self.trials().len();
        proof {
            use_type_invariant(&self.storage);
            self.storage.lemma_well_formed();
        }
        let mut failures: Vec<TrialFailure> = Vec::new();
        let mut done: u32 = 0;
        while done < n_trials
            invariant
                done <= n_trials,
                first == old(self).trials().len(),
                first + n_trials <= MAX_TRIALS,
                self.trials().len() == first + done,
                forall|i: int| 0 <= i < first ==> #[trigger] self.trials()[i] == old(self).trials()[i],
                forall|i: int| 0 <= i < first + done ==> (#[trigger] self.trials()[i]).trial_id == i,
                forall|i: int|
                    first <= i < first + done ==> ran(objective, #[trigger] self.trials()[i], failures@),
                forall|k: int|
                    0 <= k < failures@.len() ==> {
                        &&& first <= (#[trigger] failures@[k]).trial_id < first + done
                        &&& objective.may_return(
                            self.trials()[failures@[k].trial_id as int].params,
                            Err(failures@[k].error),
                        )
                    },
                forall|k: int, l: int|
                    0 <= k < l < failures@.len() ==> failures@[k].trial_id < failures@[l].trial_id,
            decreases n_trials - done,
        {
            let ghost before = self.trials();
            let ghost reports = failures@;
            proof {
                use_type_invariant(&self.storage);
                self.storage.lemma_well_formed();
            }
            let trial_id = self.storage.create_new_trial();
            let ghost created = self.trials();
            let trial = Trial::new(trial_id, self);
            let outcome = objective.objective(trial);
            let ghost suggested = self.trials();
            assert(suggested_only(created, suggested, trial_id));
            assert(objective.may_return(suggested[trial_id as int].params, outcome));
            match self.record_outcome(trial_id, outcome) {
                Ok(()) => {
                    assert(!reported(failures@, trial_id as int));
                },
                Err(error) => {
                    failures.push(TrialFailure { trial_id, error });
                    assert(failures@[reports.len() as int].trial_id == trial_id);
                    assert(reported(failures@, trial_id as int));
                },
            }
            done += 1;
            proof {
                assert forall|i: int| first <= i < first + done implies ran(
                    objective,
                    #[trigger] self.trials()[i],
                    failures@,
                ) by {
                    if i < trial_id {
                        assert(self.trials()[i] == before[i]);
                        if reported(reports, i) {
                            let k = choose|k: int|
                                0 <= k < reports.len() && (#[trigger] reports[k]).trial_id == i;
                            assert(failures@[k].trial_id == i);
                        }
                        if reported(failures@, i) {
                            let k = choose|k: int|
                                0 <= k < failures@.len() && (#[trigger] failures@[k]).trial_id == i;
                            assert(reports[k].trial_id == i);
                        }
                    }
                }
                assert forall|k: int| 0 <= k < failures@.len() implies objective.may_return(
                    self.trials()[(#[trigger] failures@[k]).trial_id as int].params,
                    Err(failures@[k].error),
                ) by {
                    if k < reports.len() {
                        assert(failures@[k] == reports[k]);
                        assert(self.trials()[reports[k].trial_id as int]
                            == before[reports[k].trial_id as int]);
                    }
                }
            }
        }
        proof {
            use_type_invariant(&self.storage);
            self.storage.lemma_well_formed();
        }
        failures
    }

    /// A copy of the best trial so far, as `Storage::get_best_trial` finds it.
    pub fn best_trial(self) -> (r: Option<FrozenTrial>)
        ensures
            r is None <==> none_completed(self.trials()),
            r matches Some(t) ==> is_best(self.trials(), t@.trial_id as int) && t@
                == self.trials()[t@.trial_id as int],
    {
        self.storage.get_best_trial()
    }
}

} // verus!
