use minituna::{
    ErrorKind, Objective, Sampler, Storage, Study, Trial, TrialError, TrialFailure, TrialState,
};
use rand::rngs::StdRng;
use rand::{Rng, SeedableRng};

const SEED: u64 = 1234;

fn suggest(trial: &mut Trial<'_>, name: &str, low: f64, high: f64) -> Result<f64, TrialError> {
    trial.uniform_distribution(low.to_bits(), high.to_bits())?;
    let drawn: f64 = trial.generator().gen_range(low, high);
    let value = trial.suggest_uniform(name, low.to_bits(), high.to_bits(), drawn.to_bits())?;
    Ok(f64::from_bits(value))
}

fn quadratic(x: f64, y: f64) -> f64 {
    (x - 3.0).powi(2) + (y - 5.0).powi(2)
}

struct Quadratic;

impl Objective for Quadratic {
    fn objective(&self, trial: Trial<'_>) -> Result<u64, TrialError> {
        let mut trial = trial;
        let x = suggest(&mut trial, "x", 0.0, 10.0)?;
        let y = suggest(&mut trial, "y", 0.0, 10.0)?;
        Ok(quadratic(x, y).to_bits())
    }
}

/// Fails on every trial whose id is odd, after one suggestion.
struct FailsOnOdd;

impl Objective for FailsOnOdd {
    fn objective(&self, trial: Trial<'_>) -> Result<u64, TrialError> {
        let mut trial = trial;
        let x = suggest(&mut trial, "x", -1.0, 1.0)?;
        if trial.trial_id() % 2 == 1 {
            Err(TrialError::new("odd trial"))
        } else {
            Ok(x.to_bits())
        }
    }
}

/// Asks twice under one name.
struct AsksTwice;

impl Objective for AsksTwice {
    fn objective(&self, trial: Trial<'_>) -> Result<u64, TrialError> {
        let mut trial = trial;
        let first = suggest(&mut trial, "x", 0.0, 1.0)?;
        let second = suggest(&mut trial, "x", 0.0, 1.0)?;
        assert_ne!(first.to_bits(), second.to_bits());
        Ok(second.to_bits())
    }
}

fn new_study(seed: u64) -> Study {
    Study::new(Storage::new(), Sampler::new(seed))
}

#[test]
fn optimize_zero_trials_changes_nothing() {
    let mut study = new_study(SEED);
    let failures = study.optimize(Quadratic, 0);
    assert!(failures.is_empty());
    assert_eq!(study.storage().len(), 0);
    assert!(study.best_trial().is_none());
}

#[test]
fn optimize_creates_one_trial_per_iteration() {
    for n in [1u32, 2, 17, 64] {
        let mut study = new_study(SEED);
        let failures = study.optimize(Quadratic, n);
        assert!(failures.is_empty());
        assert_eq!(study.storage().len(), n as usize);
        for id in 0..n {
            let t = study.storage().get_trial(id).unwrap();
            assert_eq!(t.trial_id(), id);
            assert_eq!(t.state(), TrialState::Completed);
        }
        assert!(study.storage().get_trial(n).is_none());
    }
}

#[test]
fn optimize_appends_to_earlier_trials() {
    let mut study = new_study(SEED);
    study.optimize(Quadratic, 3);
    let earlier: Vec<Option<u64>> =
        (0..3).map(|id| study.storage().get_trial(id).unwrap().value()).collect();
    study.optimize(Quadratic, 2);
    assert_eq!(study.storage().len(), 5);
    for id in 0..3u32 {
        assert_eq!(study.storage().get_trial(id).unwrap().value(), earlier[id as usize]);
    }
    assert_eq!(study.storage().get_trial(4).unwrap().trial_id(), 4);
}

#[test]
fn one_trial_records_draws_and_score() {
    let mut study = new_study(SEED);
    let failures = study.optimize(Quadratic, 1);
    assert!(failures.is_empty());

    let mut reference = StdRng::seed_from_u64(SEED);
    let x0: f64 = reference.gen_range(0.0, 10.0);
    let y0: f64 = reference.gen_range(0.0, 10.0);
    assert!(0.0 <= x0 && x0 < 10.0);
    assert!(0.0 <= y0 && y0 < 10.0);

    assert_eq!(study.storage().len(), 1);
    let t = study.storage().get_trial(0).unwrap();
    assert_eq!(t.trial_id(), 0);
    assert_eq!(t.state(), TrialState::Completed);
    assert_eq!(t.params().len(), 2);
    assert_eq!(t.params().get("x"), Some(x0.to_bits()));
    assert_eq!(t.params().get("y"), Some(y0.to_bits()));
    assert_eq!(t.value(), Some(quadratic(x0, y0).to_bits()));

    let best = study.best_trial().unwrap();
    assert_eq!(best.trial_id(), 0);
    assert_eq!(best.value(), Some(quadratic(x0, y0).to_bits()));
}

#[test]
fn trials_draw_from_one_advancing_generator() {
    let mut study = new_study(SEED);
    study.optimize(Quadratic, 3);
    let mut reference = StdRng::seed_from_u64(SEED);
    for id in 0..3u32 {
        let x: f64 = reference.gen_range(0.0, 10.0);
        let y: f64 = reference.gen_range(0.0, 10.0);
        let t = study.storage().get_trial(id).unwrap();
        assert_eq!(t.params().get("x"), Some(x.to_bits()));
        assert_eq!(t.params().get("y"), Some(y.to_bits()));
    }
    let a = study.storage().get_trial(0).unwrap().params().get("x");
    let b = study.storage().get_trial(1).unwrap().params().get("x");
    assert_ne!(a, b);
}

#[test]
fn five_hundred_trials_best_is_no_worse_than_first() {
    let mut study = new_study(SEED);
    let failures = study.optimize(Quadratic, 500);
    assert!(failures.is_empty());
    assert_eq!(study.storage().len(), 500);
    let first = f64::from_bits(study.storage().get_trial(0).unwrap().value().unwrap());
    let mut least = f64::INFINITY;
    let mut least_id = 0;
    for id in 0..500u32 {
        let t = study.storage().get_trial(id).unwrap();
        assert_eq!(t.trial_id(), id);
        assert_eq!(t.state(), TrialState::Completed);
        let x = f64::from_bits(t.params().get("x").unwrap());
        let y = f64::from_bits(t.params().get("y").unwrap());
        assert!(0.0 <= x && x < 10.0);
        assert!(0.0 <= y && y < 10.0);
        let v = f64::from_bits(t.value().unwrap());
        assert_eq!(v, quadratic(x, y));
        if v < least {
            least = v;
            least_id = id;
        }
    }
    let best = study.best_trial().unwrap();
    let best_value = f64::from_bits(best.value().unwrap());
    assert!(best_value <= first);
    assert!(best_value >= 0.0);
    assert_eq!(best_value, least);
    assert_eq!(best.trial_id(), least_id);
}

#[test]
fn best_so_far_never_worsens() {
    let mut study = new_study(SEED);
    let mut last = f64::INFINITY;
    for _ in 0..50 {
        study.optimize(Quadratic, 1);
        let best = study.storage().get_best_trial().unwrap();
        let v = f64::from_bits(best.value().unwrap());
        assert!(v <= last);
        last = v;
    }
}

#[test]
fn same_seed_same_study() {
    let mut a = new_study(77);
    let mut b = new_study(77);
    a.optimize(Quadratic, 20);
    b.optimize(Quadratic, 20);
    for id in 0..20u32 {
        let ta = a.storage().get_trial(id).unwrap();
        let tb = b.storage().get_trial(id).unwrap();
        assert_eq!(ta.value(), tb.value());
        assert_eq!(ta.params().get("x"), tb.params().get("x"));
        assert_eq!(ta.params().get("y"), tb.params().get("y"));
    }
}

#[test]
fn failing_objective_is_reported_and_the_loop_goes_on() {
    let mut study = new_study(SEED);
    let failures: Vec<TrialFailure> = study.optimize(FailsOnOdd, 6);
    let ids: Vec<u32> = failures.iter().map(|f| f.trial_id).collect();
    assert_eq!(ids, vec![1, 3, 5]);
    for f in &failures {
        assert_eq!(f.error.kind(), ErrorKind::Objective);
        assert_eq!(f.error.message(), "odd trial");
    }
    assert_eq!(study.storage().len(), 6);
    for id in 0..6u32 {
        let t = study.storage().get_trial(id).unwrap();
        assert_eq!(t.trial_id(), id);
        assert!(t.params().get("x").is_some());
        if id % 2 == 1 {
            assert_eq!(t.state(), TrialState::Running);
            assert_eq!(t.value(), None);
        } else {
            assert_eq!(t.state(), TrialState::Completed);
            assert_eq!(t.value(), t.params().get("x"));
        }
    }
    let best = study.best_trial().unwrap();
    assert_eq!(best.trial_id() % 2, 0);
}

#[test]
fn repeated_name_draws_again_and_keeps_the_last() {
    let mut study = new_study(SEED);
    let failures = study.optimize(AsksTwice, 1);
    assert!(failures.is_empty());
    let mut reference = StdRng::seed_from_u64(SEED);
    let _first: f64 = reference.gen_range(0.0, 1.0);
    let second: f64 = reference.gen_range(0.0, 1.0);
    let t = study.storage().get_trial(0).unwrap();
    assert_eq!(t.params().len(), 1);
    assert_eq!(t.params().get("x"), Some(second.to_bits()));
    assert_eq!(t.value(), Some(second.to_bits()));
}

#[test]
fn record_outcome_completes_a_running_trial() {
    let mut storage = Storage::new();
    let id = storage.create_new_trial();
    let mut study = Study::new(storage, Sampler::new(0));
    assert!(study.record_outcome(id, Ok(1.5f64.to_bits())).is_ok());
    let t = study.storage().get_trial(id).unwrap();
    assert_eq!(t.state(), TrialState::Completed);
    assert_eq!(t.value(), Some(1.5f64.to_bits()));
}

#[test]
fn record_outcome_hands_back_the_objective_failure() {
    let mut storage = Storage::new();
    let id = storage.create_new_trial();
    let mut study = Study::new(storage, Sampler::new(0));
    let e = study.record_outcome(id, Err(TrialError::new("no luck"))).unwrap_err();
    assert_eq!(e.kind(), ErrorKind::Objective);
    assert_eq!(e.message(), "no luck");
    let t = study.storage().get_trial(id).unwrap();
    assert_eq!(t.state(), TrialState::Running);
    assert_eq!(t.value(), None);
}

#[test]
fn record_outcome_refuses_a_finished_trial() {
    let mut storage = Storage::new();
    let id = storage.create_new_trial();
    storage.set_trial_value(id, 2.0f64.to_bits()).unwrap();
    storage.set_trial_state(id, TrialState::Failed).unwrap();
    let mut study = Study::new(storage, Sampler::new(0));
    let e = study.record_outcome(id, Ok(1.0f64.to_bits())).unwrap_err();
    assert_eq!(e.kind(), ErrorKind::FinishedTrial);
    assert_eq!(e.message(), "cannot update finished trial");
    let t = study.storage().get_trial(id).unwrap();
    assert_eq!(t.state(), TrialState::Failed);
    assert_eq!(t.value(), Some(2.0f64.to_bits()));
}

#[test]
fn record_outcome_ignores_an_unknown_trial() {
    let mut study = new_study(0);
    assert!(study.record_outcome(3, Ok(1.0f64.to_bits())).is_ok());
    assert_eq!(study.storage().len(), 0);
}
