use organelle::organelle::{run_soma, RunOutcome};
use organelle::samples::{Recorder, Stopper};

#[test]
fn a_lone_stopper_runs_and_stops_itself() {
    let (outcome, _trace) = run_soma(Stopper::new(), 100);
    let (soma, end) = outcome.unwrap();
    assert_eq!(end, RunOutcome::Stopped);
    assert!(soma.done);
}

#[test]
fn a_lone_recorder_goes_idle() {
    let (outcome, _trace) = run_soma(Recorder::new(), 100);
    let (soma, end) = outcome.unwrap();
    assert_eq!(end, RunOutcome::Idle);
    assert!(!soma.done);
    assert!(soma.got.is_empty());
}
