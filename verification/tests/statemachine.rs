use cargo_tarpaulin::config::types::TraceEngine;
use cargo_tarpaulin::config::{Config, Timeout};
use cargo_tarpaulin::errors::RunError;
use cargo_tarpaulin::statemachine::{after_start, after_wait, StateData, TestState, TracerAction};
use std::time::{Duration, Instant};

struct NoCollector;

impl StateData for NoCollector {
    fn start(&mut self) -> Result<Option<TestState>, RunError> {
        Ok(None)
    }

    fn init(&mut self) -> Result<TestState, RunError> {
        Err(RunError::StateMachine(
            "No valid coverage collector".to_string(),
        ))
    }

    fn wait(&mut self) -> Result<Option<TestState>, RunError> {
        Ok(None)
    }

    fn last_wait_attempt(&mut self) -> Result<Option<TestState>, RunError> {
        Err(RunError::StateMachine(
            "No valid coverage collector".to_string(),
        ))
    }
    fn stop(&mut self) -> Result<TestState, RunError> {
        Err(RunError::StateMachine(
            "No valid coverage collector".to_string(),
        ))
    }
}

#[test]
fn hits_timeouts() {
    let mut config = Config::with_defaults(String::from("Cargo.toml"), TraceEngine::Ptrace);
    config.test_timeout = Timeout { secs: 5, nanos: 0 };

    let start_time = Instant::now() - Duration::from_secs(6);

    let state = TestState::Start { start_time };

    assert!(state.step(&mut NoCollector, &config).is_err());

    let state = TestState::Waiting { start_time };

    assert!(state.step(&mut NoCollector, &config).is_err());
}

#[test]
fn no_timeout_before_the_time_is_up() {
    let config = Config::with_defaults(String::from("Cargo.toml"), TraceEngine::Ptrace);
    let state = TestState::start_state();
    match state.step(&mut NoCollector, &config) {
        Ok(TestState::Start { .. }) => {}
        other => panic!("unexpected {:?}", other.map(|s| s.is_finished())),
    }
    let state = TestState::wait_state();
    match state.step(&mut NoCollector, &config) {
        Ok(TestState::Waiting { .. }) => {}
        other => panic!("unexpected {:?}", other.map(|s| s.is_finished())),
    }
}

#[test]
fn an_ended_test_stays_ended() {
    let config = Config::with_defaults(String::from("Cargo.toml"), TraceEngine::Ptrace);
    let state = TestState::End(3);
    match state.step(&mut NoCollector, &config) {
        Ok(TestState::End(3)) => {}
        _ => panic!("an ended test must stay ended"),
    }
    assert!(TestState::End(0).is_finished());
    assert!(!TestState::Stopped.is_finished());
}

#[test]
fn decisions_after_start_and_wait() {
    let now = Instant::now();
    match after_start(now, None, true) {
        Err(RunError::TestRuntime(m)) => assert_eq!(m, "Error: Timed out when starting test"),
        _ => panic!("expected a timeout"),
    }
    assert!(matches!(after_start(now, Some(TestState::Initialise), true), Ok(TestState::Initialise)));
    match after_wait(now, None, true, Ok(None)) {
        Err(RunError::TestRuntime(m)) => assert_eq!(m, "Error: Timed out waiting for test response"),
        _ => panic!("expected a timeout"),
    }
    assert!(matches!(after_wait(now, None, true, Ok(Some(TestState::End(0)))), Ok(TestState::End(0))));
    assert!(matches!(after_wait(now, None, false, Ok(None)), Ok(TestState::Waiting { .. })));
    let failed = after_wait(now, None, true, Err(RunError::StateMachine("gone".to_string())));
    assert!(matches!(failed, Err(RunError::StateMachine(m)) if m == "gone"));
    assert!(matches!(after_wait(now, Some(TestState::Stopped), false, Ok(None)), Ok(TestState::Stopped)));
}

#[test]
fn tracer_action_data() {
    assert_eq!(TracerAction::Continue(4).get_data(), Some(&4));
    assert_eq!(TracerAction::Step(5).get_data(), Some(&5));
    assert_eq!(TracerAction::Detach(6).get_data(), Some(&6));
    assert_eq!(TracerAction::TryContinue(7).get_data(), Some(&7));
    assert_eq!(TracerAction::<i32>::Nothing.get_data(), None);
}

#[test]
fn error_messages() {
    assert_eq!(RunError::TestFailed.message(), "Test failed during run");
    assert_eq!(
        RunError::Cargo(String::from("boom")).message(),
        "Cargo failed to run! Error: boom"
    );
}

#[test]
fn step_records_the_answers_and_the_reading() {
    let mut config = Config::with_defaults(String::from("Cargo.toml"), TraceEngine::Ptrace);
    config.test_timeout = Timeout { secs: 5, nanos: 0 };
    let start_time = Instant::now() - Duration::from_secs(6);
    let (res, rec) = TestState::Waiting { start_time }.step_recorded(&mut NoCollector, &config);
    assert!(res.is_err());
    assert!(matches!(rec.answer, Some(Ok(None))));
    let (secs, _) = rec.elapsed.expect("the clock was read");
    assert!(secs >= 6);
    assert!(matches!(rec.last, Some(Err(()))));
    let (res, rec) = TestState::Start { start_time: Instant::now() }.step_recorded(&mut NoCollector, &config);
    assert!(matches!(res, Ok(TestState::Start { .. })));
    assert!(rec.elapsed.is_some() && rec.last.is_none());
}
