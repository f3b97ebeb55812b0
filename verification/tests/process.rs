use minictr::error::{ErrorKind, IoError};
use minictr::process::{
    exec_failure_exit_code, forward_signal, forwarded_mask, forwarded_signals, process_outcome,
    restore_actions, set_parent_death_signal, wait_for_process, InstallStep, ProcessOutcome,
    RestoreStep, Signal, SignalForwarder, SignalOp, WaitStatus, WaitStep, CANNOT_EXEC_EXIT_CODE,
    COMMAND_NOT_FOUND_EXIT_CODE, RUNTIME_ERROR_EXIT_CODE,
};
use nix::sys::signal::{SaFlags, SigAction, SigHandler, SigSet};

fn system_error(number: i32) -> IoError {
    IoError {
        kind: ErrorKind::Uncategorized,
        raw_os_error: Some(number),
        message: format!("os error {number}"),
    }
}

fn action() -> SigAction {
    SigAction::new(SigHandler::SigIgn, SaFlags::empty(), SigSet::empty())
}

fn numbers(signals: &[Signal]) -> Vec<i32> {
    signals.iter().map(|signal| signal.number()).collect()
}

fn installed() -> SignalForwarder {
    let mut step = SignalForwarder::install();
    let mut original_mask = SigSet::empty();
    original_mask.add(nix::sys::signal::Signal::SIGUSR1);
    loop {
        step = match step {
            InstallStep::ReadMask(step) => step.answered(Ok(original_mask)),
            InstallStep::BlockMask(step) => step.answered(Ok(())),
            InstallStep::SetAction(step) => step.answered(Ok(action())),
            InstallStep::Installed(forwarder) => return forwarder,
            InstallStep::RollBack(_) | InstallStep::Failed(_) => unreachable!(),
        };
    }
}

#[test]
fn process_outcomes_have_shell_compatible_exit_codes() {
    assert_eq!(ProcessOutcome::Exited(37).exit_code(), 37);
    assert_eq!(ProcessOutcome::Signaled(Signal::terminate()).exit_code(), 143);
}

#[test]
fn missing_command_and_other_exec_failures_are_distinct() {
    let missing = system_error(nix::libc::ENOENT);
    let denied = system_error(nix::libc::EACCES);

    assert_eq!(
        exec_failure_exit_code(&missing),
        COMMAND_NOT_FOUND_EXIT_CODE
    );
    assert_eq!(exec_failure_exit_code(&denied), CANNOT_EXEC_EXIT_CODE);
}

#[test]
fn statuses_of_the_runtime_are_the_conventional_ones() {
    assert_eq!(RUNTIME_ERROR_EXIT_CODE, 125);
    assert_eq!(CANNOT_EXEC_EXIT_CODE, 126);
    assert_eq!(COMMAND_NOT_FOUND_EXIT_CODE, 127);
    assert_eq!(
        exec_failure_exit_code(&IoError::other("no number".to_owned())),
        126
    );
}

#[test]
fn signals_are_the_standard_ones() {
    assert!(Signal::from_number(0).is_none());
    assert!(Signal::from_number(32).is_none());
    assert_eq!(Signal::from_number(31).unwrap().number(), 31);
    assert_eq!(Signal::from_number(9), Some(Signal::kill()));
    assert_eq!(set_parent_death_signal().number(), 9);
    assert_eq!(numbers(&forwarded_signals()), [1, 2, 3, 15]);
}

#[test]
fn the_forwarded_signals_are_blocked_and_no_others() {
    let mask = forwarded_mask();
    for signal in nix::sys::signal::Signal::iterator() {
        let forwarded = [1, 2, 3, 15].contains(&(signal as i32));
        assert_eq!(mask.contains(signal), forwarded);
    }
}

#[test]
fn only_the_end_of_the_expected_process_is_an_outcome() {
    let outcome = |status: WaitStatus| process_outcome(status, 7).unwrap();
    assert_eq!(
        outcome(WaitStatus::Exited(7, 3)),
        Some(ProcessOutcome::Exited(3))
    );
    assert_eq!(
        outcome(WaitStatus::Signaled(7, Signal::hangup(), true)),
        Some(ProcessOutcome::Signaled(Signal::hangup()))
    );
    assert_eq!(outcome(WaitStatus::Exited(8, 3)), None);
    assert_eq!(outcome(WaitStatus::Signaled(8, Signal::quit(), false)), None);
    let error = process_outcome(WaitStatus::Other("StillAlive".to_owned()), 7).unwrap_err();
    assert_eq!(error.kind, ErrorKind::Other);
    assert_eq!(error.message, "unexpected wait status: StillAlive");
}

#[test]
fn waiting_goes_on_until_the_process_has_ended() {
    assert!(matches!(
        wait_for_process(Err(system_error(nix::libc::EINTR)), 7),
        WaitStep::Again
    ));
    assert!(matches!(
        wait_for_process(Ok(WaitStatus::Exited(8, 0)), 7),
        WaitStep::Again
    ));
    match wait_for_process(Ok(WaitStatus::Exited(7, 42)), 7) {
        WaitStep::Over(result) => assert_eq!(result.unwrap(), ProcessOutcome::Exited(42)),
        WaitStep::Again => unreachable!(),
    }
    match wait_for_process(Err(system_error(nix::libc::ECHILD)), 7) {
        WaitStep::Over(result) => assert_eq!(result.unwrap_err().raw_os_error, Some(10)),
        WaitStep::Again => unreachable!(),
    }
    match wait_for_process(Ok(WaitStatus::Other("StillAlive".to_owned())), 7) {
        WaitStep::Over(result) => assert_eq!(result.unwrap_err().kind, ErrorKind::Other),
        WaitStep::Again => unreachable!(),
    }
}

#[test]
fn installing_takes_over_each_forwarded_signal_in_turn() {
    let mut asked = Vec::new();
    let mut step = SignalForwarder::install();
    let forwarder = loop {
        step = match step {
            InstallStep::ReadMask(step) => step.answered(Ok(SigSet::empty())),
            InstallStep::BlockMask(step) => {
                assert_eq!(step.mask(), forwarded_mask());
                step.answered(Ok(()))
            }
            InstallStep::SetAction(step) => {
                asked.push(step.signal().number());
                step.answered(Ok(action()))
            }
            InstallStep::Installed(forwarder) => break forwarder,
            InstallStep::RollBack(_) | InstallStep::Failed(_) => unreachable!(),
        };
    };
    assert_eq!(asked, [1, 2, 3, 15]);
    let saved: Vec<i32> = forwarder
        .original_actions
        .iter()
        .map(|saved| saved.0.number())
        .collect();
    assert_eq!(saved, [1, 2, 3, 15]);
}

#[test]
fn an_install_that_fails_part_of_the_way_is_rolled_back() {
    let mut taken = 0;
    let mut step = SignalForwarder::install();
    let roll_back = loop {
        step = match step {
            InstallStep::ReadMask(step) => step.answered(Ok(SigSet::all())),
            InstallStep::BlockMask(step) => step.answered(Ok(())),
            InstallStep::SetAction(step) => {
                taken += 1;
                if taken == 3 {
                    step.answered(Err(system_error(22)))
                } else {
                    step.answered(Ok(action()))
                }
            }
            InstallStep::RollBack(roll_back) => break roll_back,
            InstallStep::Installed(_) | InstallStep::Failed(_) => unreachable!(),
        };
    };
    assert_eq!(roll_back.ops.len(), 3);
    assert!(matches!(&roll_back.ops[0], SignalOp::SetAction(signal, _) if signal.number() == 2));
    assert!(matches!(&roll_back.ops[1], SignalOp::SetAction(signal, _) if signal.number() == 1));
    assert!(matches!(&roll_back.ops[2], SignalOp::SetMask(mask) if *mask == SigSet::all()));
    match roll_back.done() {
        InstallStep::Failed(error) => assert_eq!(error.raw_os_error, Some(22)),
        _ => unreachable!(),
    }
}

#[test]
fn an_install_that_fails_at_once_changes_nothing() {
    match SignalForwarder::install() {
        InstallStep::ReadMask(step) => match step.answered(Err(system_error(22))) {
            InstallStep::Failed(error) => assert_eq!(error.raw_os_error, Some(22)),
            _ => unreachable!(),
        },
        _ => unreachable!(),
    }
    match SignalForwarder::install() {
        InstallStep::ReadMask(step) => match step.answered(Ok(SigSet::empty())) {
            InstallStep::BlockMask(step) => match step.answered(Err(system_error(1))) {
                InstallStep::Failed(error) => assert_eq!(error.raw_os_error, Some(1)),
                _ => unreachable!(),
            },
            _ => unreachable!(),
        },
        _ => unreachable!(),
    }
}

fn description(op: &SignalOp) -> String {
    match op {
        SignalOp::Block(mask) if *mask == forwarded_mask() => "block".to_owned(),
        SignalOp::Block(_) => "block others".to_owned(),
        SignalOp::ClearTarget => "clear".to_owned(),
        SignalOp::SetAction(signal, _) => format!("action {}", signal.number()),
        SignalOp::SetMask(mask) => format!(
            "mask {} {}",
            mask.contains(nix::sys::signal::Signal::SIGUSR1),
            mask.contains(nix::sys::signal::Signal::SIGTERM)
        ),
    }
}

fn restored(failing: &[usize]) -> (Vec<String>, Result<(), IoError>) {
    let mut restoration = installed().restore();
    let mut done = Vec::new();
    loop {
        let outcome = if failing.contains(&done.len()) {
            Err(system_error(done.len() as i32))
        } else {
            Ok(())
        };
        done.push(description(restoration.op()));
        restoration = match restoration.answered(outcome) {
            RestoreStep::Perform(next) => next,
            RestoreStep::Over(result) => return (done, result),
        };
    }
}

#[test]
fn restoring_undoes_installing_in_reverse() {
    let (done, result) = restored(&[]);
    assert_eq!(
        done,
        [
            "block",
            "clear",
            "action 15",
            "action 3",
            "action 2",
            "action 1",
            "mask true false",
        ]
    );
    assert!(result.is_ok());
    assert!(restore_actions(&Vec::new()).is_empty());
}

#[test]
fn restoring_fails_only_with_the_mask() {
    let (done, result) = restored(&[0]);
    assert_eq!(done, ["block"]);
    assert_eq!(result.unwrap_err().raw_os_error, Some(0));
    let (done, result) = restored(&[2, 5]);
    assert_eq!(done.len(), 7);
    assert!(result.is_ok());
    let (done, result) = restored(&[3, 6]);
    assert_eq!(done.len(), 7);
    assert_eq!(result.unwrap_err().raw_os_error, Some(6));
}

#[test]
fn signals_go_to_the_activated_target() {
    let forwarder = installed();
    assert_eq!(
        forwarder.activate_process(7).answered(Ok(())).0,
        7
    );
    assert_eq!(
        forwarder.activate_process_group(7).answered(Ok(())).0,
        -7
    );
    let (target, result) = forwarder
        .activate_process(7)
        .answered(Err(system_error(22)));
    assert_eq!(target, 0);
    assert_eq!(result.unwrap_err().raw_os_error, Some(22));
    assert_eq!(forwarder.clear_target(), 0);

    assert_eq!(forward_signal(7, 15), Some((7, 15)));
    assert_eq!(forward_signal(-7, 1), Some((-7, 1)));
    assert_eq!(forward_signal(0, 15), None);
}
