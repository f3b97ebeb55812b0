use minictr::error::{ErrorKind, IoError};
use minictr::process::{forwarded_mask, Signal, SignalForwarder, SignalOp, WaitStatus};
use minictr::workload::{
    exec_command, launch, Activate, Ending, Exec, Fork, LaunchContext, LaunchStep, Reap,
};
use nix::sys::signal::SigSet;

fn failure(number: i32) -> IoError {
    IoError {
        kind: ErrorKind::Uncategorized,
        raw_os_error: Some(number),
        message: "reason".to_owned(),
    }
}

struct Run {
    tokens: Vec<String>,
    signals: SignalForwarder,
}

impl Run {
    fn new() -> Run {
        Run {
            tokens: vec!["sh".to_owned(), "-c".to_owned()],
            signals: SignalForwarder {
                mask: forwarded_mask(),
                original_mask: SigSet::empty(),
                original_actions: Vec::new(),
            },
        }
    }

    fn context(&self) -> LaunchContext<'_> {
        LaunchContext {
            command_tokens: &self.tokens,
            signals: &self.signals,
        }
    }
}

fn ending(step: LaunchStep) -> Ending {
    match step {
        LaunchStep::Over(ending) => ending,
        _ => unreachable!(),
    }
}

fn fork(run: &Run) -> Fork<'_> {
    match launch(true, run.context()) {
        LaunchStep::Fork(fork) => fork,
        _ => unreachable!(),
    }
}

fn activate(run: &Run, grouped: Result<(), IoError>) -> LaunchStep<'_> {
    match fork(run).answered(Ok(Some(2))) {
        LaunchStep::GroupWorkload(step) => {
            assert_eq!(step.pid, 2);
            step.answered(grouped)
        }
        _ => unreachable!(),
    }
}

fn reap() -> Reap {
    let run = Run::new();
    match activate(&run, Ok(())) {
        LaunchStep::Activate(step) => match step.answered(Ok(())) {
            LaunchStep::Reap(reap) => reap,
            _ => unreachable!(),
        },
        _ => unreachable!(),
    }
}

fn reaped(replies: Vec<Result<WaitStatus, IoError>>) -> (Vec<String>, Ending) {
    let mut step = reap();
    let mut notices = Vec::new();
    for reply in replies {
        let (notice, next) = step.answered(reply);
        notices.extend(notice);
        match next {
            LaunchStep::Reap(reap) => step = reap,
            LaunchStep::Over(ending) => return (notices, ending),
            _ => unreachable!(),
        }
    }
    unreachable!()
}

#[test]
fn the_first_token_is_the_program() {
    let tokens: Vec<String> = ["sh", "-c", "exit 37", "first"]
        .iter()
        .map(|token| token.to_string())
        .collect();
    let command = exec_command(&tokens);
    assert_eq!(command.program, "sh");
    assert_eq!(command.args, ["-c", "exit 37", "first"]);
    assert!(exec_command(&vec!["true".to_owned()]).args.is_empty());
}

#[test]
fn without_an_init_the_process_becomes_the_command() {
    let run = Run::new();
    let (notice, step) = match launch(false, run.context()) {
        LaunchStep::RestoreSignals(step) => {
            assert!(matches!(step.restoration().op(), SignalOp::Block(_)));
            step.answered(Ok(()), 1)
        }
        _ => unreachable!(),
    };
    assert_eq!(notice.as_deref(), Some("inside child: 1"));
    let (notice, step) = match step {
        LaunchStep::Exec(step) => {
            let command = step.command();
            assert_eq!(command.program, "sh");
            assert_eq!(command.args, ["-c"]);
            step.answered(failure(2))
        }
        _ => unreachable!(),
    };
    assert_eq!(notice.as_deref(), Some("failed to execute command: reason"));
    let ending = ending(step);
    assert_eq!(ending.result, Ok(127));
    assert!(!ending.forked);
    assert!(!ending.clears);
}

#[test]
fn a_command_that_cannot_be_executed_is_told_from_a_missing_one() {
    let run = Run::new();
    let (_, step) = Exec { context: run.context(), forked: true }.answered(failure(13));
    let ending = ending(step);
    assert_eq!(ending.result, Ok(126));
    assert!(ending.forked);
}

#[test]
fn the_forked_process_becomes_the_command_in_its_own_group() {
    let run = Run::new();
    let join = match fork(&run).answered(Ok(None)) {
        LaunchStep::JoinGroup(step) => step,
        _ => unreachable!(),
    };
    let (notice, step) = match join.answered(Ok(())) {
        LaunchStep::RestoreSignals(step) => step.answered(Ok(()), 2),
        _ => unreachable!(),
    };
    assert_eq!(notice.as_deref(), Some("inside child: 2"));
    assert!(matches!(step, LaunchStep::Exec(Exec { forked: true, .. })));
}

#[test]
fn the_forked_process_ends_where_it_cannot_be_prepared() {
    let run = Run::new();
    let joining = match fork(&run).answered(Ok(None)) {
        LaunchStep::JoinGroup(step) => ending(step.answered(Err(failure(1)))),
        _ => unreachable!(),
    };
    assert_eq!(
        joining.result,
        Err("failed to create workload process group: reason".to_owned())
    );
    assert!(joining.forked);
    let (notice, step) = match launch(false, run.context()) {
        LaunchStep::RestoreSignals(step) => step.answered(Err(failure(1)), 1),
        _ => unreachable!(),
    };
    assert_eq!(notice, None);
    assert_eq!(
        ending(step).result,
        Err("failed to restore workload signal state: reason".to_owned())
    );
}

#[test]
fn a_fork_that_fails_is_reported() {
    let run = Run::new();
    assert_eq!(
        ending(fork(&run).answered(Err(failure(11)))).result,
        Err("failed to fork workload: reason".to_owned())
    );
}

#[test]
fn a_workload_that_grouped_itself_or_ended_is_no_failure() {
    let run = Run::new();
    for number in [13, 3] {
        assert!(matches!(
            activate(&run, Err(failure(number))),
            LaunchStep::Activate(Activate { pid: 2, .. })
        ));
    }
}

#[test]
fn a_workload_that_cannot_be_looked_after_is_killed() {
    let run = Run::new();
    match activate(&run, Err(failure(1))) {
        LaunchStep::Abandon(step) => {
            assert_eq!(step.pid, 2);
            assert_eq!(step.signal().number(), 9);
            assert_eq!(
                ending(step.done()).result,
                Err("failed to create workload process group: reason".to_owned())
            );
        }
        _ => unreachable!(),
    }
    match (Activate { context: run.context(), pid: 2 }).answered(Err(failure(22))) {
        LaunchStep::Abandon(step) => assert_eq!(
            ending(step.done()).result,
            Err("failed to activate signal forwarding: reason".to_owned())
        ),
        _ => unreachable!(),
    }
}

#[test]
fn the_init_ends_with_the_status_of_the_workload_once_all_have_ended() {
    let (notices, ending) = reaped(vec![
        Ok(WaitStatus::Exited(5, 1)),
        Err(failure(4)),
        Ok(WaitStatus::Exited(2, 37)),
        Ok(WaitStatus::Signaled(6, Signal::kill(), false)),
        Err(failure(10)),
    ]);
    assert!(notices.is_empty());
    assert_eq!(ending.result, Ok(37));
    assert!(ending.clears);
    assert!(!ending.forked);
}

#[test]
fn signals_go_to_the_process_group_of_the_workload() {
    let run = Run::new();
    let activation = Activate { context: run.context(), pid: 2 }.activation();
    assert_eq!(activation.target, -2);
    assert_eq!(activation.mask, forwarded_mask());
}

#[test]
fn a_signal_that_ends_the_workload_is_in_the_status() {
    let (_, ending) = reaped(vec![
        Ok(WaitStatus::Signaled(2, Signal::terminate(), false)),
        Err(failure(10)),
    ]);
    assert_eq!(ending.result, Ok(143));
}

#[test]
fn an_init_that_never_saw_the_workload_end_has_failed() {
    let (_, ending) = reaped(vec![Ok(WaitStatus::Exited(5, 0)), Err(failure(10))]);
    assert_eq!(ending.result, Ok(125));
}

#[test]
fn an_init_that_cannot_wait_has_failed() {
    let (notices, ending) = reaped(vec![Ok(WaitStatus::Exited(2, 0)), Err(failure(22))]);
    assert_eq!(notices, ["failed to wait for workload: reason"]);
    assert_eq!(ending.result, Ok(125));
    assert!(!ending.clears);
}

#[test]
fn a_report_of_anything_but_an_end_fails_the_init() {
    let (_, ending) = reaped(vec![Ok(WaitStatus::Other("Stopped".to_owned()))]);
    assert_eq!(
        ending.result,
        Err(
            "failed to interpret workload status: unexpected wait status: Stopped".to_owned()
        )
    );
}
