//! Processes: how they end, which status stands for that, and how signals are
//! forwarded to them.

use crate::error::{reported, unit_result, ErrorKind, IoError, IoErrorView};
use crate::platform::{
    eintr, enoent, sighup, sigint, sigkill, signal_set, sigquit, sigset_add, sigset_empty, sigterm,
};
use crate::sequences::lemma_contains_after_push;
use crate::text::{
    differ_only_in_reason, ends_with, lemma_differ_only_in_reason, lemma_ends_with, text_of_two,
};
use nix::sys::signal::{SigAction, SigSet};
use vstd::prelude::*;

verus! {

/// The status of a run that failed in the runtime itself.
pub const RUNTIME_ERROR_EXIT_CODE: i32 = 125;

/// The status of a run whose command exists but cannot be executed.
pub const CANNOT_EXEC_EXIT_CODE: i32 = 126;

/// The status of a run whose command cannot be found.
pub const COMMAND_NOT_FOUND_EXIT_CODE: i32 = 127;

/// A signal, by its number.
#[derive(Clone, Copy, Debug, PartialEq, Eq, Structural)]
pub struct Signal {
    number: i32,
}

impl View for Signal {
    type V = int;

    closed spec fn view(&self) -> int {
        self.number as int
    }
}

/// The number of the standard signal with a number, if there is one.
pub open spec fn signal_number_of(number: int) -> Option<int> {
    if 1 <= number <= 31 {
        Some(number)
    } else {
        None
    }
}

impl Signal {
    /// The standard signals are numbered from 1 to 31.
    #[verifier::type_invariant]
    spec fn is_standard(self) -> bool {
        1 <= self.number <= 31
    }

    /// The signal with the given number.
    pub fn from_number(number: i32) -> (signal: Option<Signal>)
        ensures
            match signal {
                Some(signal) => 1 <= number <= 31 && signal@ == number,
                None => !(1 <= number <= 31),
            },
            match signal {
                Some(signal) => signal_number_of(number as int) == Some(signal@),
                None => signal_number_of(number as int) is None,
            },
    {
        if 1 <= number && number <= 31 {
            Some(Signal { number })
        } else {
            None
        }
    }

    pub fn number(&self) -> (number: i32)
        ensures
            number == self@,
            1 <= number <= 31,
    {
        proof {
            use_type_invariant(self);
        }
        self.number
    }

    pub fn hangup() -> (signal: Signal)
        ensures
            signal@ == 1,
    {
        Signal { number: sighup() }
    }

    pub fn interrupt() -> (signal: Signal)
        ensures
            signal@ == 2,
    {
        Signal { number: sigint() }
    }

    pub fn quit() -> (signal: Signal)
        ensures
            signal@ == 3,
    {
        Signal { number: sigquit() }
    }

    pub fn terminate() -> (signal: Signal)
        ensures
            signal@ == 15,
    {
        Signal { number: sigterm() }
    }

    pub fn kill() -> (signal: Signal)
        ensures
            signal@ == 9,
    {
        Signal { number: sigkill() }
    }
}

/// How a process ended.
#[derive(Clone, Copy, Debug, PartialEq, Eq, Structural)]
pub enum ProcessOutcome {
    /// It exited with this status.
    Exited(i32),
    /// This signal ended it.
    Signaled(Signal),
}

/// The status that stands for the end of a process: its own, or 128 more than the
/// number of the signal that ended it.
pub open spec fn status_of(outcome: ProcessOutcome) -> int {
    match outcome {
        ProcessOutcome::Exited(code) => code as int,
        ProcessOutcome::Signaled(signal) => 128 + signal@,
    }
}

impl ProcessOutcome {
    /// The status that stands for the end of a process.
    pub fn exit_code(self) -> (code: i32)
        ensures
            code == status_of(self),
            match self {
                ProcessOutcome::Exited(own) => code == own,
                ProcessOutcome::Signaled(signal) => code == 128 + signal@ && 129 <= code <= 159,
            },
    {
        match self {
            ProcessOutcome::Exited(code) => code,
            ProcessOutcome::Signaled(signal) => 128 + signal.number(),
        }
    }
}

/// The status of a process that exited is its own, and that of one that a signal ended is
/// 128 more than the number of the signal: so the standard signals have the statuses from
/// 129 to 159, and no two of them the same.
pub proof fn law_statuses_tell_how_a_process_ended(code: i32, signal: Signal, other: Signal)
    ensures
        status_of(ProcessOutcome::Exited(code)) == code,
        status_of(ProcessOutcome::Signaled(signal)) - 128 == signal@,
        1 <= signal@ <= 31 <==> 129 <= status_of(ProcessOutcome::Signaled(signal)) <= 159,
        status_of(ProcessOutcome::Signaled(signal)) == status_of(ProcessOutcome::Signaled(other))
            <==> signal@ == other@,
{
}

/// What waiting for a process reported.
#[derive(Debug)]
pub enum WaitStatus {
    /// The process with this number exited with this status.
    Exited(i32, i32),
    /// This signal ended the process with this number; it may have left a dump.
    Signaled(i32, Signal, bool),
    /// Anything else, as a message shows it.
    Other(String),
}

/// What a report says about the end of the process `expected`: how it ended, or
/// nothing if another process ended. A report of anything but an end is a failure.
pub open spec fn reported_outcome(status: WaitStatus, expected: i32) -> Result<
    Option<ProcessOutcome>,
    IoErrorView,
> {
    match status {
        WaitStatus::Exited(pid, code) => Ok(
            if pid == expected {
                Some(ProcessOutcome::Exited(code))
            } else {
                None
            },
        ),
        WaitStatus::Signaled(pid, signal, _) => Ok(
            if pid == expected {
                Some(ProcessOutcome::Signaled(signal))
            } else {
                None
            },
        ),
        WaitStatus::Other(text) => Err(
            reported(ErrorKind::Other, "unexpected wait status: "@ + text@),
        ),
    }
}

/// What a report says about the end of the process `expected_pid`.
pub fn process_outcome(status: WaitStatus, expected_pid: i32) -> (result: Result<
    Option<ProcessOutcome>,
    IoError,
>)
    ensures
        match reported_outcome(status, expected_pid) {
            Ok(outcome) => result == Ok::<Option<ProcessOutcome>, IoError>(outcome),
            Err(complaint) => result matches Err(error) && error@ == complaint,
        },
        match status {
            WaitStatus::Exited(pid, code) => result matches Ok(outcome) && if pid == expected_pid {
                outcome == Some(ProcessOutcome::Exited(code))
            } else {
                outcome is None
            },
            WaitStatus::Signaled(pid, signal, _) => result matches Ok(outcome) && if pid
                == expected_pid {
                outcome == Some(ProcessOutcome::Signaled(signal))
            } else {
                outcome is None
            },
            WaitStatus::Other(_) => result is Err,
        },
{
    match status {
        WaitStatus::Exited(pid, code) => {
            if pid == expected_pid {
                Ok(Some(ProcessOutcome::Exited(code)))
            } else {
                Ok(None)
            }
        },
        WaitStatus::Signaled(pid, signal, _) => {
            if pid == expected_pid {
                Ok(Some(ProcessOutcome::Signaled(signal)))
            } else {
                Ok(None)
            }
        },
        WaitStatus::Other(text) => Err(
            IoError::other(text_of_two("unexpected wait status: ", text.as_str())),
        ),
    }
}

/// Which process a report says has ended, and how; nothing where it reports something
/// else.
pub open spec fn end_in_report(status: WaitStatus) -> Option<(i32, ProcessOutcome)> {
    match status {
        WaitStatus::Exited(pid, code) => Some((pid, ProcessOutcome::Exited(code))),
        WaitStatus::Signaled(pid, signal, _) => Some((pid, ProcessOutcome::Signaled(signal))),
        WaitStatus::Other(_) => None,
    }
}

/// The end of a process is an outcome for who waits for that process, and for nobody else;
/// a report of anything but an end is a failure that tells the whole report.
pub proof fn law_an_end_is_the_outcome_of_its_own_process_alone(
    status: WaitStatus,
    expected: i32,
    other: i32,
)
    ensures
        match end_in_report(status) {
            Some((pid, outcome)) => {
                &&& reported_outcome(status, pid) == Ok::<Option<ProcessOutcome>, IoErrorView>(
                    Some(outcome),
                )
                &&& expected != pid ==> reported_outcome(status, expected) == Ok::<
                    Option<ProcessOutcome>,
                    IoErrorView,
                >(None)
            },
            None => {
                &&& status is Other
                &&& reported_outcome(status, expected) matches Err(error)
                &&& error.kind == ErrorKind::Other
                &&& error.raw_os_error is None
                &&& ends_with(error.message, status->Other_0@)
                &&& reported_outcome(status, other) == reported_outcome(status, expected)
            },
        },
{
    if let WaitStatus::Other(text) = status {
        lemma_ends_with("unexpected wait status: "@, text@);
    }
}

/// The failure about a report of anything but an end tells the report and is otherwise
/// always the same.
pub proof fn law_unexpected_reports_are_told_whole(text: String, other: String, pid: i32)
    ensures
        reported_outcome(WaitStatus::Other(text), pid) matches Err(error) && (reported_outcome(
            WaitStatus::Other(other),
            pid,
        ) matches Err(other_error) && differ_only_in_reason(
            error.message,
            text@,
            other_error.message,
            other@,
        )),
{
    lemma_differ_only_in_reason("unexpected wait status: "@, text@, other@);
}

/// What to do after a reply to waiting for one process.
#[derive(Debug)]
pub enum WaitStep {
    /// Wait again.
    Again,
    /// The wait is over, with this result.
    Over(Result<ProcessOutcome, IoError>),
}

/// Whether a failure is an interruption by a signal.
pub open spec fn is_interruption(error: IoErrorView) -> bool {
    error.raw_os_error == Some(4i32)
}

/// The result of waiting for the process `pid` once it has been replied to so, or
/// nothing if it has to be waited for again.
pub open spec fn wait_result(reply: Result<WaitStatus, IoError>, pid: i32) -> Option<
    Result<ProcessOutcome, IoErrorView>,
> {
    match reply {
        Ok(status) => match reported_outcome(status, pid) {
            Ok(Some(outcome)) => Some(Ok(outcome)),
            Ok(None) => None,
            Err(complaint) => Some(Err(complaint)),
        },
        Err(error) => if is_interruption(error@) {
            None
        } else {
            Some(Err(error@))
        },
    }
}

/// Waits for one process: what to do after the given reply.
pub fn wait_for_process(reply: Result<WaitStatus, IoError>, pid: i32) -> (step: WaitStep)
    ensures
        match wait_result(reply, pid) {
            None => step is Again,
            Some(Ok(outcome)) => step == WaitStep::Over(Ok(outcome)),
            Some(Err(complaint)) => step matches WaitStep::Over(Err(error)) && error@ == complaint,
        },
{
    match reply {
        Ok(status) => match process_outcome(status, pid) {
            Ok(Some(outcome)) => WaitStep::Over(Ok(outcome)),
            Ok(None) => WaitStep::Again,
            Err(error) => WaitStep::Over(Err(error)),
        },
        Err(error) => {
            if error.has_number(eintr()) {
                WaitStep::Again
            } else {
                WaitStep::Over(Err(error))
            }
        },
    }
}

/// The result of waiting for the process `pid` with the given replies, one after
/// the other, or nothing if they leave it open.
pub open spec fn waited(replies: Seq<Result<WaitStatus, IoError>>, pid: i32) -> Option<
    Result<ProcessOutcome, IoErrorView>,
>
    decreases replies.len(),
{
    if replies.len() == 0 {
        None
    } else {
        match wait_result(replies[0], pid) {
            Some(result) => Some(result),
            None => waited(replies.drop_first(), pid),
        }
    }
}

/// Interruptions and the ends of other processes do not end a wait: its result is
/// what the first reply says that is neither.
pub proof fn law_wait_ends_with_the_first_decisive_reply(
    replies: Seq<Result<WaitStatus, IoError>>,
    pid: i32,
    decisive: int,
)
    requires
        0 <= decisive < replies.len(),
        forall|i: int| 0 <= i < decisive ==> wait_result(#[trigger] replies[i], pid) is None,
        wait_result(replies[decisive], pid) is Some,
    ensures
        waited(replies, pid) == wait_result(replies[decisive], pid),
    decreases decisive,
{
    if decisive > 0 {
        let rest = replies.drop_first();
        assert(wait_result(replies[0], pid) is None);
        assert forall|i: int| 0 <= i < decisive - 1 implies wait_result(
            #[trigger] rest[i],
            pid,
        ) is None by {
            assert(rest[i] == replies[i + 1]);
        }
        law_wait_ends_with_the_first_decisive_reply(rest, pid, decisive - 1);
    }
}

/// Waiting for a process goes on exactly when a signal interrupted it, which is system
/// error 4, or another process ended. The end of the process itself is the result, and so
/// is any other failure, as it came.
pub proof fn law_waiting_ends_with_its_own_process(reply: Result<WaitStatus, IoError>, pid: i32)
    ensures
        match reply {
            Ok(status) => match end_in_report(status) {
                Some((ended, outcome)) => if ended == pid {
                    wait_result(reply, pid) == Some(Ok::<ProcessOutcome, IoErrorView>(outcome))
                } else {
                    wait_result(reply, pid) is None
                },
                None => wait_result(reply, pid) matches Some(Err(_)),
            },
            Err(error) => if error.raw_os_error == Some(4i32) {
                wait_result(reply, pid) is None
            } else {
                wait_result(reply, pid) == Some(Err::<ProcessOutcome, IoErrorView>(error@))
            },
        },
{
}

/// The status of a run whose command could not be started for the given reason.
pub open spec fn exec_failure_status(error: IoErrorView) -> int {
    if error.raw_os_error == Some(2i32) {
        COMMAND_NOT_FOUND_EXIT_CODE as int
    } else {
        CANNOT_EXEC_EXIT_CODE as int
    }
}

/// The status of a run whose command could not be started: whether it was not
/// found makes the difference.
pub fn exec_failure_exit_code(error: &IoError) -> (code: i32)
    ensures
        code == exec_failure_status(error@),
        code == 127 <==> error.raw_os_error == Some(2i32),
        code == 126 <==> error.raw_os_error != Some(2i32),
{
    if error.has_number(enoent()) {
        COMMAND_NOT_FOUND_EXIT_CODE
    } else {
        CANNOT_EXEC_EXIT_CODE
    }
}

/// A command that does not exist, which is system error 2, has the status 127, and one that
/// cannot be executed for any other reason 126; nothing else about the failure matters.
pub proof fn law_a_missing_command_is_told_from_one_that_cannot_run(
    error: IoErrorView,
    other: IoErrorView,
)
    ensures
        exec_failure_status(error) == 127 <==> error.raw_os_error == Some(2i32),
        exec_failure_status(error) == 126 <==> error.raw_os_error != Some(2i32),
        error.raw_os_error == other.raw_os_error ==> exec_failure_status(error)
            == exec_failure_status(other),
{
}

/// The signal that container processes get when the runtime dies.
pub fn set_parent_death_signal() -> (signal: Signal)
    ensures
        signal@ == 9,
{
    Signal::kill()
}

/// The numbers of the signals that are forwarded.
pub open spec fn forwarded_numbers() -> Seq<int> {
    seq![1, 2, 3, 15]
}

/// Exactly SIGHUP, SIGINT, SIGQUIT and SIGTERM are forwarded, each once.
pub proof fn law_exactly_the_termination_signals_are_forwarded(number: int)
    ensures
        forwarded_numbers().contains(number) <==> number == 1 || number == 2 || number == 3
            || number == 15,
        forwarded_numbers().no_duplicates(),
{
    let numbers = forwarded_numbers();
    assert(numbers[0] == 1 && numbers[1] == 2 && numbers[2] == 3 && numbers[3] == 15);
    assert(numbers.len() == 4);
}

/// The signals that are forwarded.
pub fn forwarded_signals() -> (signals: Vec<Signal>)
    ensures
        signals@.map_values(|signal: Signal| signal@) == forwarded_numbers(),
{
    let signals = vec![
        Signal::hangup(),
        Signal::interrupt(),
        Signal::quit(),
        Signal::terminate(),
    ];
    assert(signals@.map_values(|signal: Signal| signal@) =~= forwarded_numbers());
    signals
}

/// The set of the signals that are forwarded.
pub fn forwarded_mask() -> (mask: SigSet)
    ensures
        signal_set(mask) == forwarded_numbers().to_set(),
{
    let signals = forwarded_signals();
    let ghost numbers = signals@.map_values(|signal: Signal| signal@);
    let mut mask = sigset_empty();
    let mut i: usize = 0;
    assert(numbers.take(0).to_set() =~= Set::<int>::empty());
    while i < signals.len()
        invariant
            i <= signals@.len(),
            numbers == signals@.map_values(|signal: Signal| signal@),
            numbers == forwarded_numbers(),
            signal_set(mask) == numbers.take(i as int).to_set(),
        decreases signals@.len() - i,
    {
        let signal = signals[i];
        assert(signal@ == numbers[i as int]);
        assert(signals@.len() == numbers.len());
        assert(i == 0 || i == 1 || i == 2 || i == 3);
        sigset_add(&mut mask, signal.number());
        proof {
            let before = numbers.take(i as int);
            let after = numbers.take(i + 1);
            assert(after =~= before.push(numbers[i as int]));
            assert forall|n: int| after.contains(n) == (before.contains(n) || n == numbers[i as int]) by {
                if before.contains(n) {
                    let k = choose|k: int| 0 <= k < before.len() && before[k] == n;
                    assert(after[k] == n);
                }
                if n == numbers[i as int] {
                    assert(after[i as int] == n);
                }
            }
            assert(after.to_set() =~= before.to_set().insert(numbers[i as int]));
        }
        i = i + 1;
    }
    assert(numbers.take(i as int) =~= numbers);
    mask
}

/// One change to how the calling process treats signals.
#[derive(Debug)]
pub enum SignalOp {
    /// Block these signals too.
    Block(SigSet),
    /// Block exactly these signals.
    SetMask(SigSet),
    /// Do this when the signal arrives.
    SetAction(Signal, SigAction),
    /// Forward signals to nobody.
    ClearTarget,
}

impl SignalOp {
    /// Whether the steps that follow are taken even if this one fails.
    pub open spec fn spec_tolerates_failure(&self) -> bool {
        self is SetAction || self is ClearTarget
    }

    /// Whether the steps that follow are taken even if this one fails.
    pub fn tolerates_failure(&self) -> (tolerates: bool)
        ensures
            tolerates == self.spec_tolerates_failure(),
    {
        match self {
            SignalOp::SetAction(_, _) | SignalOp::ClearTarget => true,
            SignalOp::Block(_) | SignalOp::SetMask(_) => false,
        }
    }
}

/// How a process treats signals: what it does when each arrives, which it blocks,
/// and whom it forwards them to.
#[verifier::ext_equal]
pub struct SignalState {
    pub actions: Map<int, SigAction>,
    pub blocked: Set<int>,
    pub target: int,
}

/// The state that one change leaves.
pub open spec fn after_op(state: SignalState, op: SignalOp) -> SignalState {
    match op {
        SignalOp::Block(signals) => SignalState {
            blocked: state.blocked.union(signal_set(signals)),
            ..state
        },
        SignalOp::SetMask(signals) => SignalState { blocked: signal_set(signals), ..state },
        SignalOp::SetAction(signal, action) => SignalState {
            actions: state.actions.insert(signal@, action),
            ..state
        },
        SignalOp::ClearTarget => SignalState { target: 0, ..state },
    }
}

/// The state that changes leave which are made one after the other.
pub open spec fn after_ops(state: SignalState, ops: Seq<SignalOp>) -> SignalState
    decreases ops.len(),
{
    if ops.len() == 0 {
        state
    } else {
        after_ops(after_op(state, ops[0]), ops.drop_first())
    }
}

/// The changes that put saved actions back, the last saved first.
pub open spec fn reversed_actions(actions: Seq<(Signal, SigAction)>) -> Seq<SignalOp> {
    Seq::new(
        actions.len(),
        |i: int|
            {
                let saved = actions[actions.len() - 1 - i];
                SignalOp::SetAction(saved.0, saved.1)
            },
    )
}

/// The changes that put saved actions back, the last saved first.
pub fn restore_actions(actions: &Vec<(Signal, SigAction)>) -> (ops: Vec<SignalOp>)
    ensures
        ops@ == reversed_actions(actions@),
{
    let mut ops: Vec<SignalOp> = Vec::new();
    let mut end = actions.len();
    while end > 0
        invariant
            end <= actions@.len(),
            ops@ == reversed_actions(actions@).take(actions@.len() - end),
        decreases end,
    {
        end = end - 1;
        let saved = actions[end];
        ops.push(SignalOp::SetAction(saved.0, saved.1));
        assert(ops@ =~= reversed_actions(actions@).take(actions@.len() - end));
    }
    assert(ops@ =~= reversed_actions(actions@));
    ops
}

/// The changes that undo an attempt to take over the signals.
pub open spec fn rollback_ops(actions: Seq<(Signal, SigAction)>, original_mask: SigSet) -> Seq<
    SignalOp,
> {
    reversed_actions(actions) + seq![SignalOp::SetMask(original_mask)]
}

/// The numbers of the signals whose actions were saved.
pub open spec fn saved_numbers(actions: Seq<(Signal, SigAction)>) -> Seq<int> {
    actions.map_values(|saved: (Signal, SigAction)| saved.0@)
}

/// The target that stands for one process.
pub open spec fn process_target(pid: int) -> int {
    pid
}

/// The target that stands for the process group of a process.
pub open spec fn group_target(pid: int) -> int {
    -pid
}

/// What the runtime keeps while it forwards signals: which it forwards, and what
/// to put back.
#[derive(Debug)]
pub struct SignalForwarder {
    pub mask: SigSet,
    pub original_mask: SigSet,
    pub original_actions: Vec<(Signal, SigAction)>,
}

impl SignalForwarder {
    /// Whether every forwarded signal's action was saved, in order.
    pub open spec fn is_complete(&self) -> bool {
        &&& signal_set(self.mask) == forwarded_numbers().to_set()
        &&& saved_numbers(self.original_actions@) == forwarded_numbers()
    }

    /// The changes that end forwarding.
    pub open spec fn restoration(&self) -> Seq<SignalOp> {
        seq![SignalOp::Block(self.mask), SignalOp::ClearTarget] + reversed_actions(
            self.original_actions@,
        ) + seq![SignalOp::SetMask(self.original_mask)]
    }

    /// Begins to take over the signals that are forwarded.
    pub fn install() -> (step: InstallStep)
        ensures
            step is ReadMask,
            step@ == InstallState::ReadMask,
    {
        InstallStep::ReadMask(ReadMask { mask: forwarded_mask() })
    }

    /// Forwards signals to one process.
    pub fn activate_process(&self, target: i32) -> (activation: Activation)
        ensures
            activation.target == process_target(target as int),
            activation.mask == self.mask,
    {
        self.activate_target(target)
    }

    /// Forwards signals to the process group of the given process.
    pub fn activate_process_group(&self, process_group: i32) -> (activation: Activation)
        requires
            process_group != i32::MIN,
        ensures
            activation.target == group_target(process_group as int),
            activation.mask == self.mask,
    {
        self.activate_target(-process_group)
    }

    fn activate_target(&self, target: i32) -> (activation: Activation)
        ensures
            activation == (Activation { target, mask: self.mask }),
    {
        Activation { target, mask: self.mask }
    }

    /// The target that stands for nobody.
    pub fn clear_target(&self) -> (target: i32)
        ensures
            target == 0,
    {
        0
    }

    /// Begins to end forwarding: the signals are blocked while their actions are put
    /// back, and the mask comes back last.
    pub fn restore(&self) -> (restoration: Restoration)
        ensures
            restoration.ops() == self.restoration(),
            restoration.taken() == 0,
    {
        let mut ops: Vec<SignalOp> = Vec::new();
        ops.push(SignalOp::Block(self.mask));
        ops.push(SignalOp::ClearTarget);
        let mut actions = restore_actions(&self.original_actions);
        ops.append(&mut actions);
        ops.push(SignalOp::SetMask(self.original_mask));
        assert(ops@ =~= self.restoration());
        Restoration { ops, position: 0 }
    }
}

/// How far changes that are made one after the other have come.
pub enum RestoreState {
    /// The change with this number is next.
    Op(int),
    /// They are over, with this result.
    Over(Result<(), IoErrorView>),
}

/// Whether a change came out so that those after it are not made.
pub open spec fn is_decisive(op: SignalOp, outcome: Result<(), IoErrorView>) -> bool {
    outcome is Err && !op.spec_tolerates_failure()
}

/// What follows the outcome of a change: a failure that is not tolerated ends them all
/// and is the result. What is over stays so.
pub open spec fn restore_next(
    ops: Seq<SignalOp>,
    state: RestoreState,
    outcome: Result<(), IoErrorView>,
) -> RestoreState {
    match state {
        RestoreState::Op(k) => if is_decisive(ops[k], outcome) {
            RestoreState::Over(outcome)
        } else if k + 1 < ops.len() {
            RestoreState::Op(k + 1)
        } else {
            RestoreState::Over(Ok(()))
        },
        RestoreState::Over(_) => state,
    }
}

/// The state after changes that came out so, one after the other.
pub open spec fn restore_after(
    ops: Seq<SignalOp>,
    outcomes: Seq<Result<(), IoErrorView>>,
) -> RestoreState
    decreases outcomes.len(),
{
    if outcomes.len() == 0 {
        RestoreState::Op(0)
    } else {
        restore_next(ops, restore_after(ops, outcomes.drop_last()), outcomes.last())
    }
}

/// Forwarding that is being ended.
#[derive(Debug)]
pub struct Restoration {
    ops: Vec<SignalOp>,
    position: usize,
}

/// What follows a change.
#[derive(Debug)]
pub enum RestoreStep {
    /// Make the next change.
    Perform(Restoration),
    /// The changes are over, with this result.
    Over(Result<(), IoError>),
}

impl Restoration {
    #[verifier::type_invariant]
    spec fn has_op(self) -> bool {
        self.position < self.ops@.len()
    }

    /// All changes, made or not.
    pub closed spec fn ops(&self) -> Seq<SignalOp> {
        self.ops@
    }

    /// How many changes were made.
    pub closed spec fn taken(&self) -> int {
        self.position as int
    }

    /// The change that is next.
    pub fn op(&self) -> (op: &SignalOp)
        ensures
            0 <= self.taken() < self.ops().len(),
            *op == self.ops()[self.taken()],
    {
        proof {
            use_type_invariant(self);
        }
        &self.ops[self.position]
    }

    /// What follows the change that came out so.
    pub fn answered(self, outcome: Result<(), IoError>) -> (step: RestoreStep)
        ensures
            match restore_next(self.ops(), RestoreState::Op(self.taken()), unit_result(outcome)) {
                RestoreState::Op(next) => step matches RestoreStep::Perform(restoration) && {
                    &&& restoration.ops() == self.ops()
                    &&& restoration.taken() == next
                },
                RestoreState::Over(Ok(_)) => step matches RestoreStep::Over(Ok(_)),
                RestoreState::Over(Err(complaint)) => step matches RestoreStep::Over(Err(error))
                    && error@ == complaint,
            },
    {
        proof {
            use_type_invariant(&self);
        }
        if let Err(error) = outcome {
            if !self.op().tolerates_failure() {
                return RestoreStep::Over(Err(error));
            }
        }
        let total = self.ops.len();
        let position = self.position + 1;
        if position < total {
            RestoreStep::Perform(Restoration { ops: self.ops, position })
        } else {
            RestoreStep::Over(Ok(()))
        }
    }
}

/// The target that is kept after the attempt to let the signals through.
pub open spec fn kept_target(target: int, unblocked: bool) -> int {
    if unblocked {
        target
    } else {
        0
    }
}

/// Forwarding that is about to begin: the target is set, then the signals are let
/// through.
#[derive(Debug)]
pub struct Activation {
    pub target: i32,
    pub mask: SigSet,
}

impl Activation {
    /// The target to keep after the attempt to let the signals through, and the
    /// result of the whole.
    pub fn answered(self, unblocked: Result<(), IoError>) -> (end: (i32, Result<(), IoError>))
        ensures
            end.1 == unblocked,
            end.0 == if unblocked is Ok {
                self.target
            } else {
                0
            },
            end.0 == kept_target(self.target as int, unblocked is Ok),
    {
        let target = if unblocked.is_ok() {
            self.target
        } else {
            0
        };
        (target, unblocked)
    }
}

/// The standard signal with the given number.
pub closed spec fn standard_signal(number: int) -> Signal {
    Signal { number: number as i32 }
}

/// How far the forwarded signals are taken over: which signals were blocked before, and
/// which actions were replaced so far.
pub enum InstallState {
    ReadMask,
    BlockMask { original_mask: SigSet },
    SetAction { original_mask: SigSet, saved: Seq<(Signal, SigAction)> },
    RollBack { ops: Seq<SignalOp>, error: IoErrorView },
    Installed { original_mask: SigSet, saved: Seq<(Signal, SigAction)> },
    Failed { error: IoErrorView },
}

/// What came back.
pub enum InstallReply {
    Mask(Result<SigSet, IoErrorView>),
    Done(Result<(), IoErrorView>),
    Replaced(Result<SigAction, IoErrorView>),
    RolledBack,
}

/// What follows a reply. A reply to another question changes nothing.
pub open spec fn install_next(state: InstallState, reply: InstallReply) -> InstallState {
    match (state, reply) {
        (InstallState::ReadMask, InstallReply::Mask(Ok(original_mask))) => {
            InstallState::BlockMask { original_mask }
        },
        (InstallState::BlockMask { original_mask }, InstallReply::Done(Ok(_))) => {
            InstallState::SetAction { original_mask, saved: Seq::empty() }
        },
        (InstallState::SetAction { original_mask, saved }, InstallReply::Replaced(Ok(action))) => {
            let next = saved.push((standard_signal(forwarded_numbers()[saved.len() as int]), action));
            if next.len() < forwarded_numbers().len() {
                InstallState::SetAction { original_mask, saved: next }
            } else {
                InstallState::Installed { original_mask, saved: next }
            }
        },
        (InstallState::SetAction { original_mask, saved }, InstallReply::Replaced(Err(error))) => {
            InstallState::RollBack { ops: rollback_ops(saved, original_mask), error }
        },
        (InstallState::RollBack { error, .. }, InstallReply::RolledBack) => {
            InstallState::Failed { error }
        },
        (InstallState::ReadMask, InstallReply::Mask(Err(error))) => InstallState::Failed { error },
        (InstallState::BlockMask { .. }, InstallReply::Done(Err(error))) => {
            InstallState::Failed { error }
        },
        _ => state,
    }
}

/// The view of a mask that was read.
pub open spec fn mask_result(mask: Result<SigSet, IoError>) -> Result<SigSet, IoErrorView> {
    match mask {
        Ok(mask) => Ok(mask),
        Err(error) => Err(error@),
    }
}

/// The view of an action that was replaced.
pub open spec fn action_result(action: Result<SigAction, IoError>) -> Result<
    SigAction,
    IoErrorView,
> {
    match action {
        Ok(action) => Ok(action),
        Err(error) => Err(error@),
    }
}

impl View for InstallStep {
    type V = InstallState;

    open spec fn view(&self) -> InstallState {
        match self {
            InstallStep::ReadMask(step) => step@,
            InstallStep::BlockMask(step) => step@,
            InstallStep::SetAction(step) => step@,
            InstallStep::RollBack(step) => step@,
            InstallStep::Installed(forwarder) => InstallState::Installed {
                original_mask: forwarder.original_mask,
                saved: forwarder.original_actions@,
            },
            InstallStep::Failed(error) => InstallState::Failed { error: error@ },
        }
    }
}

/// The state after the given replies, one after the other.
pub open spec fn install_after(replies: Seq<InstallReply>) -> InstallState
    decreases replies.len(),
{
    if replies.len() == 0 {
        InstallState::ReadMask
    } else {
        install_next(install_after(replies.drop_last()), replies.last())
    }
}

/// Whether a reply is this failure.
pub open spec fn is_install_failure(reply: InstallReply, error: IoErrorView) -> bool {
    match reply {
        InstallReply::Mask(Err(failure)) => failure == error,
        InstallReply::Done(Err(failure)) => failure == error,
        InstallReply::Replaced(Err(failure)) => failure == error,
        _ => false,
    }
}

/// The replies of a system that does all it is asked for: the mask, that signals are
/// blocked, and the actions that were replaced.
pub open spec fn good_install(mask: SigSet, actions: Seq<SigAction>) -> Seq<InstallReply> {
    seq![InstallReply::Mask(Ok(mask)), InstallReply::Done(Ok(()))] + Seq::new(
        actions.len(),
        |i: int| InstallReply::Replaced(Ok(actions[i])),
    )
}

/// Where nothing fails, the signals 1, 2, 3 and 15 are taken over in this order, and what
/// is kept of each is the action that it had, and of the mask what it was. If the system
/// refuses after some of them, the attempt is undone before it fails with that refusal.
pub proof fn law_signals_are_taken_over_one_by_one(
    mask: SigSet,
    actions: Seq<SigAction>,
    error: IoErrorView,
)
    requires
        actions.len() <= 4,
    ensures
        match install_after(good_install(mask, actions)) {
            InstallState::SetAction { original_mask, saved } => {
                &&& actions.len() < 4
                &&& original_mask == mask
                &&& holds_actions(saved, actions)
                &&& install_next(
                    install_after(good_install(mask, actions)),
                    InstallReply::Replaced(Err(error)),
                ) matches InstallState::RollBack { ops, error: failure }
                &&& ops == rollback_ops(saved, mask)
                &&& failure == error
            },
            InstallState::Installed { original_mask, saved } => {
                &&& actions.len() == 4
                &&& original_mask == mask
                &&& holds_actions(saved, actions)
            },
            _ => false,
        },
    decreases actions.len(),
{
    let replies = good_install(mask, actions);
    let two = seq![InstallReply::Mask(Ok(mask)), InstallReply::Done(Ok(()))];
    if actions.len() == 0 {
        assert(replies =~= two);
        assert(two.drop_last().drop_last() =~= Seq::<InstallReply>::empty());
        assert(two.drop_last().last() == InstallReply::Mask(Ok(mask)));
        reveal_with_fuel(install_after, 3);
    } else {
        assert(replies.drop_last() =~= good_install(mask, actions.drop_last()));
        law_signals_are_taken_over_one_by_one(mask, actions.drop_last(), error);
        assert(replies.last() == InstallReply::Replaced(Ok(actions.last())));
    }
}

/// Whether the saved actions are these, of the first forwarded signals in order.
pub open spec fn holds_actions(
    saved: Seq<(Signal, SigAction)>,
    actions: Seq<SigAction>,
) -> bool {
    &&& saved.len() == actions.len()
    &&& forall|i: int|
        0 <= i < saved.len() ==> (#[trigger] saved[i]).1 == actions[i] && saved[i].0@ == (if i
            == 0 {
            1int
        } else if i == 1 {
            2
        } else if i == 2 {
            3
        } else {
            15
        })
}

/// Taking over the signals fails only because some reply was a failure, and with that
/// failure.
pub proof fn law_installing_fails_only_with_a_failure(replies: Seq<InstallReply>)
    ensures
        match install_after(replies) {
            InstallState::Failed { error } => exists|k: int|
                0 <= k < replies.len() && is_install_failure(#[trigger] replies[k], error),
            InstallState::RollBack { error, .. } => exists|k: int|
                0 <= k < replies.len() && is_install_failure(#[trigger] replies[k], error),
            _ => true,
        },
    decreases replies.len(),
{
    if replies.len() > 0 {
        let earlier = replies.drop_last();
        law_installing_fails_only_with_a_failure(earlier);
        assert(replies[replies.len() - 1] == replies.last());
        assert(forall|k: int| 0 <= k < earlier.len() ==> #[trigger] earlier[k] == replies[k]);
    }
}

/// Where nothing was changed yet, a failure ends the attempt at once. Changes are undone only
/// because some action could not be replaced, and that failure ends the attempt then.
pub proof fn law_only_what_was_changed_is_undone(
    mask: SigSet,
    error: IoErrorView,
    replies: Seq<InstallReply>,
)
    ensures
        install_after(seq![InstallReply::Mask(Err(error))]) == (InstallState::Failed { error }),
        install_after(seq![InstallReply::Mask(Ok(mask)), InstallReply::Done(Err(error))]) == (
        InstallState::Failed { error }),
        match install_after(replies) {
            InstallState::RollBack { ops, error: failure } => {
                &&& replies.contains(InstallReply::Replaced(Err(failure)))
                &&& install_after(replies.push(InstallReply::RolledBack)) == (
                InstallState::Failed { error: failure })
            },
            _ => true,
        },
{
    let one = seq![InstallReply::Mask(Err(error))];
    assert(one.drop_last() =~= Seq::<InstallReply>::empty());
    let two = seq![InstallReply::Mask(Ok(mask)), InstallReply::Done(Err(error))];
    assert(two.drop_last() =~= seq![InstallReply::Mask(Ok(mask))]);
    assert(two.drop_last().drop_last() =~= Seq::<InstallReply>::empty());
    reveal_with_fuel(install_after, 3);
    lemma_undone_for_an_action(replies);
    assert(replies.push(InstallReply::RolledBack).drop_last() =~= replies);
}

proof fn lemma_undone_for_an_action(replies: Seq<InstallReply>)
    ensures
        install_after(replies) matches InstallState::RollBack { error, .. } ==> replies.contains(
            InstallReply::Replaced(Err(error)),
        ),
    decreases replies.len(),
{
    if replies.len() > 0 {
        let earlier = replies.drop_last();
        lemma_undone_for_an_action(earlier);
        assert(earlier.push(replies.last()) =~= replies);
        lemma_contains_after_push(earlier, replies.last());
    }
}

/// What to do next in order to take over the forwarded signals.
#[derive(Debug)]
pub enum InstallStep {
    /// Read which signals are blocked.
    ReadMask(ReadMask),
    /// Block the forwarded signals.
    BlockMask(BlockMask),
    /// Have the next forwarded signal forwarded when it arrives.
    SetAction(SetAction),
    /// Undo what was done, whatever fails of it, and report the failure.
    RollBack(RollBack),
    /// All signals are taken over.
    Installed(SignalForwarder),
    /// Nothing was changed.
    Failed(IoError),
}

#[derive(Debug)]
pub struct ReadMask {
    mask: SigSet,
}

impl View for ReadMask {
    type V = InstallState;

    open spec fn view(&self) -> InstallState {
        InstallState::ReadMask
    }
}

impl ReadMask {
    #[verifier::type_invariant]
    spec fn is_for_forwarding(self) -> bool {
        signal_set(self.mask) == forwarded_numbers().to_set()
    }

    pub fn answered(self, original_mask: Result<SigSet, IoError>) -> (step: InstallStep)
        ensures
            match original_mask {
                Ok(original_mask) => step matches InstallStep::BlockMask(next)
                    && next.spec_original_mask() == original_mask,
                Err(error) => step == InstallStep::Failed(error),
            },
            step@ == install_next(self@, InstallReply::Mask(mask_result(original_mask))),
    {
        proof {
            use_type_invariant(&self);
        }
        match original_mask {
            Ok(original_mask) => InstallStep::BlockMask(
                BlockMask { mask: self.mask, original_mask },
            ),
            Err(error) => InstallStep::Failed(error),
        }
    }
}

#[derive(Debug)]
pub struct BlockMask {
    mask: SigSet,
    original_mask: SigSet,
}

impl View for BlockMask {
    type V = InstallState;

    closed spec fn view(&self) -> InstallState {
        InstallState::BlockMask { original_mask: self.original_mask }
    }
}

impl BlockMask {
    #[verifier::type_invariant]
    spec fn is_for_forwarding(self) -> bool {
        signal_set(self.mask) == forwarded_numbers().to_set()
    }

    /// The signals that were blocked before.
    pub closed spec fn spec_original_mask(&self) -> SigSet {
        self.original_mask
    }

    /// The signals to block.
    pub fn mask(&self) -> (mask: SigSet)
        ensures
            signal_set(mask) == forwarded_numbers().to_set(),
    {
        proof {
            use_type_invariant(self);
        }
        self.mask
    }

    pub fn answered(self, blocked: Result<(), IoError>) -> (step: InstallStep)
        ensures
            match blocked {
                Ok(_) => step matches InstallStep::SetAction(next) && next.spec_original_mask()
                    == self.spec_original_mask() && next.saved().len() == 0,
                Err(error) => step == InstallStep::Failed(error),
            },
            step@ == install_next(self@, InstallReply::Done(unit_result(blocked))),
    {
        proof {
            use_type_invariant(&self);
        }
        match blocked {
            Ok(_) => {
                let original_actions: Vec<(Signal, SigAction)> = Vec::new();
                assert(saved_numbers(original_actions@) =~= forwarded_numbers().take(0));
                InstallStep::SetAction(
                    SetAction {
                        mask: self.mask,
                        original_mask: self.original_mask,
                        original_actions,
                    },
                )
            },
            Err(error) => InstallStep::Failed(error),
        }
    }
}

#[derive(Debug)]
pub struct SetAction {
    mask: SigSet,
    original_mask: SigSet,
    original_actions: Vec<(Signal, SigAction)>,
}

impl View for SetAction {
    type V = InstallState;

    closed spec fn view(&self) -> InstallState {
        InstallState::SetAction {
            original_mask: self.original_mask,
            saved: self.original_actions@,
        }
    }
}

impl SetAction {
    /// Some forwarded signals, not all, have been taken over, in order.
    #[verifier::type_invariant]
    spec fn is_partial(self) -> bool {
        &&& signal_set(self.mask) == forwarded_numbers().to_set()
        &&& self.original_actions@.len() < forwarded_numbers().len()
        &&& saved_numbers(self.original_actions@) == forwarded_numbers().take(
            self.original_actions@.len() as int,
        )
    }

    /// The actions that were replaced so far.
    pub closed spec fn saved(&self) -> Seq<(Signal, SigAction)> {
        self.original_actions@
    }

    /// The signals that were blocked before.
    pub closed spec fn spec_original_mask(&self) -> SigSet {
        self.original_mask
    }

    /// The signal that is next.
    pub fn signal(&self) -> (signal: Signal)
        ensures
            self.saved().len() < forwarded_numbers().len(),
            saved_numbers(self.saved()) == forwarded_numbers().take(self.saved().len() as int),
            signal@ == forwarded_numbers()[self.saved().len() as int],
    {
        proof {
            use_type_invariant(self);
        }
        let signals = forwarded_signals();
        let ghost numbers = signals@.map_values(|signal: Signal| signal@);
        assert(signals@.len() == numbers.len());
        let signal = signals[self.original_actions.len()];
        assert(signal@ == numbers[self.original_actions@.len() as int]);
        signal
    }

    pub fn answered(self, replaced: Result<SigAction, IoError>) -> (step: InstallStep)
        ensures
            match replaced {
                Ok(action) => {
                    if self.saved().len() + 1 < forwarded_numbers().len() {
                        step matches InstallStep::SetAction(next) && {
                            &&& next.spec_original_mask() == self.spec_original_mask()
                            &&& next.saved().len() == self.saved().len() + 1
                            &&& next.saved().drop_last() == self.saved()
                            &&& next.saved().last().0@
                                == forwarded_numbers()[self.saved().len() as int]
                            &&& next.saved().last().1 == action
                        }
                    } else {
                        step matches InstallStep::Installed(forwarder) && {
                            &&& forwarder.is_complete()
                            &&& forwarder.original_mask == self.spec_original_mask()
                            &&& forwarder.original_actions@.len() == self.saved().len() + 1
                            &&& forwarder.original_actions@.drop_last() == self.saved()
                            &&& forwarder.original_actions@.last().1 == action
                        }
                    }
                },
                Err(error) => step matches InstallStep::RollBack(next) && {
                    &&& next.error == error
                    &&& next.ops@ == reversed_actions(self.saved()) + seq![
                        SignalOp::SetMask(self.spec_original_mask()),
                    ]
                    &&& next.ops@ == rollback_ops(self.saved(), self.spec_original_mask())
                },
            },
            step@ == install_next(self@, InstallReply::Replaced(action_result(replaced))),
    {
        proof {
            use_type_invariant(&self);
        }
        let signal = self.signal();
        match replaced {
            Ok(action) => {
                let mut original_actions = self.original_actions;
                original_actions.push((signal, action));
                assert(original_actions@.drop_last() =~= self.saved());
                assert(saved_numbers(original_actions@) =~= forwarded_numbers().take(
                    original_actions@.len() as int,
                ));
                if original_actions.len() < 4 {
                    InstallStep::SetAction(
                        SetAction {
                            mask: self.mask,
                            original_mask: self.original_mask,
                            original_actions,
                        },
                    )
                } else {
                    assert(saved_numbers(original_actions@) =~= forwarded_numbers());
                    InstallStep::Installed(
                        SignalForwarder {
                            mask: self.mask,
                            original_mask: self.original_mask,
                            original_actions,
                        },
                    )
                }
            },
            Err(error) => {
                let mut ops = restore_actions(&self.original_actions);
                ops.push(SignalOp::SetMask(self.original_mask));
                assert(ops@ =~= reversed_actions(self.saved()) + seq![
                    SignalOp::SetMask(self.spec_original_mask()),
                ]);
                InstallStep::RollBack(RollBack { ops, error })
            },
        }
    }
}

#[derive(Debug)]
pub struct RollBack {
    pub ops: Vec<SignalOp>,
    pub error: IoError,
}

impl View for RollBack {
    type V = InstallState;

    open spec fn view(&self) -> InstallState {
        InstallState::RollBack { ops: self.ops@, error: self.error@ }
    }
}

impl RollBack {
    /// The failure to report once everything was undone.
    pub fn done(self) -> (step: InstallStep)
        ensures
            step == InstallStep::Failed(self.error),
            step@ == install_next(self@, InstallReply::RolledBack),
    {
        InstallStep::Failed(self.error)
    }
}

/// Whether saved actions are those that a state has.
pub open spec fn are_saved_from(actions: Seq<(Signal, SigAction)>, state: SignalState) -> bool {
    forall|i: int|
        0 <= i < actions.len() ==> state.actions.contains_pair(
            (#[trigger] actions[i]).0@,
            actions[i].1,
        )
}

/// Whether two states do the same on every signal but those with a saved action.
pub open spec fn agree_elsewhere(
    left: SignalState,
    right: SignalState,
    saved: Seq<(Signal, SigAction)>,
) -> bool {
    forall|n: int|
        !saved_numbers(saved).contains(n) ==> {
            &&& #[trigger] left.actions.contains_key(n) == right.actions.contains_key(n)
            &&& left.actions.contains_key(n) ==> left.actions[n] == right.actions[n]
        }
}

proof fn lemma_reversed_actions_restore(
    state: SignalState,
    before: SignalState,
    saved: Seq<(Signal, SigAction)>,
)
    requires
        are_saved_from(saved, before),
        agree_elsewhere(state, before, saved),
    ensures
        after_ops(state, reversed_actions(saved)) == (SignalState {
            actions: before.actions,
            ..state
        }),
    decreases saved.len(),
{
    if saved.len() == 0 {
        assert(saved_numbers(saved).len() == 0);
        assert(state.actions =~= before.actions) by {
            assert forall|n: int| state.actions.contains_key(n) == before.actions.contains_key(
                n,
            ) && (state.actions.contains_key(n) ==> state.actions[n] == before.actions[n]) by {
                assert(!saved_numbers(saved).contains(n));
            }
        }
    } else {
        let ops = reversed_actions(saved);
        let earlier = saved.drop_last();
        let last = saved.last();
        let next = after_op(state, ops[0]);
        assert(ops[0] == SignalOp::SetAction(last.0, last.1));
        assert(before.actions.contains_pair(saved[saved.len() - 1].0@, saved[saved.len() - 1].1));
        assert(ops.drop_first() =~= reversed_actions(earlier));
        assert forall|i: int| 0 <= i < earlier.len() implies before.actions.contains_pair(
            (#[trigger] earlier[i]).0@,
            earlier[i].1,
        ) by {
            assert(earlier[i] == saved[i]);
        }
        assert forall|n: int| !saved_numbers(earlier).contains(n) implies {
            &&& #[trigger] next.actions.contains_key(n) == before.actions.contains_key(n)
            &&& next.actions.contains_key(n) ==> next.actions[n] == before.actions[n]
        } by {
            if n != last.0@ {
                if saved_numbers(saved).contains(n) {
                    let i = choose|i: int|
                        0 <= i < saved.len() && saved_numbers(saved)[i] == n;
                    assert(saved_numbers(earlier)[i] == n);
                }
                assert(state.actions.contains_key(n) == before.actions.contains_key(n));
            }
        }
        lemma_reversed_actions_restore(next, before, earlier);
    }
}

proof fn lemma_after_ops_concat(state: SignalState, first: Seq<SignalOp>, second: Seq<SignalOp>)
    ensures
        after_ops(state, first + second) == after_ops(after_ops(state, first), second),
    decreases first.len(),
{
    if first.len() == 0 {
        assert(first + second =~= second);
    } else {
        assert((first + second).drop_first() =~= first.drop_first() + second);
        lemma_after_ops_concat(after_op(state, first[0]), first.drop_first(), second);
    }
}

/// An attempt to take over the signals that fails part of the way is undone: what
/// the attempt then does leaves every action and the mask as they were.
pub proof fn law_failed_install_leaves_no_trace(
    before: SignalState,
    during: SignalState,
    saved: Seq<(Signal, SigAction)>,
    original_mask: SigSet,
)
    requires
        are_saved_from(saved, before),
        signal_set(original_mask) == before.blocked,
        agree_elsewhere(during, before, saved),
    ensures
        after_ops(during, rollback_ops(saved, original_mask)) == (SignalState {
            target: during.target,
            ..before
        }),
{
    let last = seq![SignalOp::SetMask(original_mask)];
    lemma_reversed_actions_restore(during, before, saved);
    lemma_after_ops_concat(during, reversed_actions(saved), last);
    let restored = after_ops(during, reversed_actions(saved));
    assert(last.drop_first() =~= Seq::<SignalOp>::empty());
    assert(after_ops(restored, last) == after_op(restored, last[0])) by {
        reveal_with_fuel(after_ops, 2);
    }
}

/// Restoring undoes installing: whatever was done meanwhile to the signals that are
/// forwarded, every action and the mask are then as they were before, and nothing is
/// forwarded any more.
pub proof fn law_restore_undoes_install(
    before: SignalState,
    during: SignalState,
    forwarder: SignalForwarder,
)
    requires
        are_saved_from(forwarder.original_actions@, before),
        signal_set(forwarder.original_mask) == before.blocked,
        agree_elsewhere(during, before, forwarder.original_actions@),
    ensures
        after_ops(during, forwarder.restoration()) == (SignalState { target: 0, ..before }),
{
    let saved = forwarder.original_actions@;
    let first = seq![SignalOp::Block(forwarder.mask), SignalOp::ClearTarget];
    let rest = reversed_actions(saved) + seq![SignalOp::SetMask(forwarder.original_mask)];
    let quiet = after_op(after_op(during, first[0]), first[1]);
    assert(forwarder.restoration() =~= first + rest);
    lemma_after_ops_concat(during, first, rest);
    assert(after_ops(during, first) == quiet) by {
        reveal_with_fuel(after_ops, 3);
        assert(first.drop_first().drop_first() =~= Seq::<SignalOp>::empty());
        assert(first.drop_first()[0] == first[1]);
    }
    law_failed_install_leaves_no_trace(before, quiet, saved, forwarder.original_mask);
}

/// Whether the change at `k` is the first that came out decisively.
pub open spec fn stops_at(
    ops: Seq<SignalOp>,
    outcomes: Seq<Result<(), IoErrorView>>,
    k: int,
) -> bool {
    &&& 0 <= k < ops.len()
    &&& k < outcomes.len()
    &&& is_decisive(ops[k], outcomes[k])
    &&& forall|i: int| 0 <= i < k ==> !is_decisive(ops[i], #[trigger] outcomes[i])
}

proof fn lemma_restore_after(ops: Seq<SignalOp>, outcomes: Seq<Result<(), IoErrorView>>)
    requires
        ops.len() > 0,
    ensures
        match restore_after(ops, outcomes) {
            RestoreState::Op(k) => k == outcomes.len() && k < ops.len() && forall|i: int|
                0 <= i < k ==> !is_decisive(ops[i], #[trigger] outcomes[i]),
            RestoreState::Over(Ok(_)) => ops.len() <= outcomes.len() && forall|i: int|
                0 <= i < ops.len() ==> !is_decisive(ops[i], #[trigger] outcomes[i]),
            RestoreState::Over(Err(error)) => exists|k: int|
                #[trigger] stops_at(ops, outcomes, k) && outcomes[k] == Err::<(), IoErrorView>(
                    error,
                ),
        },
    decreases outcomes.len(),
{
    if outcomes.len() > 0 {
        let earlier = outcomes.drop_last();
        let last = outcomes.len() - 1;
        lemma_restore_after(ops, earlier);
        assert(forall|i: int| 0 <= i < last ==> earlier[i] == #[trigger] outcomes[i]);
        match restore_after(ops, earlier) {
            RestoreState::Op(k) => {
                if is_decisive(ops[k], outcomes.last()) {
                    assert(stops_at(ops, outcomes, last));
                }
            },
            RestoreState::Over(Err(error)) => {
                let k = choose|k: int|
                    #[trigger] stops_at(ops, earlier, k) && earlier[k] == Err::<(), IoErrorView>(
                        error,
                    );
                assert(stops_at(ops, outcomes, k));
            },
            RestoreState::Over(Ok(_)) => {},
        }
    }
}

/// Ending forwarding fails only where the signals cannot be blocked, and then nothing
/// else is changed, or where the mask cannot be put back; that failure is the result.
/// An action that cannot be put back stops nothing. Where neither fails the result is
/// success, once every change was made.
pub proof fn law_restore_fails_only_with_the_mask(
    forwarder: SignalForwarder,
    outcomes: Seq<Result<(), IoErrorView>>,
)
    ensures
        ({
            let ops = forwarder.restoration();
            let last = ops.len() - 1;
            match restore_after(ops, outcomes) {
                RestoreState::Op(k) => k == outcomes.len() && k < ops.len() && (k > 0
                    ==> outcomes[0] is Ok),
                RestoreState::Over(Ok(_)) => ops.len() <= outcomes.len() && outcomes[0] is Ok
                    && outcomes[last] is Ok,
                RestoreState::Over(Err(error)) => {
                    ||| outcomes[0] == Err::<(), IoErrorView>(error)
                    ||| ops.len() <= outcomes.len() && outcomes[0] is Ok && outcomes[last] == Err::<
                        (),
                        IoErrorView,
                    >(error)
                },
            }
        }),
{
    let ops = forwarder.restoration();
    let last = ops.len() - 1;
    lemma_restore_after(ops, outcomes);
    assert(ops[0] == SignalOp::Block(forwarder.mask));
    assert(ops[last] == SignalOp::SetMask(forwarder.original_mask));
    assert forall|i: int| 0 < i < last implies (#[trigger] ops[i]).spec_tolerates_failure() by {
        if i > 1 {
            assert(ops[i] == reversed_actions(forwarder.original_actions@)[i - 2]);
        }
    }
    if let RestoreState::Over(Err(error)) = restore_after(ops, outcomes) {
        let k = choose|k: int|
            #[trigger] stops_at(ops, outcomes, k) && outcomes[k] == Err::<(), IoErrorView>(error);
        assert(k == 0 || k == last);
        assert(k > 0 ==> !is_decisive(ops[0], outcomes[0]));
    }
}

/// While forwarding is being ended, no forwarded signal gets through and none is handed on:
/// from the first change to the last but one they are blocked, and the target is cleared
/// before any action is put back.
pub proof fn law_no_signal_gets_through_while_actions_are_put_back(
    during: SignalState,
    forwarder: SignalForwarder,
    made: int,
)
    requires
        forwarder.is_complete(),
        0 < made < forwarder.restoration().len(),
    ensures
        forall|number: int|
            number == 1 || number == 2 || number == 3 || number == 15
                ==> #[trigger] after_ops(
                during,
                forwarder.restoration().take(made),
            ).blocked.contains(number),
        forwarder.restoration()[made] is SetAction ==> after_ops(
            during,
            forwarder.restoration().take(made),
        ).target == 0,
    decreases made,
{
    let ops = forwarder.restoration();
    let first = ops.take(made - 1);
    assert(ops.take(made) =~= first + seq![ops[made - 1]]);
    lemma_after_ops_concat(during, first, seq![ops[made - 1]]);
    assert(seq![ops[made - 1]].drop_first() =~= Seq::<SignalOp>::empty());
    reveal_with_fuel(after_ops, 2);
    let before = after_ops(during, first);
    assert(after_ops(during, ops.take(made)) == after_op(before, ops[made - 1]));
    assert(ops[0] == SignalOp::Block(forwarder.mask));
    assert(ops[1] == SignalOp::ClearTarget);
    if made > 2 {
        assert(ops[made - 1] == reversed_actions(forwarder.original_actions@)[made - 3]);
    }
    if made > 1 {
        law_no_signal_gets_through_while_actions_are_put_back(during, forwarder, made - 1);
    }
    assert forall|number: int|
        number == 1 || number == 2 || number == 3 || number == 15 implies #[trigger] after_ops(
        during,
        ops.take(made),
    ).blocked.contains(number) by {
        law_exactly_the_termination_signals_are_forwarded(number);
        assert(forwarded_numbers().to_set().contains(number));
        if made > 1 {
            assert(after_ops(during, ops.take(made - 1)).blocked.contains(number));
        }
    }
}

/// The actions once the handler was put in place for the first forwarded signals.
pub open spec fn handled(
    actions: Map<int, SigAction>,
    handler: SigAction,
    count: nat,
) -> Map<int, SigAction>
    decreases count,
{
    if count == 0 {
        actions
    } else {
        handled(actions, handler, (count - 1) as nat).insert(
            forwarded_numbers()[count - 1],
            handler,
        )
    }
}

/// The state once the first forwarded signals were taken over: all that are forwarded
/// are blocked, and the handler is in place for these.
pub open spec fn taken_over(before: SignalState, handler: SigAction, count: nat) -> SignalState {
    SignalState {
        actions: handled(before.actions, handler, count),
        blocked: before.blocked.union(forwarded_numbers().to_set()),
        target: before.target,
    }
}

proof fn lemma_taken_over(
    before: SignalState,
    handler: SigAction,
    saved: Seq<(Signal, SigAction)>,
    count: nat,
)
    requires
        count <= saved.len() <= forwarded_numbers().len(),
        saved_numbers(saved) == forwarded_numbers().take(saved.len() as int),
    ensures
        agree_elsewhere(taken_over(before, handler, count), before, saved),
    decreases count,
{
    if count > 0 {
        lemma_taken_over(before, handler, saved, (count - 1) as nat);
        assert(saved_numbers(saved)[count - 1] == forwarded_numbers()[count - 1]);
        let earlier = taken_over(before, handler, (count - 1) as nat);
        let state = taken_over(before, handler, count);
        assert forall|n: int| !saved_numbers(saved).contains(n) implies {
            &&& #[trigger] state.actions.contains_key(n) == before.actions.contains_key(n)
            &&& state.actions.contains_key(n) ==> state.actions[n] == before.actions[n]
        } by {
            assert(n != forwarded_numbers()[count - 1]);
            assert(earlier.actions.contains_key(n) == before.actions.contains_key(n));
        }
    }
}

/// Taking over the signals and undoing it changes nothing. If it fails after some of
/// the signals were taken over, what the attempt then does leaves the state as it was;
/// if all were taken over, restoring does, and nothing is forwarded any more.
pub proof fn law_taking_over_signals_is_undone(
    before: SignalState,
    handler: SigAction,
    forwarder: SignalForwarder,
    count: nat,
)
    requires
        forwarder.is_complete(),
        are_saved_from(forwarder.original_actions@, before),
        signal_set(forwarder.original_mask) == before.blocked,
        count <= forwarded_numbers().len(),
    ensures
        after_ops(
            taken_over(before, handler, count),
            rollback_ops(
                forwarder.original_actions@.take(count as int),
                forwarder.original_mask,
            ),
        ) == before,
        after_ops(
            taken_over(before, handler, forwarded_numbers().len()),
            forwarder.restoration(),
        ) == (SignalState { target: 0, ..before }),
{
    let all = forwarder.original_actions@;
    let saved = all.take(count as int);
    let total = forwarded_numbers().len();
    assert(saved_numbers(all).len() == all.len());
    assert(saved_numbers(saved) =~= forwarded_numbers().take(count as int)) by {
        assert forall|i: int| 0 <= i < count implies saved_numbers(saved)[i]
            == forwarded_numbers()[i] by {
            assert(saved_numbers(all)[i] == forwarded_numbers()[i]);
        }
    }
    assert forall|i: int| 0 <= i < saved.len() implies before.actions.contains_pair(
        (#[trigger] saved[i]).0@,
        saved[i].1,
    ) by {
        assert(saved[i] == all[i]);
    }
    lemma_taken_over(before, handler, saved, count);
    law_failed_install_leaves_no_trace(
        before,
        taken_over(before, handler, count),
        saved,
        forwarder.original_mask,
    );
    assert(saved_numbers(all) =~= forwarded_numbers().take(total as int));
    lemma_taken_over(before, handler, all, total);
    law_restore_undoes_install(before, taken_over(before, handler, total), forwarder);
}

/// Whom `kill(2)` reaches with a target.
pub enum Recipient {
    Nobody,
    Process(int),
    Group(int),
    Everybody,
}

/// Whom a signal that arrives is handed to, by the target that is set.
pub open spec fn recipient(target: int) -> Recipient {
    if target == 0 {
        Recipient::Nobody
    } else if target > 0 {
        Recipient::Process(target)
    } else if target == -1 {
        Recipient::Everybody
    } else {
        Recipient::Group(-target)
    }
}

/// Signals reach what was activated: one process, or a whole process group; and
/// nobody before that or once the target is cleared. No group is that of the process
/// with the number 1: `kill(2)` takes its target for everybody.
pub proof fn law_signals_reach_the_activated_target(pid: int)
    requires
        pid > 0,
    ensures
        recipient(process_target(pid)) == Recipient::Process(pid),
        pid > 1 ==> recipient(group_target(pid)) == Recipient::Group(pid),
        recipient(0) == Recipient::Nobody,
{
}

/// The target and the signal that are handed on when a signal arrives.
pub open spec fn handed_on(target: i32, signal: i32) -> Option<(i32, i32)> {
    if target == 0 {
        None
    } else {
        Some((target, signal))
    }
}

/// A signal that arrives is handed on as it is, to exactly the process or the process group
/// that forwarding was activated for, and to nobody where activating failed or nothing was
/// activated.
pub proof fn law_every_signal_is_handed_to_the_activated_target(pid: i32, signal: i32, number: i32)
    requires
        pid > 1,
    ensures
        ({
            let process = kept_target(process_target(pid as int), true);
            let group = kept_target(group_target(pid as int), true);
            &&& handed_on(process as i32, signal) == Some((pid, signal))
            &&& handed_on(group as i32, signal) matches Some((target, handed))
            &&& target + pid == 0
            &&& handed == signal
            &&& recipient(target as int) == Recipient::Group(pid as int)
        }),
        kept_target(process_target(pid as int), false) == 0,
        kept_target(group_target(pid as int), false) == 0,
        handed_on(0, number) is None,
{
}

/// What a signal that arrives makes the process do: hand the signal to the target,
/// if one is set. The result is the target and the signal to hand to it.
pub fn forward_signal(target: i32, signal: i32) -> (forwarded: Option<(i32, i32)>)
    ensures
        forwarded == if recipient(target as int) is Nobody {
            None
        } else {
            Some((target, signal))
        },
        forwarded == handed_on(target, signal),
{
    if target != 0 {
        Some((target, signal))
    } else {
        None
    }
}

/// Exactly the numbers from 1 to 31 are those of standard signals, and a signal has the
/// number that it was made with.
pub proof fn law_every_standard_number_is_a_signal(number: int)
    ensures
        signal_number_of(number) == Some(number) <==> 1 <= number <= 31,
        signal_number_of(number) is Some ==> signal_number_of(number) == Some(number),
{
}

/// What came back about masks and actions is seen as it is.
pub proof fn law_install_results_are_seen_as_they_are(
    mask: Result<SigSet, IoError>,
    action: Result<SigAction, IoError>,
)
    ensures
        mask matches Ok(set) ==> mask_result(mask) == Ok::<SigSet, IoErrorView>(set),
        mask matches Err(error) ==> mask_result(mask) == Err::<SigSet, IoErrorView>(error@),
        action matches Ok(old) ==> action_result(action) == Ok::<SigAction, IoErrorView>(old),
        action matches Err(error) ==> action_result(action) == Err::<SigAction, IoErrorView>(
            error@,
        ),
{
}

} // verus!
