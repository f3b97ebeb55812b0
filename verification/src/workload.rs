//! The workload of a container: the process that set the container up becomes the
//! command, or forks it and stays as its init.

use crate::error::{unit_result, IoError, IoErrorView};
use crate::platform::{eacces, echild, eintr, esrch};
use crate::process::{
    end_in_report, exec_failure_exit_code, exec_failure_status, group_target, is_interruption, process_outcome,
    reported_outcome, status_of, Activation, ProcessOutcome, Restoration, Signal, SignalForwarder,
    WaitStatus,
    RUNTIME_ERROR_EXIT_CODE,
};
use crate::text::{
    decimal, decimal_text, differ_only_in_reason, ends_with, lemma_differ_only_in_reason,
    lemma_ends_with, text_of_two,
};
use vstd::prelude::*;

verus! {

/// A command: the program and its arguments.
#[derive(Debug)]
pub struct ContainerCommand {
    pub program: String,
    pub args: Vec<String>,
}

#[verifier::ext_equal]
pub struct ContainerCommandView {
    pub program: Seq<char>,
    pub args: Seq<Seq<char>>,
}

impl View for ContainerCommand {
    type V = ContainerCommandView;

    open spec fn view(&self) -> ContainerCommandView {
        ContainerCommandView {
            program: self.program@,
            args: self.args@.map_values(|arg: String| arg@),
        }
    }
}

/// The command that tokens name.
pub open spec fn command_of(tokens: Seq<Seq<char>>) -> ContainerCommandView {
    ContainerCommandView { program: tokens[0], args: tokens.skip(1) }
}

/// The command that the tokens of a command line name: the first is the program and
/// the others, in order, are its arguments.
pub fn exec_command(command_tokens: &Vec<String>) -> (command: ContainerCommand)
    requires
        command_tokens@.len() > 0,
    ensures
        seq![command.program] + command.args@ == command_tokens@,
        command@ == command_of(command_tokens@.map_values(|token: String| token@)),
{
    let program = command_tokens[0].clone();
    let mut args: Vec<String> = Vec::new();
    let mut i: usize = 1;
    while i < command_tokens.len()
        invariant
            1 <= i <= command_tokens@.len(),
            args@ == command_tokens@.subrange(1, i as int),
        decreases command_tokens@.len() - i,
    {
        args.push(command_tokens[i].clone());
        i = i + 1;
        assert(args@ =~= command_tokens@.subrange(1, i as int));
    }
    assert(seq![program] + args@ =~= command_tokens@);
    let command = ContainerCommand { program, args };
    assert(command@.args =~= command_of(
        command_tokens@.map_values(|token: String| token@),
    ).args);
    command
}

/// What a workload is started with: the tokens of its command, and how the runtime
/// treats signals.
#[derive(Clone, Copy, Debug)]
pub struct LaunchContext<'a> {
    pub command_tokens: &'a Vec<String>,
    pub signals: &'a SignalForwarder,
}

#[verifier::ext_equal]
pub struct LaunchContextView {
    pub command_tokens: Seq<Seq<char>>,
    pub signals: SignalForwarder,
}

impl<'a> View for LaunchContext<'a> {
    type V = LaunchContextView;

    open spec fn view(&self) -> LaunchContextView {
        LaunchContextView {
            command_tokens: self.command_tokens@.map_values(|token: String| token@),
            signals: *self.signals,
        }
    }
}

/// How far the workload is started and looked after. A state is one process's: where
/// the workload is forked, parent and child go on from different replies.
pub enum LaunchState {
    /// Fork the process that becomes the workload.
    Fork { context: LaunchContextView },
    /// In that process: enter a process group of one's own.
    JoinGroup { context: LaunchContextView },
    /// Treat signals as they were treated before the runtime began. What is the
    /// number of this process?
    RestoreSignals { context: LaunchContextView, forked: bool },
    /// Become the command.
    Exec { context: LaunchContextView, forked: bool },
    /// In the process that forked: put the workload into its process group, too.
    GroupWorkload { context: LaunchContextView, pid: i32 },
    /// Forward signals to that group.
    Activate { context: LaunchContextView, pid: i32 },
    /// Kill the workload and wait for it, whether that works or not.
    Abandon { pid: i32, message: Seq<char> },
    /// Wait for any process. `status` is what the workload's end stands for, once it
    /// has ended.
    Reap { pid: i32, status: Option<int> },
    /// The process is done, with this status or this complaint. Where `clears` holds,
    /// signals are forwarded to nobody any more.
    Over { result: Result<int, Seq<char>>, forked: bool, clears: bool },
}

/// What came back.
pub enum LaunchReply {
    /// The process forked: the number of the new one, or nothing in the new one.
    Forked(Result<Option<i32>, IoErrorView>),
    Done(Result<(), IoErrorView>),
    /// Signals are treated as before. The number is that of the process.
    Restored(Result<(), IoErrorView>, nat),
    /// The command could not be started.
    NotStarted(IoErrorView),
    Waited(Result<WaitStatus, IoError>),
    Abandoned,
}

/// How launching begins.
pub open spec fn launch_start(init: bool, context: LaunchContextView) -> LaunchState {
    if init {
        LaunchState::Fork { context }
    } else {
        LaunchState::RestoreSignals { context, forked: false }
    }
}

/// The process is done because of a failure.
pub open spec fn launch_failed(message: Seq<char>, forked: bool) -> LaunchState {
    LaunchState::Over { result: Err(message), forked, clears: false }
}

/// Whether a process could not be put into its own process group because it did so
/// itself and has gone on, or has ended.
pub open spec fn is_already_grouped(error: IoErrorView) -> bool {
    error.raw_os_error == Some(13i32) || error.raw_os_error == Some(3i32)
}

/// Whether there is no process left to wait for.
pub open spec fn is_childless(error: IoErrorView) -> bool {
    error.raw_os_error == Some(10i32)
}

/// What follows a reply to waiting for any process.
pub open spec fn reap_next(
    pid: i32,
    status: Option<int>,
    reply: Result<WaitStatus, IoError>,
) -> LaunchState {
    match reply {
        Ok(report) => match reported_outcome(report, pid) {
            Ok(Some(outcome)) => LaunchState::Reap { pid, status: Some(status_of(outcome)) },
            Ok(None) => LaunchState::Reap { pid, status },
            Err(error) => launch_failed(
                "failed to interpret workload status: "@ + error.message,
                false,
            ),
        },
        Err(error) => if is_interruption(error@) {
            LaunchState::Reap { pid, status }
        } else if is_childless(error@) {
            LaunchState::Over {
                result: Ok(
                    match status {
                        Some(status) => status,
                        None => RUNTIME_ERROR_EXIT_CODE as int,
                    },
                ),
                forked: false,
                clears: true,
            }
        } else {
            LaunchState::Over {
                result: Ok(RUNTIME_ERROR_EXIT_CODE as int),
                forked: false,
                clears: false,
            }
        },
    }
}

/// What follows a reply. A reply to another question changes nothing.
pub open spec fn launch_next(state: LaunchState, reply: LaunchReply) -> LaunchState {
    match (state, reply) {
        (LaunchState::Fork { context }, LaunchReply::Forked(Ok(None))) => {
            LaunchState::JoinGroup { context }
        },
        (LaunchState::Fork { context }, LaunchReply::Forked(Ok(Some(pid)))) => {
            LaunchState::GroupWorkload { context, pid }
        },
        (LaunchState::Fork { .. }, LaunchReply::Forked(Err(error))) => {
            launch_failed("failed to fork workload: "@ + error.message, false)
        },
        (LaunchState::JoinGroup { context }, LaunchReply::Done(Ok(_))) => {
            LaunchState::RestoreSignals { context, forked: true }
        },
        (LaunchState::JoinGroup { .. }, LaunchReply::Done(Err(error))) => {
            launch_failed("failed to create workload process group: "@ + error.message, true)
        },
        (LaunchState::RestoreSignals { context, forked }, LaunchReply::Restored(Ok(_), _)) => {
            LaunchState::Exec { context, forked }
        },
        (LaunchState::RestoreSignals { forked, .. }, LaunchReply::Restored(Err(error), _)) => {
            launch_failed("failed to restore workload signal state: "@ + error.message, forked)
        },
        (LaunchState::Exec { forked, .. }, LaunchReply::NotStarted(error)) => LaunchState::Over {
            result: Ok(exec_failure_status(error)),
            forked,
            clears: false,
        },
        (LaunchState::GroupWorkload { context, pid }, LaunchReply::Done(Ok(_))) => {
            LaunchState::Activate { context, pid }
        },
        (LaunchState::GroupWorkload { context, pid }, LaunchReply::Done(Err(error))) => {
            if is_already_grouped(error) {
                LaunchState::Activate { context, pid }
            } else {
                LaunchState::Abandon {
                    pid,
                    message: "failed to create workload process group: "@ + error.message,
                }
            }
        },
        (LaunchState::Activate { pid, .. }, LaunchReply::Done(Ok(_))) => {
            LaunchState::Reap { pid, status: None }
        },
        (LaunchState::Activate { pid, .. }, LaunchReply::Done(Err(error))) => LaunchState::Abandon {
            pid,
            message: "failed to activate signal forwarding: "@ + error.message,
        },
        (LaunchState::Abandon { message, .. }, LaunchReply::Abandoned) => {
            launch_failed(message, false)
        },
        (LaunchState::Reap { pid, status }, LaunchReply::Waited(reply)) => {
            reap_next(pid, status, reply)
        },
        _ => state,
    }
}

/// What is said when a state meets a reply.
pub open spec fn launch_notice(state: LaunchState, reply: LaunchReply) -> Option<Seq<char>> {
    match (state, reply) {
        (LaunchState::RestoreSignals { .. }, LaunchReply::Restored(Ok(_), own_pid)) => {
            Some("inside child: "@ + decimal(own_pid))
        },
        (LaunchState::Exec { .. }, LaunchReply::NotStarted(error)) => {
            Some("failed to execute command: "@ + error.message)
        },
        (LaunchState::Reap { .. }, LaunchReply::Waited(Err(error))) => {
            if is_interruption(error@) || is_childless(error@) {
                None
            } else {
                Some("failed to wait for workload: "@ + error@.message)
            }
        },
        _ => None,
    }
}

/// What to do next in order to start the workload and look after it.
#[derive(Debug)]
pub enum LaunchStep<'a> {
    Fork(Fork<'a>),
    JoinGroup(JoinGroup<'a>),
    RestoreSignals(RestoreSignals<'a>),
    Exec(Exec<'a>),
    GroupWorkload(GroupWorkload<'a>),
    Activate(Activate<'a>),
    Abandon(Abandon),
    Reap(Reap),
    Over(Ending),
}

impl<'a> View for LaunchStep<'a> {
    type V = LaunchState;

    open spec fn view(&self) -> LaunchState {
        match self {
            LaunchStep::Fork(step) => step@,
            LaunchStep::JoinGroup(step) => step@,
            LaunchStep::RestoreSignals(step) => step@,
            LaunchStep::Exec(step) => step@,
            LaunchStep::GroupWorkload(step) => step@,
            LaunchStep::Activate(step) => step@,
            LaunchStep::Abandon(step) => step@,
            LaunchStep::Reap(step) => step@,
            LaunchStep::Over(step) => step@,
        }
    }
}

/// The view of a notice that may not be there.
pub open spec fn notice_view(notice: Option<String>) -> Option<Seq<char>> {
    match notice {
        Some(notice) => Some(notice@),
        None => None,
    }
}

/// The view of a fork's result.
pub open spec fn fork_result(forked: Result<Option<i32>, IoError>) -> Result<
    Option<i32>,
    IoErrorView,
> {
    match forked {
        Ok(child) => Ok(child),
        Err(error) => Err(error@),
    }
}

/// Begins to launch the workload: under an init of its own, or in the place of the
/// process that set the container up.
pub fn launch<'a>(init: bool, context: LaunchContext<'a>) -> (step: LaunchStep<'a>)
    ensures
        step@ == launch_start(init, context@),
{
    if init {
        LaunchStep::Fork(Fork { context })
    } else {
        LaunchStep::RestoreSignals(RestoreSignals { context, forked: false })
    }
}

fn failed<'a>(message: String, forked: bool) -> (step: LaunchStep<'a>)
    ensures
        step@ == launch_failed(message@, forked),
{
    LaunchStep::Over(Ending { result: Err(message), forked, clears: false })
}

/// Fork the process that becomes the workload.
#[derive(Debug)]
pub struct Fork<'a> {
    pub context: LaunchContext<'a>,
}

impl<'a> View for Fork<'a> {
    type V = LaunchState;

    open spec fn view(&self) -> LaunchState {
        LaunchState::Fork { context: self.context@ }
    }
}

impl<'a> Fork<'a> {
    /// `forked` is the number of the new process, or nothing in the new process.
    pub fn answered(self, forked: Result<Option<i32>, IoError>) -> (step: LaunchStep<'a>)
        ensures
            step@ == launch_next(self@, LaunchReply::Forked(fork_result(forked))),
    {
        match forked {
            Ok(None) => LaunchStep::JoinGroup(JoinGroup { context: self.context }),
            Ok(Some(pid)) => LaunchStep::GroupWorkload(
                GroupWorkload { context: self.context, pid },
            ),
            Err(error) => failed(
                text_of_two("failed to fork workload: ", error.message.as_str()),
                false,
            ),
        }
    }
}

/// Enter a process group of one's own.
#[derive(Debug)]
pub struct JoinGroup<'a> {
    pub context: LaunchContext<'a>,
}

impl<'a> View for JoinGroup<'a> {
    type V = LaunchState;

    open spec fn view(&self) -> LaunchState {
        LaunchState::JoinGroup { context: self.context@ }
    }
}

impl<'a> JoinGroup<'a> {
    pub fn answered(self, joined: Result<(), IoError>) -> (step: LaunchStep<'a>)
        ensures
            step@ == launch_next(self@, LaunchReply::Done(unit_result(joined))),
    {
        match joined {
            Ok(_) => LaunchStep::RestoreSignals(
                RestoreSignals { context: self.context, forked: true },
            ),
            Err(error) => failed(
                text_of_two("failed to create workload process group: ", error.message.as_str()),
                true,
            ),
        }
    }
}

/// Treat signals as they were treated before the runtime began.
#[derive(Debug)]
pub struct RestoreSignals<'a> {
    pub context: LaunchContext<'a>,
    pub forked: bool,
}

impl<'a> View for RestoreSignals<'a> {
    type V = LaunchState;

    open spec fn view(&self) -> LaunchState {
        LaunchState::RestoreSignals { context: self.context@, forked: self.forked }
    }
}

impl<'a> RestoreSignals<'a> {
    /// How that begins.
    pub fn restoration(&self) -> (restoration: Restoration)
        ensures
            restoration.ops() == self.context.signals.restoration(),
            restoration.taken() == 0,
    {
        self.context.signals.restore()
    }

    /// `own_pid` is the number of the process that asks.
    pub fn answered(self, restored: Result<(), IoError>, own_pid: u32) -> (end: (
        Option<String>,
        LaunchStep<'a>,
    ))
        ensures
            ({
                let reply = LaunchReply::Restored(unit_result(restored), own_pid as nat);
                &&& end.1@ == launch_next(self@, reply)
                &&& notice_view(end.0) == launch_notice(self@, reply)
            }),
    {
        match restored {
            Ok(_) => {
                let notice = text_of_two("inside child: ", decimal_text(own_pid as u128).as_str());
                (Some(notice), LaunchStep::Exec(Exec { context: self.context, forked: self.forked }))
            },
            Err(error) => {
                let message = text_of_two(
                    "failed to restore workload signal state: ",
                    error.message.as_str(),
                );
                (None, failed(message, self.forked))
            },
        }
    }
}

/// Become the command.
#[derive(Debug)]
pub struct Exec<'a> {
    pub context: LaunchContext<'a>,
    pub forked: bool,
}

impl<'a> View for Exec<'a> {
    type V = LaunchState;

    open spec fn view(&self) -> LaunchState {
        LaunchState::Exec { context: self.context@, forked: self.forked }
    }
}

impl<'a> Exec<'a> {
    /// The command to become.
    pub fn command(&self) -> (command: ContainerCommand)
        requires
            self.context.command_tokens@.len() > 0,
        ensures
            seq![command.program] + command.args@ == self.context.command_tokens@,
            command@ == command_of(self.context@.command_tokens),
    {
        exec_command(self.context.command_tokens)
    }

    /// Only a failure comes back.
    pub fn answered(self, error: IoError) -> (end: (Option<String>, LaunchStep<'a>))
        ensures
            end.1@ == launch_next(self@, LaunchReply::NotStarted(error@)),
            notice_view(end.0) == launch_notice(self@, LaunchReply::NotStarted(error@)),
    {
        let code = exec_failure_exit_code(&error);
        let notice = text_of_two("failed to execute command: ", error.message.as_str());
        let ending = Ending { result: Ok(code), forked: self.forked, clears: false };
        (Some(notice), LaunchStep::Over(ending))
    }
}

/// Put the workload into a process group of its own.
#[derive(Debug)]
pub struct GroupWorkload<'a> {
    pub context: LaunchContext<'a>,
    pub pid: i32,
}

impl<'a> View for GroupWorkload<'a> {
    type V = LaunchState;

    open spec fn view(&self) -> LaunchState {
        LaunchState::GroupWorkload { context: self.context@, pid: self.pid }
    }
}

impl<'a> GroupWorkload<'a> {
    pub fn answered(self, grouped: Result<(), IoError>) -> (step: LaunchStep<'a>)
        ensures
            step@ == launch_next(self@, LaunchReply::Done(unit_result(grouped))),
    {
        match grouped {
            Ok(_) => LaunchStep::Activate(Activate { context: self.context, pid: self.pid }),
            Err(error) => {
                if error.has_number(eacces()) || error.has_number(esrch()) {
                    LaunchStep::Activate(Activate { context: self.context, pid: self.pid })
                } else {
                    let message = text_of_two(
                        "failed to create workload process group: ",
                        error.message.as_str(),
                    );
                    LaunchStep::Abandon(Abandon { pid: self.pid, message })
                }
            },
        }
    }
}

/// Forward signals to the workload's process group.
#[derive(Debug)]
pub struct Activate<'a> {
    pub context: LaunchContext<'a>,
    pub pid: i32,
}

impl<'a> View for Activate<'a> {
    type V = LaunchState;

    open spec fn view(&self) -> LaunchState {
        LaunchState::Activate { context: self.context@, pid: self.pid }
    }
}

impl<'a> Activate<'a> {
    /// How forwarding begins: the target is the whole process group of the workload.
    pub fn activation(&self) -> (activation: Activation)
        requires
            self.pid != i32::MIN,
        ensures
            activation.target == group_target(self.pid as int),
            activation.mask == self.context.signals.mask,
    {
        self.context.signals.activate_process_group(self.pid)
    }

    pub fn answered(self, activated: Result<(), IoError>) -> (step: LaunchStep<'a>)
        ensures
            step@ == launch_next(self@, LaunchReply::Done(unit_result(activated))),
    {
        match activated {
            Ok(_) => LaunchStep::Reap(Reap { pid: self.pid, status: None }),
            Err(error) => {
                let message = text_of_two(
                    "failed to activate signal forwarding: ",
                    error.message.as_str(),
                );
                LaunchStep::Abandon(Abandon { pid: self.pid, message })
            },
        }
    }
}

/// Kill the workload and wait for it, whether that works or not.
#[derive(Debug)]
pub struct Abandon {
    pub pid: i32,
    pub message: String,
}

impl View for Abandon {
    type V = LaunchState;

    open spec fn view(&self) -> LaunchState {
        LaunchState::Abandon { pid: self.pid, message: self.message@ }
    }
}

impl Abandon {
    /// The signal that kills it.
    pub fn signal(&self) -> (signal: Signal)
        ensures
            signal@ == 9,
    {
        Signal::kill()
    }

    pub fn done<'a>(self) -> (step: LaunchStep<'a>)
        ensures
            step@ == launch_next(self@, LaunchReply::Abandoned),
    {
        failed(self.message, false)
    }
}

/// Wait for any process.
#[derive(Debug)]
pub struct Reap {
    pub pid: i32,
    pub status: Option<i32>,
}

impl View for Reap {
    type V = LaunchState;

    open spec fn view(&self) -> LaunchState {
        LaunchState::Reap {
            pid: self.pid,
            status: match self.status {
                Some(status) => Some(status as int),
                None => None,
            },
        }
    }
}

impl Reap {
    pub fn answered<'a>(self, reply: Result<WaitStatus, IoError>) -> (end: (
        Option<String>,
        LaunchStep<'a>,
    ))
        ensures
            end.1@ == launch_next(self@, LaunchReply::Waited(reply)),
            notice_view(end.0) == launch_notice(self@, LaunchReply::Waited(reply)),
    {
        match reply {
            Ok(report) => match process_outcome(report, self.pid) {
                Ok(Some(outcome)) => {
                    let status = Some(outcome.exit_code());
                    (None, LaunchStep::Reap(Reap { pid: self.pid, status }))
                },
                Ok(None) => (None, LaunchStep::Reap(self)),
                Err(error) => {
                    let message = text_of_two(
                        "failed to interpret workload status: ",
                        error.message.as_str(),
                    );
                    (None, failed(message, false))
                },
            },
            Err(error) => {
                if error.has_number(eintr()) {
                    (None, LaunchStep::Reap(self))
                } else if error.has_number(echild()) {
                    let code = match self.status {
                        Some(status) => status,
                        None => RUNTIME_ERROR_EXIT_CODE,
                    };
                    let ending = Ending { result: Ok(code), forked: false, clears: true };
                    (None, LaunchStep::Over(ending))
                } else {
                    let notice = text_of_two(
                        "failed to wait for workload: ",
                        error.message.as_str(),
                    );
                    let ending = Ending {
                        result: Ok(RUNTIME_ERROR_EXIT_CODE),
                        forked: false,
                        clears: false,
                    };
                    (Some(notice), LaunchStep::Over(ending))
                }
            },
        }
    }
}

/// The process is done.
#[derive(Debug)]
pub struct Ending {
    /// The status, or the complaint.
    pub result: Result<i32, String>,
    /// Whether this is the process that was forked. It ends at once: nothing that it
    /// has from the process that forked it is cleaned up.
    pub forked: bool,
    /// Whether signals are forwarded to nobody any more.
    pub clears: bool,
}

/// The view of a status or a complaint.
pub open spec fn status_result(result: Result<i32, String>) -> Result<int, Seq<char>> {
    match result {
        Ok(code) => Ok(code as int),
        Err(message) => Err(message@),
    }
}

impl View for Ending {
    type V = LaunchState;

    open spec fn view(&self) -> LaunchState {
        LaunchState::Over {
            result: status_result(self.result),
            forked: self.forked,
            clears: self.clears,
        }
    }
}

/// The state after the given replies, one after the other.
pub open spec fn launch_after(start: LaunchState, replies: Seq<LaunchReply>) -> LaunchState
    decreases replies.len(),
{
    if replies.len() == 0 {
        start
    } else {
        launch_next(launch_after(start, replies.drop_last()), replies.last())
    }
}

/// What the last end of the workload that was reported stands for.
pub open spec fn last_status(pid: i32, replies: Seq<LaunchReply>) -> Option<int>
    decreases replies.len(),
{
    if replies.len() == 0 {
        None
    } else {
        match replies.last() {
            LaunchReply::Waited(Ok(report)) => match reported_outcome(report, pid) {
                Ok(Some(outcome)) => Some(status_of(outcome)),
                _ => last_status(pid, replies.drop_last()),
            },
            _ => last_status(pid, replies.drop_last()),
        }
    }
}

/// Whether a reply says that there is no process left to wait for.
pub open spec fn says_childless(reply: LaunchReply) -> bool {
    reply matches LaunchReply::Waited(Err(error)) && !is_interruption(error@) && is_childless(
        error@,
    )
}

/// Whether a reply says that waiting failed for good.
pub open spec fn says_wait_failed(reply: LaunchReply) -> bool {
    reply matches LaunchReply::Waited(Err(error)) && !is_interruption(error@) && !is_childless(
        error@,
    )
}

/// Whether a reply reports something else than the end of a process.
pub open spec fn says_something_else(reply: LaunchReply) -> bool {
    reply matches LaunchReply::Waited(Ok(WaitStatus::Other(_)))
}

/// Whether the init ends with the status `code` because of the reply at `k`: nothing is
/// left to wait for, or, where `clears` does not hold, waiting fails.
pub open spec fn ends_init(
    pid: i32,
    replies: Seq<LaunchReply>,
    k: int,
    code: int,
    clears: bool,
) -> bool {
    &&& 0 <= k < replies.len()
    &&& if clears {
        &&& says_childless(replies[k])
        &&& code == match last_status(pid, replies.take(k)) {
            Some(status) => status,
            None => RUNTIME_ERROR_EXIT_CODE as int,
        }
    } else {
        &&& says_wait_failed(replies[k])
        &&& code == RUNTIME_ERROR_EXIT_CODE
    }
}

/// An init ends with the workload's status, and only when every process below it has
/// ended: orphans are waited for, and their ends do not change the status. If the end
/// of the workload was never reported, or waiting fails, the status is that of a
/// failed runtime.
pub proof fn law_init_ends_with_the_status_of_the_workload(pid: i32, replies: Seq<LaunchReply>)
    ensures
        match launch_after(LaunchState::Reap { pid, status: None }, replies) {
            LaunchState::Reap { pid: p, status } => {
                &&& p == pid
                &&& status == last_status(pid, replies)
                &&& forall|k: int|
                    #![trigger replies[k]]
                    0 <= k < replies.len() ==> !says_childless(replies[k]) && !says_wait_failed(
                        replies[k],
                    )
            },
            LaunchState::Over { result: Ok(code), clears, forked } => {
                &&& !forked
                &&& exists|k: int| #[trigger] ends_init(pid, replies, k, code, clears)
            },
            LaunchState::Over { result: Err(_), clears, forked } => {
                &&& !forked
                &&& !clears
                &&& exists|k: int|
                    0 <= k < replies.len() && says_something_else(#[trigger] replies[k])
            },
            _ => false,
        },
    decreases replies.len(),
{
    if replies.len() > 0 {
        let start = LaunchState::Reap { pid, status: None };
        let earlier = replies.drop_last();
        let last = replies.len() - 1;
        let before = launch_after(start, earlier);
        law_init_ends_with_the_status_of_the_workload(pid, earlier);
        assert(replies.take(last) =~= earlier);
        assert(forall|k: int| 0 <= k < last ==> earlier[k] == #[trigger] replies[k]);
        match before {
            LaunchState::Over { result: Ok(code), clears, .. } => {
                let k = choose|k: int| #[trigger] ends_init(pid, earlier, k, code, clears);
                assert(replies.take(k) =~= earlier.take(k));
                assert(ends_init(pid, replies, k, code, clears));
            },
            LaunchState::Over { result: Err(_), .. } => {
                let k = choose|k: int|
                    0 <= k < earlier.len() && says_something_else(#[trigger] earlier[k]);
                assert(says_something_else(replies[k]));
            },
            _ => {
                match launch_after(start, replies) {
                    LaunchState::Over { result: Ok(code), clears, .. } => {
                        assert(ends_init(pid, replies, last, code, clears));
                    },
                    LaunchState::Over { result: Err(_), .. } => {
                        assert(says_something_else(replies[last]));
                    },
                    _ => {},
                }
            },
        }
    }
}

/// Whether a reply leaves an init waiting as before: another process ended, or a signal
/// interrupted the wait.
pub open spec fn is_beside_the_point(pid: i32, reply: LaunchReply) -> bool {
    match reply {
        LaunchReply::Waited(Ok(report)) => reported_outcome(report, pid) == Ok::<
            Option<ProcessOutcome>,
            IoErrorView,
        >(None),
        LaunchReply::Waited(Err(error)) => is_interruption(error@),
        _ => false,
    }
}

/// If the end of the workload was reported once and then nothing is left to wait for,
/// the init ends with the status of that end, however many other processes end and
/// however often the wait is interrupted before or after it.
pub proof fn law_orphans_do_not_change_the_status(
    pid: i32,
    replies: Seq<LaunchReply>,
    reported: int,
    outcome: ProcessOutcome,
    last: LaunchReply,
)
    requires
        0 <= reported < replies.len(),
        replies[reported] matches LaunchReply::Waited(Ok(report)) && reported_outcome(report, pid)
            == Ok::<Option<ProcessOutcome>, IoErrorView>(Some(outcome)),
        forall|k: int|
            0 <= k < replies.len() && k != reported ==> is_beside_the_point(
                pid,
                #[trigger] replies[k],
            ),
        says_childless(last),
    ensures
        launch_after(LaunchState::Reap { pid, status: None }, replies) == (LaunchState::Reap {
            pid,
            status: Some(status_of(outcome)),
        }),
        launch_after(LaunchState::Reap { pid, status: None }, replies.push(last)) == (
        LaunchState::Over { result: Ok(status_of(outcome)), forked: false, clears: true }),
    decreases replies.len(),
{
    let earlier = replies.drop_last();
    let end = replies.len() - 1;
    assert(replies[end] == replies.last());
    assert forall|k: int| 0 <= k < end implies #[trigger] earlier[k] == replies[k] by {}
    if reported < end {
        law_orphans_do_not_change_the_status(pid, earlier, reported, outcome, last);
    } else {
        lemma_only_others_end(pid, earlier);
    }
    assert(replies.push(last).drop_last() =~= replies);
}

proof fn lemma_only_others_end(pid: i32, replies: Seq<LaunchReply>)
    requires
        forall|k: int|
            0 <= k < replies.len() ==> is_beside_the_point(pid, #[trigger] replies[k]),
    ensures
        launch_after(LaunchState::Reap { pid, status: None }, replies) == (LaunchState::Reap {
            pid,
            status: None,
        }),
    decreases replies.len(),
{
    if replies.len() > 0 {
        let earlier = replies.drop_last();
        assert(replies[replies.len() - 1] == replies.last());
        assert forall|k: int| 0 <= k < earlier.len() implies #[trigger] earlier[k]
            == replies[k] by {}
        lemma_only_others_end(pid, earlier);
    }
}

/// Whether some reply says that signals are treated as before.
pub open spec fn were_restored(replies: Seq<LaunchReply>) -> bool {
    exists|k: int|
        0 <= k < replies.len() && (#[trigger] replies[k] matches LaunchReply::Restored(Ok(_), _))
}

/// Whether some reply says that this is the process that was forked.
pub open spec fn is_the_forked_process(replies: Seq<LaunchReply>) -> bool {
    replies.contains(LaunchReply::Forked(Ok(None)))
}

/// Whether a state that knows what the workload is started with knows this.
pub open spec fn keeps_launch_context(state: LaunchState, context: LaunchContextView) -> bool {
    match state {
        LaunchState::Fork { context: c } => c == context,
        LaunchState::JoinGroup { context: c } => c == context,
        LaunchState::RestoreSignals { context: c, .. } => c == context,
        LaunchState::Exec { context: c, .. } => c == context,
        LaunchState::GroupWorkload { context: c, .. } => c == context,
        LaunchState::Activate { context: c, .. } => c == context,
        _ => true,
    }
}

/// A process becomes the command that was asked for, only once it treats signals as
/// they were treated before the runtime began. Under an init it is the forked process
/// that becomes the command and never the init; without one nothing is forked.
pub proof fn law_the_command_replaces_the_right_process(
    init: bool,
    context: LaunchContextView,
    replies: Seq<LaunchReply>,
)
    ensures
        ({
            let end = launch_after(launch_start(init, context), replies);
            &&& end matches LaunchState::Exec { context: c, forked } ==> {
                &&& c == context
                &&& were_restored(replies)
                &&& forked == init
                &&& init ==> is_the_forked_process(replies)
            }
            &&& !init ==> end is RestoreSignals || end is Exec || end is Over
            &&& keeps_launch_context(end, context)
        }),
{
    lemma_launch_states(init, context, replies);
}

proof fn lemma_launch_states(
    init: bool,
    context: LaunchContextView,
    replies: Seq<LaunchReply>,
)
    ensures
        ({
            let end = launch_after(launch_start(init, context), replies);
            &&& !init ==> end is RestoreSignals || end is Exec || end is Over
            &&& end is Exec ==> were_restored(replies)
            &&& end is JoinGroup ==> is_the_forked_process(replies)
            &&& end matches LaunchState::RestoreSignals { forked, .. } ==> forked == init && (init
                ==> is_the_forked_process(replies))
            &&& end matches LaunchState::Exec { forked, .. } ==> forked == init && (init
                ==> is_the_forked_process(replies))
            &&& keeps_launch_context(end, context)
        }),
    decreases replies.len(),
{
    if replies.len() > 0 {
        let earlier = replies.drop_last();
        let last = replies.len() - 1;
        lemma_launch_states(init, context, earlier);
        assert(replies[last] == replies.last());
        assert(forall|k: int| 0 <= k < last ==> #[trigger] earlier[k] == replies[k]);
        if is_the_forked_process(earlier) {
            let k = choose|k: int|
                0 <= k < earlier.len() && earlier[k] == LaunchReply::Forked(Ok(None));
            assert(replies[k] == LaunchReply::Forked(Ok(None)));
        }
        if were_restored(earlier) {
            let k = choose|k: int|
                0 <= k < earlier.len() && (#[trigger] earlier[k] matches LaunchReply::Restored(
                    Ok(_),
                    _,
                ));
            assert(replies[k] == earlier[k]);
        }
    }
}

/// A workload that was forked is never left behind: the init is done only after it
/// killed the workload and waited for it, or waited for processes.
pub proof fn law_a_forked_workload_is_not_left_behind(
    context: LaunchContextView,
    pid: i32,
    replies: Seq<LaunchReply>,
)
    requires
        launch_after(LaunchState::GroupWorkload { context, pid }, replies) is Over,
    ensures
        exists|k: int|
            0 <= k < replies.len() && match (
                launch_after(LaunchState::GroupWorkload { context, pid }, #[trigger] replies.take(k)),
                replies[k],
            ) {
                (LaunchState::Abandon { pid: p, .. }, LaunchReply::Abandoned) => p == pid,
                (LaunchState::Reap { pid: p, .. }, LaunchReply::Waited(_)) => p == pid,
                _ => false,
            },
    decreases replies.len(),
{
    let start = LaunchState::GroupWorkload { context, pid };
    let earlier = replies.drop_last();
    let last = replies.len() - 1;
    assert(replies.take(last) =~= earlier);
    assert(replies[last] == replies.last());
    if launch_after(start, earlier) is Over {
        law_a_forked_workload_is_not_left_behind(context, pid, earlier);
        let k = choose|k: int|
            0 <= k < earlier.len() && match (
                launch_after(start, #[trigger] earlier.take(k)),
                earlier[k],
            ) {
                (LaunchState::Abandon { pid: p, .. }, LaunchReply::Abandoned) => p == pid,
                (LaunchState::Reap { pid: p, .. }, LaunchReply::Waited(_)) => p == pid,
                _ => false,
            };
        assert(replies.take(k) =~= earlier.take(k));
        assert(replies[k] == earlier[k]);
    } else {
        lemma_supervised(context, pid, earlier);
    }
}

/// A supervisor looks after one workload.
proof fn lemma_supervised(
    context: LaunchContextView,
    pid: i32,
    replies: Seq<LaunchReply>,
)
    ensures
        match launch_after(LaunchState::GroupWorkload { context, pid }, replies) {
            LaunchState::GroupWorkload { pid: p, .. } => p == pid,
            LaunchState::Activate { pid: p, .. } => p == pid,
            LaunchState::Abandon { pid: p, .. } => p == pid,
            LaunchState::Reap { pid: p, .. } => p == pid,
            LaunchState::Over { .. } => true,
            _ => false,
        },
    decreases replies.len(),
{
    if replies.len() > 0 {
        lemma_supervised(context, pid, replies.drop_last());
    }
}

/// Whether a reply is about something else than the process `pid`, by the numbers in it:
/// another process ended, or the wait was interrupted, which is system error 4.
pub open spec fn is_about_others(pid: i32, reply: LaunchReply) -> bool {
    match reply {
        LaunchReply::Waited(Ok(status)) => end_in_report(status) matches Some((ended, _)) && ended
            != pid,
        LaunchReply::Waited(Err(error)) => error.raw_os_error == Some(4i32),
        _ => false,
    }
}

/// Whether a reply says that there are no children, which is system error 10.
pub open spec fn says_no_children(reply: LaunchReply) -> bool {
    reply matches LaunchReply::Waited(Err(error)) && error.raw_os_error == Some(10i32)
}

/// An init whose workload has the number `pid` ends, once there are no children, with the
/// workload's own status, or with 128 more than the signal that ended it. Ends of processes
/// with other numbers never change that, whatever their status; and where there was no end
/// of the workload the status is 125.
pub proof fn law_the_status_is_that_of_the_process_with_the_number_of_the_workload(
    pid: i32,
    before: Seq<LaunchReply>,
    end: LaunchReply,
    after: Seq<LaunchReply>,
    last: LaunchReply,
)
    requires
        forall|k: int| 0 <= k < before.len() ==> is_about_others(pid, #[trigger] before[k]),
        forall|k: int| 0 <= k < after.len() ==> is_about_others(pid, #[trigger] after[k]),
        end matches LaunchReply::Waited(Ok(status)) && (end_in_report(status) matches Some(
            (ended, _),
        ) && ended == pid),
        says_no_children(last),
    ensures
        ({
            let start = LaunchState::Reap { pid, status: None };
            let final_state = launch_after(start, before + seq![end] + after + seq![last]);
            &&& final_state matches LaunchState::Over { result: Ok(code), forked, clears }
            &&& !forked
            &&& clears
            &&& match end {
                LaunchReply::Waited(Ok(WaitStatus::Exited(_, own))) => code == own,
                LaunchReply::Waited(Ok(WaitStatus::Signaled(_, signal, _))) => code == 128
                    + signal@,
                _ => false,
            }
        }),
        launch_after(LaunchState::Reap { pid, status: None }, before + seq![last]) == (
        LaunchState::Over { result: Ok(125), forked: false, clears: true }),
{
    let start = LaunchState::Reap { pid, status: None };
    lemma_others_change_nothing(pid, None, before);
    lemma_launch_after_concat(start, before, seq![last]);
    lemma_launch_after_one(launch_after(start, before), last);
    lemma_launch_after_concat(start, before, seq![end]);
    lemma_launch_after_one(launch_after(start, before), end);
    let status = match end {
        LaunchReply::Waited(Ok(WaitStatus::Exited(_, own))) => own as int,
        LaunchReply::Waited(Ok(WaitStatus::Signaled(_, signal, _))) => 128 + signal@,
        _ => 0,
    };
    let reported = LaunchState::Reap { pid, status: Some(status) };
    assert(launch_after(start, before + seq![end]) == reported);
    lemma_others_change_nothing(pid, Some(status), after);
    lemma_launch_after_concat(start, before + seq![end], after);
    lemma_launch_after_concat(start, before + seq![end] + after, seq![last]);
    lemma_launch_after_one(reported, last);
}

proof fn lemma_launch_after_one(state: LaunchState, reply: LaunchReply)
    ensures
        launch_after(state, seq![reply]) == launch_next(state, reply),
{
    assert(seq![reply].drop_last() =~= Seq::<LaunchReply>::empty());
    reveal_with_fuel(launch_after, 2);
}

proof fn lemma_launch_after_concat(
    start: LaunchState,
    first: Seq<LaunchReply>,
    second: Seq<LaunchReply>,
)
    ensures
        launch_after(start, first + second) == launch_after(launch_after(start, first), second),
    decreases second.len(),
{
    if second.len() == 0 {
        assert(first + second =~= first);
    } else {
        assert((first + second).drop_last() =~= first + second.drop_last());
        lemma_launch_after_concat(start, first, second.drop_last());
    }
}

proof fn lemma_others_change_nothing(pid: i32, status: Option<int>, replies: Seq<LaunchReply>)
    requires
        forall|k: int| 0 <= k < replies.len() ==> is_about_others(pid, #[trigger] replies[k]),
    ensures
        launch_after(LaunchState::Reap { pid, status }, replies) == (LaunchState::Reap {
            pid,
            status,
        }),
    decreases replies.len(),
{
    if replies.len() > 0 {
        let earlier = replies.drop_last();
        assert(is_about_others(pid, replies[replies.len() - 1]));
        assert forall|k: int| 0 <= k < earlier.len() implies is_about_others(
            pid,
            #[trigger] earlier[k],
        ) by {
            assert(earlier[k] == replies[k]);
        }
        lemma_others_change_nothing(pid, status, earlier);
    }
}

/// Where nothing fails a workload is started: without an init the process itself comes to
/// the command once signals are restored; under an init the forked process does, in a
/// process group of its own, and the init comes to wait for it. That the workload was
/// grouped already or has ended, which are system errors 13 and 3, is no failure.
pub proof fn law_good_replies_start_the_workload(
    context: LaunchContextView,
    own_pid: nat,
    pid: i32,
    grouped: Result<(), IoErrorView>,
)
    requires
        grouped matches Err(error) ==> error.raw_os_error == Some(13i32) || error.raw_os_error
            == Some(3i32),
    ensures
        launch_after(
            launch_start(false, context),
            seq![LaunchReply::Restored(Ok(()), own_pid)],
        ) == (LaunchState::Exec { context, forked: false }),
        launch_after(
            launch_start(true, context),
            seq![
                LaunchReply::Forked(Ok(None)),
                LaunchReply::Done(Ok(())),
                LaunchReply::Restored(Ok(()), own_pid),
            ],
        ) == (LaunchState::Exec { context, forked: true }),
        launch_after(
            launch_start(true, context),
            seq![
                LaunchReply::Forked(Ok(Some(pid))),
                LaunchReply::Done(grouped),
                LaunchReply::Done(Ok(())),
            ],
        ) == (LaunchState::Reap { pid, status: None }),
{
    reveal_with_fuel(launch_after, 4);
    let direct = seq![LaunchReply::Restored(Ok(()), own_pid)];
    assert(direct.drop_last() =~= Seq::<LaunchReply>::empty());
    let child = seq![
        LaunchReply::Forked(Ok(None)),
        LaunchReply::Done(Ok(())),
        LaunchReply::Restored(Ok(()), own_pid),
    ];
    assert(child.drop_last() =~= seq![LaunchReply::Forked(Ok(None)), LaunchReply::Done(Ok(()))]);
    assert(child.drop_last().drop_last() =~= seq![LaunchReply::Forked(Ok(None))]);
    assert(child.drop_last().drop_last().drop_last() =~= Seq::<LaunchReply>::empty());
    let parent = seq![
        LaunchReply::Forked(Ok(Some(pid))),
        LaunchReply::Done(grouped),
        LaunchReply::Done(Ok(())),
    ];
    assert(parent.drop_last() =~= seq![
        LaunchReply::Forked(Ok(Some(pid))),
        LaunchReply::Done(grouped),
    ]);
    assert(parent.drop_last().drop_last() =~= seq![LaunchReply::Forked(Ok(Some(pid)))]);
    assert(parent.drop_last().drop_last().drop_last() =~= Seq::<LaunchReply>::empty());
}

/// A command that could not be started ends the process with 127 where it was not found,
/// which is system error 2, and with 126 otherwise, and the failure is told.
pub proof fn law_a_command_that_does_not_start_ends_its_process(
    context: LaunchContextView,
    forked: bool,
    error: IoErrorView,
    other: IoErrorView,
)
    ensures
        launch_next(
            LaunchState::Exec { context, forked },
            LaunchReply::NotStarted(error),
        ) matches LaunchState::Over { result: Ok(code), forked: f, clears } && {
            &&& code == 127 <==> error.raw_os_error == Some(2i32)
            &&& code == 126 <==> error.raw_os_error != Some(2i32)
            &&& f == forked
            &&& !clears
        },
        launch_notice(
            LaunchState::Exec { context, forked },
            LaunchReply::NotStarted(error),
        ) matches Some(notice) && (launch_notice(
            LaunchState::Exec { context, forked },
            LaunchReply::NotStarted(other),
        ) matches Some(other_notice) && differ_only_in_reason(
            notice,
            error.message,
            other_notice,
            other.message,
        )),
{
    lemma_differ_only_in_reason("failed to execute command: "@, error.message, other.message);
}

/// A process says its own number before it becomes the command.
pub proof fn law_the_process_tells_its_number(
    context: LaunchContextView,
    forked: bool,
    own_pid: nat,
    other_pid: nat,
)
    ensures
        ({
            let state = LaunchState::RestoreSignals { context, forked };
            &&& launch_notice(state, LaunchReply::Restored(Ok(()), own_pid)) matches Some(notice)
            &&& launch_notice(state, LaunchReply::Restored(Ok(()), other_pid)) matches Some(other)
            &&& differ_only_in_reason(notice, decimal(own_pid), other, decimal(other_pid))
        }),
{
    lemma_differ_only_in_reason("inside child: "@, decimal(own_pid), decimal(other_pid));
}

/// Waiting that fails for a reason other than an interruption or that there are no
/// children, which are system errors 4 and 10, ends the init with 125 and is told.
pub proof fn law_a_wait_that_fails_ends_the_init(
    pid: i32,
    status: Option<int>,
    error: IoError,
    other: IoError,
)
    requires
        error.raw_os_error != Some(4i32) && error.raw_os_error != Some(10i32),
        other.raw_os_error != Some(4i32) && other.raw_os_error != Some(10i32),
    ensures
        ({
            let state = LaunchState::Reap { pid, status };
            &&& launch_next(state, LaunchReply::Waited(Err(error))) == (LaunchState::Over {
                result: Ok(125),
                forked: false,
                clears: false,
            })
            &&& launch_notice(state, LaunchReply::Waited(Err(error))) matches Some(notice)
            &&& launch_notice(state, LaunchReply::Waited(Err(other))) matches Some(other_notice)
            &&& differ_only_in_reason(notice, error.message@, other_notice, other.message@)
        }),
{
    lemma_differ_only_in_reason("failed to wait for workload: "@, error.message@, other.message@);
}

/// The complaint that a state ends with, or is about to.
pub open spec fn complaint_of(state: LaunchState) -> Option<Seq<char>> {
    match state {
        LaunchState::Over { result: Err(message), .. } => Some(message),
        LaunchState::Abandon { message, .. } => Some(message),
        _ => None,
    }
}

/// Whether a reply is a failure with this reason.
pub open spec fn gives_reason(reply: LaunchReply, reason: Seq<char>) -> bool {
    match reply {
        LaunchReply::Forked(Err(error)) => error.message == reason,
        LaunchReply::Done(Err(error)) => error.message == reason,
        LaunchReply::Restored(Err(error), _) => error.message == reason,
        LaunchReply::Waited(Ok(WaitStatus::Other(text))) => text@ == reason,
        _ => false,
    }
}

/// Whether some reply is a failure whose reason ends the complaint.
pub open spec fn has_given_reason(replies: Seq<LaunchReply>, complaint: Seq<char>) -> bool {
    exists|k: int, reason: Seq<char>|
        #![trigger gives_reason(replies[k], reason)]
        0 <= k < replies.len() && gives_reason(replies[k], reason) && ends_with(complaint, reason)
}

proof fn lemma_complaint_step(state: LaunchState, reply: LaunchReply)
    requires
        complaint_of(state) is None,
    ensures
        complaint_of(launch_next(state, reply)) matches Some(complaint) ==> exists|
            reason: Seq<char>,
        | #[trigger]
            gives_reason(reply, reason) && ends_with(complaint, reason),
{
    if let Some(complaint) = complaint_of(launch_next(state, reply)) {
        match reply {
            LaunchReply::Forked(Err(error)) => {
                lemma_ends_with("failed to fork workload: "@, error.message);
                assert(gives_reason(reply, error.message));
            },
            LaunchReply::Done(Err(error)) => {
                lemma_ends_with("failed to create workload process group: "@, error.message);
                lemma_ends_with("failed to activate signal forwarding: "@, error.message);
                assert(gives_reason(reply, error.message));
            },
            LaunchReply::Restored(Err(error), _) => {
                lemma_ends_with("failed to restore workload signal state: "@, error.message);
                assert(gives_reason(reply, error.message));
            },
            LaunchReply::Waited(Ok(WaitStatus::Other(text))) => {
                let front = "failed to interpret workload status: "@
                    + "unexpected wait status: "@;
                assert(complaint =~= front + text@);
                lemma_ends_with(front, text@);
                assert(gives_reason(reply, text@));
            },
            _ => {
                assert(false);
            },
        }
    }
}

/// A process that launches or looks after a workload gives up only because some reply was a
/// failure, and its complaint ends with the reason of that failure.
pub proof fn law_launching_fails_only_with_a_failure(
    init: bool,
    context: LaunchContextView,
    replies: Seq<LaunchReply>,
)
    ensures
        complaint_of(launch_after(launch_start(init, context), replies)) matches Some(complaint)
            ==> has_given_reason(replies, complaint),
    decreases replies.len(),
{
    if replies.len() > 0 {
        let earlier = replies.drop_last();
        let last = replies.len() - 1;
        let before = launch_after(launch_start(init, context), earlier);
        let after = launch_after(launch_start(init, context), replies);
        law_launching_fails_only_with_a_failure(init, context, earlier);
        if let Some(complaint) = complaint_of(after) {
            if complaint_of(before) is Some {
                assert(complaint_of(before) == Some(complaint));
                let (k, reason) = choose|k: int, reason: Seq<char>|
                    #![trigger gives_reason(earlier[k], reason)]
                    0 <= k < earlier.len() && gives_reason(earlier[k], reason) && ends_with(
                        complaint,
                        reason,
                    );
                assert(gives_reason(replies[k], reason));
            } else {
                lemma_complaint_step(before, replies.last());
                let reason = choose|reason: Seq<char>| #[trigger]
                    gives_reason(replies.last(), reason) && ends_with(complaint, reason);
                assert(gives_reason(replies[last], reason));
            }
        }
    }
}

/// The complaint about each failure tells its reason and is otherwise always the same.
pub proof fn law_complaints_differ_only_in_their_reason(
    context: LaunchContextView,
    forked: bool,
    pid: i32,
    error: IoErrorView,
    other: IoErrorView,
)
    ensures
        forall|state: LaunchState|
            #![trigger complaint_of(launch_next(state, LaunchReply::Done(Err(error))))]
            complaint_of(state) is None ==> (complaint_of(
                launch_next(state, LaunchReply::Done(Err(error))),
            ) matches Some(complaint) ==> (complaint_of(
                launch_next(state, LaunchReply::Done(Err(other))),
            ) matches Some(other_complaint) ==> differ_only_in_reason(
                complaint,
                error.message,
                other_complaint,
                other.message,
            ))),
        complaint_of(
            launch_next(LaunchState::Fork { context }, LaunchReply::Forked(Err(error))),
        ) matches Some(complaint) && (complaint_of(
            launch_next(LaunchState::Fork { context }, LaunchReply::Forked(Err(other))),
        ) matches Some(other_complaint) && differ_only_in_reason(
            complaint,
            error.message,
            other_complaint,
            other.message,
        )),
        complaint_of(
            launch_next(
                LaunchState::RestoreSignals { context, forked },
                LaunchReply::Restored(Err(error), 0),
            ),
        ) matches Some(complaint) && (complaint_of(
            launch_next(
                LaunchState::RestoreSignals { context, forked },
                LaunchReply::Restored(Err(other), 0),
            ),
        ) matches Some(other_complaint) && differ_only_in_reason(
            complaint,
            error.message,
            other_complaint,
            other.message,
        )),
        complaint_of(
            launch_next(LaunchState::JoinGroup { context }, LaunchReply::Done(Err(error))),
        ) is Some,
        launch_next(
            LaunchState::Activate { context, pid },
            LaunchReply::Done(Err(error)),
        ) matches LaunchState::Abandon { pid: p, .. } && p == pid,
        error.raw_os_error != Some(13i32) && error.raw_os_error != Some(3i32) ==> (launch_next(
            LaunchState::GroupWorkload { context, pid },
            LaunchReply::Done(Err(error)),
        ) matches LaunchState::Abandon { pid: p, .. } && p == pid),
{
    let (a, b) = (error.message, other.message);
    lemma_differ_only_in_reason("failed to fork workload: "@, a, b);
    lemma_differ_only_in_reason("failed to create workload process group: "@, a, b);
    lemma_differ_only_in_reason("failed to activate signal forwarding: "@, a, b);
    lemma_differ_only_in_reason("failed to restore workload signal state: "@, a, b);
}

/// A workload that is given up is given up with the complaint that it was abandoned for.
pub proof fn law_an_abandoned_workload_leaves_its_complaint(pid: i32, message: Seq<char>)
    ensures
        launch_next(LaunchState::Abandon { pid, message }, LaunchReply::Abandoned) == (
        LaunchState::Over { result: Err(message), forked: false, clears: false }),
{
}

/// The program and the arguments of a command are, put together, the tokens that it was
/// given as: none is lost, changed or moved.
pub proof fn law_a_command_is_its_tokens_in_order(tokens: Seq<Seq<char>>)
    requires
        tokens.len() > 0,
    ensures
        seq![command_of(tokens).program] + command_of(tokens).args == tokens,
        command_of(tokens).args.len() + 1 == tokens.len(),
{
    assert(seq![command_of(tokens).program] + command_of(tokens).args =~= tokens);
}

/// What forking and ending come to is seen as it is.
pub proof fn law_launch_results_are_seen_as_they_are(
    forked: Result<Option<i32>, IoError>,
    result: Result<i32, String>,
    notice: Option<String>,
    reap: Reap,
    ending: Ending,
)
    ensures
        forked matches Ok(child) ==> fork_result(forked) == Ok::<Option<i32>, IoErrorView>(child),
        forked matches Err(error) ==> fork_result(forked) == Err::<Option<i32>, IoErrorView>(
            error@,
        ),
        result matches Ok(code) ==> status_result(result) == Ok::<int, Seq<char>>(code as int),
        result matches Err(message) ==> status_result(result) == Err::<int, Seq<char>>(message@),
        notice matches Some(text) ==> notice_view(notice) == Some(text@),
        notice is None ==> notice_view(notice) is None,
        reap@ matches LaunchState::Reap { pid, status } && {
            &&& pid == reap.pid
            &&& reap.status matches Some(code) ==> status == Some(code as int)
            &&& reap.status is None ==> status is None
        },
        ending@ matches LaunchState::Over { result: seen, forked: child, clears } && {
            &&& ending.result matches Ok(code) ==> seen == Ok::<int, Seq<char>>(code as int)
            &&& ending.result matches Err(message) ==> seen == Err::<int, Seq<char>>(message@)
            &&& child == ending.forked
            &&& clears == ending.clears
        },
{
}

/// Exactly the process that was forked ends as one that was: whatever it meets after the
/// fork, and however the process that forked it ends. Only a process that supervises a
/// workload ever stops forwarding signals.
pub proof fn law_exactly_the_forked_process_ends_as_one(
    context: LaunchContextView,
    pid: i32,
    error: IoErrorView,
    replies: Seq<LaunchReply>,
)
    ensures
        launch_next(LaunchState::Fork { context }, LaunchReply::Forked(Ok(None)))
            == (LaunchState::JoinGroup { context }),
        launch_next(LaunchState::Fork { context }, LaunchReply::Forked(Ok(Some(pid))))
            == (LaunchState::GroupWorkload { context, pid }),
        launch_next(
            LaunchState::Fork { context },
            LaunchReply::Forked(Err(error)),
        ) matches LaunchState::Over { forked, clears, .. } && !forked && !clears,
        launch_after(
            LaunchState::JoinGroup { context },
            replies,
        ) matches LaunchState::Over { forked, clears, .. } ==> forked && !clears,
        launch_after(
            LaunchState::RestoreSignals { context, forked: false },
            replies,
        ) matches LaunchState::Over { forked, clears, .. } ==> !forked && !clears,
        launch_after(
            LaunchState::GroupWorkload { context, pid },
            replies,
        ) matches LaunchState::Over { forked, .. } ==> !forked,
{
    lemma_becoming_the_command(LaunchState::JoinGroup { context }, true, replies);
    lemma_becoming_the_command(
        LaunchState::RestoreSignals { context, forked: false },
        false,
        replies,
    );
    lemma_supervising(context, pid, replies);
}

proof fn lemma_becoming_the_command(start: LaunchState, was_forked: bool, replies: Seq<LaunchReply>)
    requires
        match start {
            LaunchState::JoinGroup { .. } => was_forked,
            LaunchState::RestoreSignals { forked, .. } => forked == was_forked,
            _ => false,
        },
    ensures
        match launch_after(start, replies) {
            LaunchState::JoinGroup { .. } => was_forked,
            LaunchState::RestoreSignals { forked, .. } => forked == was_forked,
            LaunchState::Exec { forked, .. } => forked == was_forked,
            LaunchState::Over { forked, clears, .. } => forked == was_forked && !clears,
            _ => false,
        },
    decreases replies.len(),
{
    if replies.len() > 0 {
        lemma_becoming_the_command(start, was_forked, replies.drop_last());
    }
}

proof fn lemma_supervising(context: LaunchContextView, pid: i32, replies: Seq<LaunchReply>)
    ensures
        match launch_after(LaunchState::GroupWorkload { context, pid }, replies) {
            LaunchState::GroupWorkload { .. } => true,
            LaunchState::Activate { .. } => true,
            LaunchState::Abandon { .. } => true,
            LaunchState::Reap { .. } => true,
            LaunchState::Over { forked, .. } => !forked,
            _ => false,
        },
    decreases replies.len(),
{
    if replies.len() > 0 {
        lemma_supervising(context, pid, replies.drop_last());
    }
}

/// Launching says something in three cases alone: a process that is about to become the
/// command tells its number, a command that does not start is told with its reason, and so
/// is a wait that fails other than by an interruption or for want of a process.
pub proof fn law_launching_speaks_only_when_there_is_something_to_tell(
    state: LaunchState,
    reply: LaunchReply,
)
    ensures
        launch_notice(state, reply) is Some <==> match reply {
            LaunchReply::Restored(restored, _) => state is RestoreSignals && restored is Ok,
            LaunchReply::NotStarted(_) => state is Exec,
            LaunchReply::Waited(Err(error)) => state is Reap && error.raw_os_error != Some(4i32)
                && error.raw_os_error != Some(10i32),
            _ => false,
        },
        (launch_notice(state, reply) is Some && reply is NotStarted) ==> ends_with(
            launch_notice(state, reply)->0,
            reply->NotStarted_0.message,
        ),
        launch_notice(state, reply) is Some ==> (reply matches LaunchReply::Waited(Err(error))
            ==> ends_with(launch_notice(state, reply)->0, error.message@)),
{
    match reply {
        LaunchReply::NotStarted(error) => {
            lemma_ends_with("failed to execute command: "@, error.message);
        },
        LaunchReply::Waited(Err(error)) => {
            lemma_ends_with("failed to wait for workload: "@, error.message@);
        },
        _ => {},
    }
}

} // verus!
