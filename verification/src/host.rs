//! The runtime on the host: what it resolves and takes over before a container is
//! started, and what it puts back after the container has ended.

use crate::cgroup::{
    cgroup_after, cgroup_history, cgroup_start, cgroup_view, law_a_ready_cgroup_has_its_limit,
    law_exactly_limited_runs_have_a_cgroup, Cgroup, CgroupReply, CgroupState, CgroupStep,
};
use crate::cli::{BindMount, BindMountView, Cli, CliView};
use crate::config::{policy_at, ConfigContents, ConfigSource, ResourceConfig, RuntimeConfig};
use crate::container::{namespace_clone_flags, plan_in, plan_of, run_container, Setup};
use crate::error::{path_result, reported, unit_result, ErrorKind, IoError, IoErrorView};
use crate::path::UnixPath;
use crate::platform::{
    clone_flag_set, new_mount_flag, new_pid_flag, new_uts_flag, sigchld,
};
use crate::process::{
    end_in_report, process_target, status_of, wait_for_process, wait_result, Activation,
    ProcessOutcome, Restoration, Signal, SignalForwarder, WaitStatus, WaitStep,
    RUNTIME_ERROR_EXIT_CODE,
};
use crate::sequences::lemma_contains_after_push;
use crate::text::{
    differ_only_in_reason, display, ends_with, lemma_differ_only_in_reason, lemma_ends_with,
    lossy_text, tells, text_of_two,
};
use crate::workload::notice_view;
use nix::sched::CloneFlags;
use vstd::prelude::*;

verus! {

/// How much stack the container's first process has, in bytes.
pub const STACK_SIZE: usize = 0x10_0000;

/// The result of a run whose container ended with `runtime` and whose cgroup was
/// removed with `cleanup`. How the container ended comes first.
pub open spec fn resolved(
    runtime: Result<ProcessOutcome, IoErrorView>,
    cleanup: Result<(), IoErrorView>,
) -> Result<ProcessOutcome, IoErrorView> {
    match (runtime, cleanup) {
        (Err(error), Err(cleanup)) => Err(
            reported(
                ErrorKind::Other,
                error.message + "; also failed to remove cgroup: "@ + cleanup.message,
            ),
        ),
        _ => runtime,
    }
}

/// What is said about the removal of the cgroup, apart from the result.
pub open spec fn cleanup_notice(
    runtime: Result<ProcessOutcome, IoErrorView>,
    cleanup: Result<(), IoErrorView>,
) -> Seq<Seq<char>> {
    match (runtime, cleanup) {
        (Ok(_), Err(error)) => seq!["failed to remove cgroup: "@ + error.message],
        _ => Seq::empty(),
    }
}

/// The view of a run's result.
pub open spec fn outcome_result(result: Result<ProcessOutcome, IoError>) -> Result<
    ProcessOutcome,
    IoErrorView,
> {
    match result {
        Ok(outcome) => Ok(outcome),
        Err(error) => Err(error@),
    }
}

/// The views of notices.
pub open spec fn notices_view(notices: Seq<String>) -> Seq<Seq<char>> {
    notices.map_values(|notice: String| notice@)
}

/// The result of a run, and what is said about the removal of its cgroup.
pub fn resolve_runtime_and_cleanup(
    runtime_result: Result<ProcessOutcome, IoError>,
    cleanup_result: Result<(), IoError>,
) -> (end: (Result<ProcessOutcome, IoError>, Vec<String>))
    ensures
        outcome_result(end.0) == resolved(
            outcome_result(runtime_result),
            unit_result(cleanup_result),
        ),
        notices_view(end.1@) == cleanup_notice(
            outcome_result(runtime_result),
            unit_result(cleanup_result),
        ),
{
    let mut notices: Vec<String> = Vec::new();
    match (runtime_result, cleanup_result) {
        (Ok(code), Ok(_)) => {
            assert(notices_view(notices@) =~= Seq::<Seq<char>>::empty());
            (Ok(code), notices)
        },
        (Ok(code), Err(error)) => {
            notices.push(text_of_two("failed to remove cgroup: ", error.message.as_str()));
            assert(notices_view(notices@) =~= seq![
                "failed to remove cgroup: "@ + error.message@,
            ]);
            (Ok(code), notices)
        },
        (Err(error), Ok(_)) => {
            assert(notices_view(notices@) =~= Seq::<Seq<char>>::empty());
            (Err(error), notices)
        },
        (Err(runtime_error), Err(cleanup_error)) => {
            assert(notices_view(notices@) =~= Seq::<Seq<char>>::empty());
            let mut message = text_of_two(
                runtime_error.message.as_str(),
                "; also failed to remove cgroup: ",
            );
            message.append(cleanup_error.message.as_str());
            (Err(IoError::other(message)), notices)
        },
    }
}

/// The status that the runtime exits with.
pub open spec fn exit_status_of(result: Result<ProcessOutcome, IoErrorView>) -> int {
    match result {
        Ok(outcome) => status_of(outcome),
        Err(_) => RUNTIME_ERROR_EXIT_CODE as int,
    }
}

/// What the runtime says before it exits.
pub open spec fn exit_notice(result: Result<ProcessOutcome, IoErrorView>) -> Option<Seq<char>> {
    match result {
        Ok(_) => None,
        Err(error) => Some("error: "@ + error.message),
    }
}

/// The status that the runtime exits with, and what it says before that.
pub fn exit_status(result: Result<ProcessOutcome, IoError>) -> (end: (i32, Option<String>))
    ensures
        end.0 == exit_status_of(outcome_result(result)),
        match result {
            Ok(_) => end.1 is None,
            Err(error) => end.1 matches Some(notice) && notice@ == "error: "@ + error.message@,
        },
        notice_view(end.1) == exit_notice(outcome_result(result)),
{
    match result {
        Ok(outcome) => (outcome.exit_code(), None),
        Err(error) => {
            let notice = text_of_two("error: ", error.message.as_str());
            (RUNTIME_ERROR_EXIT_CODE, Some(notice))
        },
    }
}

/// How far a run is. Before the container is started the state holds the run and the
/// resources that are limited; afterwards what has to be put back: how signals were
/// treated, and the cgroup, if there is one.
pub enum HostState {
    /// Read the configuration file.
    ReadConfig { run: CliView, path: Seq<u8> },
    /// What is the real path of the root file system?
    ResolveRootfs { run: CliView, resources: ResourceConfig },
    /// Is it a directory?
    CheckRootfs { run: CliView, resources: ResourceConfig },
    /// What is the real path of the source of the bind mount with this number?
    ResolveMount { run: CliView, resources: ResourceConfig, index: int },
    /// Take over the signals that are forwarded.
    InstallSignals { run: CliView, resources: ResourceConfig },
    /// Create the cgroup.
    CreateCgroup { run: CliView, resources: ResourceConfig, signals: SignalForwarder },
    /// Start the container's first process.
    CloneRuntime { run: CliView, signals: SignalForwarder, cgroup: Option<Seq<u8>> },
    /// Forward signals to it.
    Activate { signals: SignalForwarder, cgroup: Option<Seq<u8>>, pid: i32 },
    /// Kill it, whether that works or not.
    Kill { signals: SignalForwarder, cgroup: Option<Seq<u8>>, pid: i32, error: IoErrorView },
    /// Wait for it. Where it was killed there is a reason, and what waiting reports
    /// does not matter.
    Await {
        signals: SignalForwarder,
        cgroup: Option<Seq<u8>>,
        pid: i32,
        reason: Option<IoErrorView>,
    },
    /// Remove the cgroup.
    RemoveCgroup {
        signals: SignalForwarder,
        path: Seq<u8>,
        runtime: Result<ProcessOutcome, IoErrorView>,
    },
    /// Treat signals as before.
    RestoreSignals {
        signals: SignalForwarder,
        runtime: Result<ProcessOutcome, IoErrorView>,
        cleanup: Result<(), IoErrorView>,
    },
    /// The run is over.
    Finished { result: Result<ProcessOutcome, IoErrorView> },
}

/// What came back.
pub enum HostReply {
    Config(ConfigContents),
    Path(Result<Seq<u8>, IoErrorView>),
    IsDirectory(bool),
    Installed(Result<SignalForwarder, IoErrorView>),
    Cgroup(Result<Option<Seq<u8>>, IoErrorView>),
    Cloned(Result<i32, IoErrorView>),
    Done(Result<(), IoErrorView>),
    Killed,
    Waited(Result<WaitStatus, IoError>),
}

/// How a run begins.
pub open spec fn host_start(run: CliView) -> HostState {
    match run.config {
        Some(path) => HostState::ReadConfig { run, path },
        None => HostState::ResolveRootfs { run, resources: ResourceConfig { pids: None } },
    }
}

/// The run fails at once.
pub open spec fn host_failed(error: IoErrorView) -> HostState {
    HostState::Finished { result: Err(error) }
}

/// The bind mounts from `index` on are resolved next.
pub open spec fn resolve_from(run: CliView, resources: ResourceConfig, index: int) -> HostState {
    if index < run.bind_mounts.len() {
        HostState::ResolveMount { run, resources, index }
    } else {
        HostState::InstallSignals { run, resources }
    }
}

/// The run with another source of the bind mount with the given number.
pub open spec fn with_source(run: CliView, index: int, source: Seq<u8>) -> CliView {
    CliView {
        bind_mounts: run.bind_mounts.update(
            index,
            BindMountView { source, destination: run.bind_mounts[index].destination },
        ),
        ..run
    }
}

/// The complaint about a bind mount whose source cannot be resolved.
pub open spec fn unresolved(source: Seq<u8>, error: IoErrorView) -> IoErrorView {
    reported(
        error.kind,
        "failed to resolve bind mount source "@ + lossy_text(source) + ": "@ + error.message,
    )
}

/// The container has ended: what has to be put back first.
pub open spec fn clean_up(
    signals: SignalForwarder,
    cgroup: Option<Seq<u8>>,
    runtime: Result<ProcessOutcome, IoErrorView>,
) -> HostState {
    match cgroup {
        Some(path) => HostState::RemoveCgroup { signals, path, runtime },
        None => HostState::RestoreSignals { signals, runtime, cleanup: Ok(()) },
    }
}

/// What follows a reply. A reply to another question changes nothing.
pub open spec fn host_next(state: HostState, reply: HostReply) -> HostState {
    match (state, reply) {
        (HostState::ReadConfig { run, path }, HostReply::Config(contents)) => {
            match policy_at(path, contents) {
                Ok(config) => HostState::ResolveRootfs { run, resources: config.resources },
                Err(error) => host_failed(error),
            }
        },
        (HostState::ResolveRootfs { run, resources }, HostReply::Path(Ok(rootfs))) => {
            HostState::CheckRootfs { run: CliView { rootfs, ..run }, resources }
        },
        (HostState::ResolveRootfs { .. }, HostReply::Path(Err(error))) => host_failed(error),
        (HostState::CheckRootfs { run, resources }, HostReply::IsDirectory(is_directory)) => {
            if is_directory {
                resolve_from(run, resources, 0)
            } else {
                host_failed(
                    reported(
                        ErrorKind::InvalidInput,
                        "rootfs is not a directory: "@ + lossy_text(run.rootfs),
                    ),
                )
            }
        },
        (HostState::ResolveMount { run, resources, index }, HostReply::Path(Ok(source))) => {
            resolve_from(with_source(run, index, source), resources, index + 1)
        },
        (HostState::ResolveMount { run, index, .. }, HostReply::Path(Err(error))) => {
            host_failed(unresolved(run.bind_mounts[index].source, error))
        },
        (HostState::InstallSignals { run, resources }, HostReply::Installed(Ok(signals))) => {
            HostState::CreateCgroup { run, resources, signals }
        },
        (HostState::InstallSignals { .. }, HostReply::Installed(Err(error))) => host_failed(error),
        (HostState::CreateCgroup { run, signals, .. }, HostReply::Cgroup(Ok(cgroup))) => {
            HostState::CloneRuntime { run, signals, cgroup }
        },
        (HostState::CreateCgroup { .. }, HostReply::Cgroup(Err(error))) => host_failed(error),
        (HostState::CloneRuntime { signals, cgroup, .. }, HostReply::Cloned(Ok(pid))) => {
            HostState::Activate { signals, cgroup, pid }
        },
        (HostState::CloneRuntime { signals, cgroup, .. }, HostReply::Cloned(Err(error))) => {
            clean_up(signals, cgroup, Err(error))
        },
        (HostState::Activate { signals, cgroup, pid }, HostReply::Done(Ok(_))) => {
            HostState::Await { signals, cgroup, pid, reason: None }
        },
        (HostState::Activate { signals, cgroup, pid }, HostReply::Done(Err(error))) => {
            HostState::Kill { signals, cgroup, pid, error }
        },
        (HostState::Kill { signals, cgroup, pid, error }, HostReply::Killed) => {
            HostState::Await { signals, cgroup, pid, reason: Some(error) }
        },
        (HostState::Await { signals, cgroup, pid, reason }, HostReply::Waited(reply)) => {
            match wait_result(reply, pid) {
                Some(runtime) => clean_up(
                    signals,
                    cgroup,
                    match reason {
                        Some(error) => Err(error),
                        None => runtime,
                    },
                ),
                None => state,
            }
        },
        (HostState::RemoveCgroup { signals, runtime, .. }, HostReply::Done(cleanup)) => {
            HostState::RestoreSignals { signals, runtime, cleanup }
        },
        (HostState::RestoreSignals { runtime, cleanup, .. }, HostReply::Done(_)) => {
            HostState::Finished { result: resolved(runtime, cleanup) }
        },
        _ => state,
    }
}

/// What to do next in order to run a container.
#[derive(Debug)]
pub enum HostStep {
    ReadConfig(ReadConfig),
    ResolveRootfs(ResolveRootfs),
    CheckRootfs(CheckRootfs),
    ResolveMount(ResolveMount),
    InstallSignals(InstallSignals),
    CreateCgroup(CreateCgroup),
    CloneRuntime(CloneRuntime),
    Activate(ActivateRuntime),
    Kill(KillRuntime),
    Await(AwaitRuntime),
    RemoveCgroup(RemoveCgroup),
    RestoreSignals(RestoreHostSignals),
    Finished(Result<ProcessOutcome, IoError>),
}

impl View for HostStep {
    type V = HostState;

    open spec fn view(&self) -> HostState {
        match self {
            HostStep::ReadConfig(step) => step@,
            HostStep::ResolveRootfs(step) => step@,
            HostStep::CheckRootfs(step) => step@,
            HostStep::ResolveMount(step) => step@,
            HostStep::InstallSignals(step) => step@,
            HostStep::CreateCgroup(step) => step@,
            HostStep::CloneRuntime(step) => step@,
            HostStep::Activate(step) => step@,
            HostStep::Kill(step) => step@,
            HostStep::Await(step) => step@,
            HostStep::RemoveCgroup(step) => step@,
            HostStep::RestoreSignals(step) => step@,
            HostStep::Finished(result) => HostState::Finished { result: outcome_result(*result) },
        }
    }
}

/// Begins a run.
pub fn initialize_namespaced_runtime(args: Cli) -> (step: HostStep)
    ensures
        step@ == host_start(args@),
{
    match &args.config {
        Some(path) => {
            let path = path.clone();
            HostStep::ReadConfig(ReadConfig { args, path })
        },
        None => with_policy(args, RuntimeConfig::load(None)),
    }
}

/// The run with its policy, if that is good.
fn with_policy(args: Cli, loaded: Result<RuntimeConfig, IoError>) -> (step: HostStep)
    ensures
        match loaded {
            Ok(config) => step@ == (HostState::ResolveRootfs {
                run: args@,
                resources: config.resources,
            }),
            Err(error) => step@ == host_failed(error@),
        },
{
    match loaded {
        Ok(config) => HostStep::ResolveRootfs(ResolveRootfs { args, resources: config.resources }),
        Err(error) => HostStep::Finished(Err(error)),
    }
}

/// Read the configuration file.
#[derive(Debug)]
pub struct ReadConfig {
    pub args: Cli,
    pub path: UnixPath,
}

impl View for ReadConfig {
    type V = HostState;

    open spec fn view(&self) -> HostState {
        HostState::ReadConfig { run: self.args@, path: self.path@ }
    }
}

impl ReadConfig {
    pub fn answered(self, contents: ConfigContents) -> (step: HostStep)
        ensures
            step@ == host_next(self@, HostReply::Config(contents)),
    {
        let source = ConfigSource { path: self.path, contents };
        with_policy(self.args, RuntimeConfig::load(Some(source)))
    }
}

/// What is the real path of the root file system?
#[derive(Debug)]
pub struct ResolveRootfs {
    pub args: Cli,
    pub resources: ResourceConfig,
}

impl View for ResolveRootfs {
    type V = HostState;

    open spec fn view(&self) -> HostState {
        HostState::ResolveRootfs { run: self.args@, resources: self.resources }
    }
}

impl ResolveRootfs {
    pub fn answered(self, resolved: Result<UnixPath, IoError>) -> (step: HostStep)
        ensures
            step@ == host_next(self@, HostReply::Path(path_result(resolved))),
    {
        match resolved {
            Ok(rootfs) => {
                let mut args = self.args;
                args.rootfs = rootfs;
                HostStep::CheckRootfs(CheckRootfs { args, resources: self.resources })
            },
            Err(error) => HostStep::Finished(Err(error)),
        }
    }
}

/// Is the root file system a directory?
#[derive(Debug)]
pub struct CheckRootfs {
    pub args: Cli,
    pub resources: ResourceConfig,
}

impl View for CheckRootfs {
    type V = HostState;

    open spec fn view(&self) -> HostState {
        HostState::CheckRootfs { run: self.args@, resources: self.resources }
    }
}

fn resolve_rest(args: Cli, resources: ResourceConfig, index: usize) -> (step: HostStep)
    ensures
        step@ == resolve_from(args@, resources, index as int),
{
    if index < args.bind_mounts.len() {
        HostStep::ResolveMount(ResolveMount { args, resources, index })
    } else {
        HostStep::InstallSignals(InstallSignals { args, resources })
    }
}

impl CheckRootfs {
    pub fn answered(self, is_directory: bool) -> (step: HostStep)
        ensures
            step@ == host_next(self@, HostReply::IsDirectory(is_directory)),
    {
        if is_directory {
            resolve_rest(self.args, self.resources, 0)
        } else {
            let message = text_of_two(
                "rootfs is not a directory: ",
                display(&self.args.rootfs).as_str(),
            );
            HostStep::Finished(Err(IoError::new(ErrorKind::InvalidInput, message)))
        }
    }
}

/// What is the real path of the source of a bind mount?
#[derive(Debug)]
pub struct ResolveMount {
    args: Cli,
    resources: ResourceConfig,
    index: usize,
}

impl View for ResolveMount {
    type V = HostState;

    closed spec fn view(&self) -> HostState {
        HostState::ResolveMount {
            run: self.args@,
            resources: self.resources,
            index: self.index as int,
        }
    }
}

impl ResolveMount {
    #[verifier::type_invariant]
    spec fn has_mount(self) -> bool {
        self.index < self.args.bind_mounts@.len()
    }

    /// The path to resolve.
    pub fn source(&self) -> (source: &UnixPath)
        ensures
            self@ matches HostState::ResolveMount { run, index, .. } && 0 <= index
                < run.bind_mounts.len() && source@ == run.bind_mounts[index].source,
    {
        proof {
            use_type_invariant(self);
        }
        &self.args.bind_mounts[self.index].source
    }

    pub fn answered(self, resolved: Result<UnixPath, IoError>) -> (step: HostStep)
        ensures
            step@ == host_next(self@, HostReply::Path(path_result(resolved))),
    {
        proof {
            use_type_invariant(&self);
        }
        match resolved {
            Ok(source) => {
                let ghost run = self.args@;
                let index = self.index;
                let mut args = self.args;
                let total = args.bind_mounts.len();
                let destination = args.bind_mounts[index].destination.clone();
                let ghost wanted = with_source(run, index as int, source@);
                args.bind_mounts.set(index, BindMount { source, destination });
                assert(args@.bind_mounts =~= wanted.bind_mounts);
                assert(index < total);
                resolve_rest(args, self.resources, index + 1)
            },
            Err(error) => {
                let mut message = text_of_two(
                    "failed to resolve bind mount source ",
                    display(self.source()).as_str(),
                );
                message.append(": ");
                message.append(error.message.as_str());
                HostStep::Finished(Err(IoError::new(error.kind, message)))
            },
        }
    }
}

/// Take over the signals that are forwarded.
#[derive(Debug)]
pub struct InstallSignals {
    pub args: Cli,
    pub resources: ResourceConfig,
}

impl View for InstallSignals {
    type V = HostState;

    open spec fn view(&self) -> HostState {
        HostState::InstallSignals { run: self.args@, resources: self.resources }
    }
}

/// The view of what taking over the signals came to.
pub open spec fn forwarder_result(installed: Result<SignalForwarder, IoError>) -> Result<
    SignalForwarder,
    IoErrorView,
> {
    match installed {
        Ok(signals) => Ok(signals),
        Err(error) => Err(error@),
    }
}

impl InstallSignals {
    pub fn answered(self, installed: Result<SignalForwarder, IoError>) -> (step: HostStep)
        ensures
            step@ == host_next(self@, HostReply::Installed(forwarder_result(installed))),
    {
        match installed {
            Ok(signals) => HostStep::CreateCgroup(
                CreateCgroup { args: self.args, resources: self.resources, signals },
            ),
            Err(error) => HostStep::Finished(Err(error)),
        }
    }
}

/// Create the cgroup.
#[derive(Debug)]
pub struct CreateCgroup {
    pub args: Cli,
    pub resources: ResourceConfig,
    pub signals: SignalForwarder,
}

impl View for CreateCgroup {
    type V = HostState;

    open spec fn view(&self) -> HostState {
        HostState::CreateCgroup {
            run: self.args@,
            resources: self.resources,
            signals: self.signals,
        }
    }
}

/// The view of what creating a cgroup came to.
pub open spec fn cgroup_result(created: Result<Option<Cgroup>, IoError>) -> Result<
    Option<Seq<u8>>,
    IoErrorView,
> {
    match created {
        Ok(cgroup) => Ok(cgroup_view(cgroup)),
        Err(error) => Err(error@),
    }
}

impl CreateCgroup {
    /// How creating begins.
    pub fn creation(&self) -> (step: CgroupStep)
        ensures
            step@ == cgroup_start(self.resources),
    {
        Cgroup::create(&self.resources)
    }

    pub fn answered(self, created: Result<Option<Cgroup>, IoError>) -> (step: HostStep)
        ensures
            step@ == host_next(self@, HostReply::Cgroup(cgroup_result(created))),
    {
        match created {
            Ok(cgroup) => HostStep::CloneRuntime(
                CloneRuntime { args: self.args, signals: self.signals, cgroup },
            ),
            Err(error) => HostStep::Finished(Err(error)),
        }
    }
}

/// How a process is cloned.
#[derive(Debug)]
pub struct CloneRequest {
    pub flags: CloneFlags,
    pub stack_size: usize,
    pub exit_signal: i32,
}

/// Start the container's first process.
#[derive(Debug)]
pub struct CloneRuntime {
    pub args: Cli,
    pub signals: SignalForwarder,
    pub cgroup: Option<Cgroup>,
}

impl View for CloneRuntime {
    type V = HostState;

    open spec fn view(&self) -> HostState {
        HostState::CloneRuntime {
            run: self.args@,
            signals: self.signals,
            cgroup: cgroup_view(self.cgroup),
        }
    }
}

fn cleaned_up(
    signals: SignalForwarder,
    cgroup: Option<Cgroup>,
    runtime: Result<ProcessOutcome, IoError>,
) -> (step: HostStep)
    ensures
        step@ == clean_up(signals, cgroup_view(cgroup), outcome_result(runtime)),
{
    match cgroup {
        Some(cgroup) => HostStep::RemoveCgroup(RemoveCgroup { signals, cgroup, runtime }),
        None => {
            let step = RestoreHostSignals { signals, runtime, cleanup: Ok(()) };
            assert(unit_result(step.cleanup) == Ok::<(), IoErrorView>(()));
            HostStep::RestoreSignals(step)
        },
    }
}

impl CloneRuntime {
    /// What the container's first process begins with.
    pub fn container<'a>(&'a self) -> (setup: Setup<'a>)
        ensures
            setup.run() == self.args,
            setup.cgroup() == cgroup_view(self.cgroup),
            setup.signals() == self.signals,
            setup.plan() == plan_of(self.args, self.cgroup is Some),
            setup.plan() == plan_in(self.args, cgroup_view(self.cgroup)),
            setup.taken() == 0,
    {
        run_container(&self.args, self.cgroup.as_ref(), &self.signals)
    }

    /// The process has namespaces of its own, and its end is reported by SIGCHLD,
    /// whose number the machine decides.
    pub fn request(&self) -> (request: CloneRequest)
        ensures
            clone_flag_set(request.flags) == set![
                new_uts_flag(),
                new_pid_flag(),
                new_mount_flag(),
            ],
            request.stack_size == STACK_SIZE,
            request.exit_signal == 17 || request.exit_signal == 18 || request.exit_signal == 20,
    {
        CloneRequest {
            flags: namespace_clone_flags(),
            stack_size: STACK_SIZE,
            exit_signal: sigchld(),
        }
    }

    pub fn answered(self, cloned: Result<i32, IoError>) -> (step: HostStep)
        ensures
            step@ == host_next(
                self@,
                HostReply::Cloned(
                    match cloned {
                        Ok(pid) => Ok(pid),
                        Err(error) => Err(error@),
                    },
                ),
            ),
    {
        match cloned {
            Ok(pid) => HostStep::Activate(
                ActivateRuntime { signals: self.signals, cgroup: self.cgroup, pid },
            ),
            Err(error) => cleaned_up(self.signals, self.cgroup, Err(error)),
        }
    }
}

/// Forward signals to the container's first process.
#[derive(Debug)]
pub struct ActivateRuntime {
    pub signals: SignalForwarder,
    pub cgroup: Option<Cgroup>,
    pub pid: i32,
}

impl View for ActivateRuntime {
    type V = HostState;

    open spec fn view(&self) -> HostState {
        HostState::Activate {
            signals: self.signals,
            cgroup: cgroup_view(self.cgroup),
            pid: self.pid,
        }
    }
}

impl ActivateRuntime {
    /// How forwarding begins.
    pub fn activation(&self) -> (activation: Activation)
        ensures
            activation.target == process_target(self.pid as int),
            activation.mask == self.signals.mask,
    {
        self.signals.activate_process(self.pid)
    }

    pub fn answered(self, activated: Result<(), IoError>) -> (step: HostStep)
        ensures
            step@ == host_next(self@, HostReply::Done(unit_result(activated))),
    {
        match activated {
            Ok(_) => HostStep::Await(
                AwaitRuntime {
                    signals: self.signals,
                    cgroup: self.cgroup,
                    pid: self.pid,
                    reason: None,
                },
            ),
            Err(error) => HostStep::Kill(
                KillRuntime { signals: self.signals, cgroup: self.cgroup, pid: self.pid, error },
            ),
        }
    }
}

/// Kill the container's first process, whether that works or not.
#[derive(Debug)]
pub struct KillRuntime {
    pub signals: SignalForwarder,
    pub cgroup: Option<Cgroup>,
    pub pid: i32,
    pub error: IoError,
}

impl View for KillRuntime {
    type V = HostState;

    open spec fn view(&self) -> HostState {
        HostState::Kill {
            signals: self.signals,
            cgroup: cgroup_view(self.cgroup),
            pid: self.pid,
            error: self.error@,
        }
    }
}

impl KillRuntime {
    /// The signal that kills it.
    pub fn signal(&self) -> (signal: Signal)
        ensures
            signal@ == 9,
    {
        Signal::kill()
    }

    pub fn done(self) -> (step: HostStep)
        ensures
            step@ == host_next(self@, HostReply::Killed),
    {
        HostStep::Await(
            AwaitRuntime {
                signals: self.signals,
                cgroup: self.cgroup,
                pid: self.pid,
                reason: Some(self.error),
            },
        )
    }
}

/// Wait for the container's first process.
#[derive(Debug)]
pub struct AwaitRuntime {
    pub signals: SignalForwarder,
    pub cgroup: Option<Cgroup>,
    pub pid: i32,
    pub reason: Option<IoError>,
}

impl View for AwaitRuntime {
    type V = HostState;

    open spec fn view(&self) -> HostState {
        HostState::Await {
            signals: self.signals,
            cgroup: cgroup_view(self.cgroup),
            pid: self.pid,
            reason: match self.reason {
                Some(error) => Some(error@),
                None => None,
            },
        }
    }
}

impl AwaitRuntime {
    pub fn answered(self, reply: Result<WaitStatus, IoError>) -> (step: HostStep)
        ensures
            step@ == host_next(self@, HostReply::Waited(reply)),
    {
        match wait_for_process(reply, self.pid) {
            WaitStep::Again => HostStep::Await(self),
            WaitStep::Over(runtime) => match self.reason {
                Some(error) => cleaned_up(self.signals, self.cgroup, Err(error)),
                None => cleaned_up(self.signals, self.cgroup, runtime),
            },
        }
    }
}

/// Remove the cgroup.
#[derive(Debug)]
pub struct RemoveCgroup {
    pub signals: SignalForwarder,
    pub cgroup: Cgroup,
    pub runtime: Result<ProcessOutcome, IoError>,
}

impl View for RemoveCgroup {
    type V = HostState;

    open spec fn view(&self) -> HostState {
        HostState::RemoveCgroup {
            signals: self.signals,
            path: self.cgroup@,
            runtime: outcome_result(self.runtime),
        }
    }
}

impl RemoveCgroup {
    /// The directory to remove.
    pub fn directory(&self) -> (directory: UnixPath)
        ensures
            directory@ == self.cgroup@,
    {
        self.cgroup.remove()
    }

    pub fn answered(self, removed: Result<(), IoError>) -> (step: HostStep)
        ensures
            step@ == host_next(self@, HostReply::Done(unit_result(removed))),
    {
        HostStep::RestoreSignals(
            RestoreHostSignals { signals: self.signals, runtime: self.runtime, cleanup: removed },
        )
    }
}

/// Treat signals as before.
#[derive(Debug)]
pub struct RestoreHostSignals {
    pub signals: SignalForwarder,
    pub runtime: Result<ProcessOutcome, IoError>,
    pub cleanup: Result<(), IoError>,
}

impl View for RestoreHostSignals {
    type V = HostState;

    open spec fn view(&self) -> HostState {
        HostState::RestoreSignals {
            signals: self.signals,
            runtime: outcome_result(self.runtime),
            cleanup: unit_result(self.cleanup),
        }
    }
}

/// What is said when signals were put back so.
pub open spec fn restore_notice(restored: Result<(), IoErrorView>) -> Seq<Seq<char>> {
    match restored {
        Ok(_) => Seq::empty(),
        Err(error) => seq!["failed to restore host signal state: "@ + error.message],
    }
}

/// What is left to say at the end of a run.
pub open spec fn last_notices(
    restored: Result<(), IoErrorView>,
    runtime: Result<ProcessOutcome, IoErrorView>,
    cleanup: Result<(), IoErrorView>,
) -> Seq<Seq<char>> {
    restore_notice(restored) + cleanup_notice(runtime, cleanup)
}

impl RestoreHostSignals {
    /// How putting them back begins.
    pub fn restoration(&self) -> (restoration: Restoration)
        ensures
            restoration.ops() == self.signals.restoration(),
            restoration.taken() == 0,
    {
        self.signals.restore()
    }

    /// The run is over; what is left to say comes first.
    pub fn answered(self, restored: Result<(), IoError>) -> (end: (Vec<String>, HostStep))
        ensures
            end.1@ == host_next(self@, HostReply::Done(unit_result(restored))),
            notices_view(end.0@) == restore_notice(unit_result(restored)) + cleanup_notice(
                outcome_result(self.runtime),
                unit_result(self.cleanup),
            ),
            notices_view(end.0@) == last_notices(
                unit_result(restored),
                outcome_result(self.runtime),
                unit_result(self.cleanup),
            ),
    {
        let mut notices: Vec<String> = Vec::new();
        if let Err(error) = &restored {
            notices.push(
                text_of_two("failed to restore host signal state: ", error.message.as_str()),
            );
        }
        assert(notices_view(notices@) =~= restore_notice(unit_result(restored)));
        let ghost first = notices@;
        let (result, mut rest) = resolve_runtime_and_cleanup(self.runtime, self.cleanup);
        let ghost second = rest@;
        notices.append(&mut rest);
        assert(notices_view(notices@) =~= notices_view(first) + notices_view(second));
        (notices, HostStep::Finished(result))
    }
}

/// The state after the given replies, one after the other.
pub open spec fn host_after(start: HostState, replies: Seq<HostReply>) -> HostState
    decreases replies.len(),
{
    if replies.len() == 0 {
        start
    } else {
        host_next(host_after(start, replies.drop_last()), replies.last())
    }
}

/// Which part of a run a state belongs to, in order.
pub open spec fn phase(state: HostState) -> int {
    match state {
        HostState::ReadConfig { .. } => 0,
        HostState::ResolveRootfs { .. } => 1,
        HostState::CheckRootfs { .. } => 2,
        HostState::ResolveMount { .. } => 3,
        HostState::InstallSignals { .. } => 4,
        HostState::CreateCgroup { .. } => 5,
        HostState::CloneRuntime { .. } => 6,
        HostState::Activate { .. } => 7,
        HostState::Kill { .. } => 8,
        HostState::Await { .. } => 9,
        HostState::RemoveCgroup { .. } => 10,
        HostState::RestoreSignals { .. } => 11,
        HostState::Finished { .. } => 12,
    }
}

/// Whether a run is further in the second state than in the first.
pub open spec fn is_further(state: HostState, next: HostState) -> bool {
    ||| phase(state) < phase(next)
    ||| match (state, next) {
        (
            HostState::ResolveMount { index, .. },
            HostState::ResolveMount { index: later, .. },
        ) => index < later,
        _ => false,
    }
}

/// A run never goes back: whatever comes in reply, it goes on or stays where it is.
/// What it has gone past it does not do again.
pub proof fn law_a_run_never_goes_back(state: HostState, reply: HostReply)
    ensures
        host_next(state, reply) == state || is_further(state, host_next(state, reply)),
{
}

/// A run that is over stays so.
pub proof fn law_a_finished_run_does_nothing(
    result: Result<ProcessOutcome, IoErrorView>,
    replies: Seq<HostReply>,
)
    ensures
        host_after(HostState::Finished { result }, replies) == (HostState::Finished { result }),
    decreases replies.len(),
{
    if replies.len() > 0 {
        law_a_finished_run_does_nothing(result, replies.drop_last());
    }
}

proof fn lemma_host_after_concat(start: HostState, first: Seq<HostReply>, second: Seq<HostReply>)
    ensures
        host_after(start, first + second) == host_after(host_after(start, first), second),
    decreases second.len(),
{
    if second.len() == 0 {
        assert(first + second =~= first);
    } else {
        assert((first + second).drop_last() =~= first + second.drop_last());
        lemma_host_after_concat(start, first, second.drop_last());
    }
}

/// A configuration that is rejected ends the run with the complaint before anything
/// is looked at, changed or started, whatever else might come back.
pub proof fn law_a_rejected_configuration_ends_the_run(
    run: CliView,
    path: Seq<u8>,
    contents: ConfigContents,
    error: IoErrorView,
    more: Seq<HostReply>,
)
    requires
        run.config == Some(path),
        policy_at(path, contents) == Err::<RuntimeConfig, IoErrorView>(error),
    ensures
        host_after(host_start(run), seq![HostReply::Config(contents)] + more) == (
        HostState::Finished { result: Err(error) }),
{
    let first = seq![HostReply::Config(contents)];
    lemma_host_after_concat(host_start(run), first, more);
    assert(host_after(host_start(run), first) == host_failed(error)) by {
        reveal_with_fuel(host_after, 2);
        assert(first.drop_last() =~= Seq::<HostReply>::empty());
    }
    law_a_finished_run_does_nothing(Err(error), more);
}

/// Whether a run is limited as its configuration says, or not at all.
pub open spec fn is_configured(
    run: CliView,
    resources: ResourceConfig,
    replies: Seq<HostReply>,
) -> bool {
    match run.config {
        None => resources.spec_is_empty(),
        Some(path) => exists|contents: ConfigContents|
            #[trigger] replies.contains(HostReply::Config(contents)) && policy_at(path, contents)
                == Ok::<RuntimeConfig, IoErrorView>(RuntimeConfig { resources }),
    }
}

/// Whether two runs are the same but for the root file system and the sources of bind
/// mounts.
pub open spec fn is_same_run(run: CliView, other: CliView) -> bool {
    &&& run == (CliView { rootfs: run.rootfs, bind_mounts: run.bind_mounts, ..other })
    &&& run.bind_mounts.len() == other.bind_mounts.len()
    &&& forall|i: int|
        0 <= i < run.bind_mounts.len() ==> (#[trigger] run.bind_mounts[i]).destination
            == other.bind_mounts[i].destination
}

/// Whether the root file system and the sources of the first bind mounts are real
/// paths that came back.
pub open spec fn is_resolved(run: CliView, mounts: int, replies: Seq<HostReply>) -> bool {
    &&& replies.contains(HostReply::Path(Ok(run.rootfs)))
    &&& forall|i: int|
        0 <= i < mounts ==> replies.contains(
            HostReply::Path(Ok((#[trigger] run.bind_mounts[i]).source)),
        )
}

/// A cgroup, or none, that came back when one was to be created: for which run, with
/// which resources limited, and how signals were treated by then.
pub struct CgroupCreation {
    pub run: CliView,
    pub resources: ResourceConfig,
    pub signals: SignalForwarder,
    pub cgroup: Option<Seq<u8>>,
}

/// Whether the reply at `k` was this one to the creation of a cgroup.
pub open spec fn creates_cgroup(
    asked: CliView,
    replies: Seq<HostReply>,
    k: int,
    creation: CgroupCreation,
) -> bool {
    &&& 0 <= k < replies.len()
    &&& host_after(host_start(asked), replies.take(k)) == (HostState::CreateCgroup {
        run: creation.run,
        resources: creation.resources,
        signals: creation.signals,
    })
    &&& replies[k] == HostReply::Cgroup(Ok(creation.cgroup))
}

/// Whether a cgroup, or none, is what came back for this run and for the resources that
/// its configuration limits.
pub open spec fn is_cgroup_of_run(
    asked: CliView,
    replies: Seq<HostReply>,
    run: CliView,
    signals: SignalForwarder,
    cgroup: Option<Seq<u8>>,
) -> bool {
    exists|k: int, resources: ResourceConfig|
        #![trigger creates_cgroup(
            asked,
            replies,
            k,
            CgroupCreation { run, resources, signals, cgroup },
        )]
        creates_cgroup(asked, replies, k, CgroupCreation { run, resources, signals, cgroup })
            && is_configured(asked, resources, replies)
}

/// What holds of a state before the container is started.
pub open spec fn is_prepared(asked: CliView, state: HostState, replies: Seq<HostReply>) -> bool {
    match state {
        HostState::ReadConfig { run, path } => run == asked && run.config == Some(path),
        HostState::ResolveRootfs { run, resources } => {
            run == asked && is_configured(asked, resources, replies)
        },
        HostState::CheckRootfs { run, resources } => {
            &&& is_same_run(run, asked)
            &&& is_resolved(run, 0, replies)
            &&& is_configured(asked, resources, replies)
        },
        HostState::ResolveMount { run, resources, index } => {
            &&& 0 <= index < run.bind_mounts.len()
            &&& is_same_run(run, asked)
            &&& is_resolved(run, index, replies)
            &&& replies.contains(HostReply::IsDirectory(true))
            &&& is_configured(asked, resources, replies)
        },
        HostState::InstallSignals { run, resources } => {
            &&& is_same_run(run, asked)
            &&& is_resolved(run, run.bind_mounts.len() as int, replies)
            &&& replies.contains(HostReply::IsDirectory(true))
            &&& is_configured(asked, resources, replies)
        },
        HostState::CreateCgroup { run, resources, signals } => {
            &&& is_same_run(run, asked)
            &&& is_resolved(run, run.bind_mounts.len() as int, replies)
            &&& replies.contains(HostReply::IsDirectory(true))
            &&& replies.contains(HostReply::Installed(Ok(signals)))
            &&& is_configured(asked, resources, replies)
        },
        HostState::CloneRuntime { run, signals, cgroup } => {
            &&& is_same_run(run, asked)
            &&& is_resolved(run, run.bind_mounts.len() as int, replies)
            &&& replies.contains(HostReply::IsDirectory(true))
            &&& replies.contains(HostReply::Installed(Ok(signals)))
            &&& is_cgroup_of_run(asked, replies, run, signals, cgroup)
        },
        _ => true,
    }
}

/// A container is started only once everything was resolved and taken over: it gets
/// the root file system's real path, which is a directory, and the real path of every
/// source; command, hostname, destinations and everything else are as they were asked
/// for. Signals were taken over before, and the cgroup was created after that, for the
/// resources that the configuration limits and no others.
pub proof fn law_a_container_is_started_prepared(asked: CliView, replies: Seq<HostReply>)
    ensures
        is_prepared(asked, host_after(host_start(asked), replies), replies),
    decreases replies.len(),
{
    if replies.len() > 0 {
        let earlier = replies.drop_last();
        law_a_container_is_started_prepared(asked, earlier);
        assert(replies =~= earlier.push(replies.last()));
        lemma_contains_after_push(earlier, replies.last());
        lemma_prepared_step(asked, earlier, replies.last());
    }
}

proof fn lemma_configured_later(
    asked: CliView,
    resources: ResourceConfig,
    earlier: Seq<HostReply>,
    reply: HostReply,
)
    requires
        is_configured(asked, resources, earlier),
    ensures
        is_configured(asked, resources, earlier.push(reply)),
{
    lemma_contains_after_push(earlier, reply);
}

proof fn lemma_prepared_step(asked: CliView, earlier: Seq<HostReply>, reply: HostReply)
    requires
        is_prepared(asked, host_after(host_start(asked), earlier), earlier),
    ensures
        is_prepared(
            asked,
            host_next(host_after(host_start(asked), earlier), reply),
            earlier.push(reply),
        ),
{
    let before = host_after(host_start(asked), earlier);
    let replies = earlier.push(reply);
    lemma_contains_after_push(earlier, reply);
    match (before, reply) {
        (HostState::ReadConfig { run, path }, HostReply::Config(contents)) => {
            assert(replies.contains(HostReply::Config(contents)));
        },
        (HostState::CreateCgroup { run, resources, signals }, HostReply::Cgroup(Ok(cgroup))) => {
            let creation = CgroupCreation { run, resources, signals, cgroup };
            assert(replies.take(earlier.len() as int) =~= earlier);
            assert(creates_cgroup(asked, replies, earlier.len() as int, creation));
            lemma_configured_later(asked, resources, earlier, reply);
        },
        (HostState::CloneRuntime { run, signals, cgroup }, _) => {
            let (k, resources) = choose|k: int, resources: ResourceConfig|
                #![trigger creates_cgroup(
                    asked,
                    earlier,
                    k,
                    CgroupCreation { run, resources, signals, cgroup },
                )]
                creates_cgroup(
                    asked,
                    earlier,
                    k,
                    CgroupCreation { run, resources, signals, cgroup },
                ) && is_configured(asked, resources, earlier);
            let creation = CgroupCreation { run, resources, signals, cgroup };
            assert(replies.take(k) =~= earlier.take(k));
            assert(creates_cgroup(asked, replies, k, creation));
            lemma_configured_later(asked, resources, earlier, reply);
        },
        (HostState::ResolveMount { run, resources, index }, HostReply::Path(Ok(source))) => {
            let next = with_source(run, index, source);
            assert(next.bind_mounts[index].source == source);
            assert forall|i: int| 0 <= i < index + 1 implies replies.contains(
                HostReply::Path(Ok((#[trigger] next.bind_mounts[i]).source)),
            ) by {
                if i < index {
                    assert(next.bind_mounts[i] == run.bind_mounts[i]);
                }
            }
            assert forall|i: int| 0 <= i < next.bind_mounts.len() implies (
            #[trigger] next.bind_mounts[i]).destination == asked.bind_mounts[i].destination by {
                assert(run.bind_mounts[i].destination == asked.bind_mounts[i].destination);
            }
        },
        _ => {},
    }
}

/// Whether every cgroup, or none, that came back is what creating one came to.
pub open spec fn cgroups_were_created(asked: CliView, replies: Seq<HostReply>) -> bool {
    forall|k: int, creation: CgroupCreation| #[trigger]
        creates_cgroup(asked, replies, k, creation) ==> exists|made: Seq<CgroupReply>| #[trigger]
            cgroup_after(cgroup_start(creation.resources), made) == (CgroupState::Created {
                cgroup: creation.cgroup,
            })
}

/// Whether a cgroup is ready and had this limit set while it was created.
pub open spec fn was_limited(resources: ResourceConfig, path: Seq<u8>, max: u64) -> bool {
    exists|made: Seq<CgroupReply>|
        {
            &&& #[trigger] cgroup_after(cgroup_start(resources), made) == (CgroupState::Created {
                cgroup: Some(path),
            })
            &&& cgroup_history(cgroup_start(resources), made).contains(
                (CgroupState::WriteLimit { max, path }, CgroupReply::Done(Ok(()))),
            )
        }
}

/// A container has a cgroup exactly where its configuration limits something, and that
/// cgroup has the configured limit: without a configuration there is none.
pub proof fn law_a_limited_run_has_its_cgroup(
    asked: CliView,
    replies: Seq<HostReply>,
    run: CliView,
    signals: SignalForwarder,
    cgroup: Option<Seq<u8>>,
)
    requires
        cgroups_were_created(asked, replies),
        host_after(host_start(asked), replies) == (HostState::CloneRuntime {
            run,
            signals,
            cgroup,
        }),
    ensures
        asked.config is None ==> cgroup is None,
        exists|resources: ResourceConfig| #[trigger]
            is_configured(asked, resources, replies) && match resources.pids {
                Some(pids) => cgroup matches Some(path) && was_limited(resources, path, pids.max),
                None => cgroup is None,
            },
{
    law_a_container_is_started_prepared(asked, replies);
    let (k, resources) = choose|k: int, resources: ResourceConfig|
        #![trigger creates_cgroup(
            asked,
            replies,
            k,
            CgroupCreation { run, resources, signals, cgroup },
        )]
        creates_cgroup(asked, replies, k, CgroupCreation { run, resources, signals, cgroup })
            && is_configured(asked, resources, replies);
    assert(creates_cgroup(asked, replies, k, CgroupCreation { run, resources, signals, cgroup }));
    let made = choose|made: Seq<CgroupReply>| #[trigger]
        cgroup_after(cgroup_start(resources), made) == (CgroupState::Created { cgroup });
    law_exactly_limited_runs_have_a_cgroup(resources, made);
    law_a_ready_cgroup_has_its_limit(resources, made);
    if let Some(pids) = resources.pids {
        assert(was_limited(resources, cgroup->0, pids.max));
    }
}

/// Whether the reply at `k` was to the removal of the given cgroup.
pub open spec fn removes_cgroup(
    start: HostState,
    replies: Seq<HostReply>,
    k: int,
    path: Seq<u8>,
) -> bool {
    &&& 0 <= k < replies.len()
    &&& host_after(start, replies.take(k)) matches HostState::RemoveCgroup { path: removed, .. }
    &&& removed == path
    &&& replies[k] is Done
}

/// Whether the reply at `k` was to putting back how signals are treated.
pub open spec fn restores_signals(
    start: HostState,
    replies: Seq<HostReply>,
    k: int,
    forwarder: SignalForwarder,
) -> bool {
    &&& 0 <= k < replies.len()
    &&& host_after(start, replies.take(k)) matches HostState::RestoreSignals { signals, .. }
    &&& signals == forwarder
    &&& replies[k] is Done
}

/// What holds of a state after the container was to be started: what has to be put
/// back is kept until it was put back.
pub open spec fn keeps_track(
    start: HostState,
    forwarder: SignalForwarder,
    path: Option<Seq<u8>>,
    replies: Seq<HostReply>,
) -> bool {
    let removed = path matches Some(path) ==> exists|k: int|
        #[trigger] removes_cgroup(start, replies, k, path);
    match host_after(start, replies) {
        HostState::CloneRuntime { signals, cgroup, .. } => signals == forwarder && cgroup == path,
        HostState::Activate { signals, cgroup, .. } => signals == forwarder && cgroup == path,
        HostState::Kill { signals, cgroup, .. } => signals == forwarder && cgroup == path,
        HostState::Await { signals, cgroup, .. } => signals == forwarder && cgroup == path,
        HostState::RemoveCgroup { signals, path: left, .. } => signals == forwarder && Some(left)
            == path,
        HostState::RestoreSignals { signals, .. } => signals == forwarder && removed,
        HostState::Finished { .. } => removed && exists|k: int|
            #[trigger] restores_signals(start, replies, k, forwarder),
        _ => false,
    }
}

proof fn lemma_keeps_track(
    run: CliView,
    forwarder: SignalForwarder,
    path: Option<Seq<u8>>,
    replies: Seq<HostReply>,
)
    ensures
        keeps_track(
            HostState::CloneRuntime { run, signals: forwarder, cgroup: path },
            forwarder,
            path,
            replies,
        ),
    decreases replies.len(),
{
    if replies.len() > 0 {
        let start = HostState::CloneRuntime { run, signals: forwarder, cgroup: path };
        let earlier = replies.drop_last();
        let last = replies.len() - 1;
        let before = host_after(start, earlier);
        lemma_keeps_track(run, forwarder, path, earlier);
        assert(replies.take(last) =~= earlier);
        if let Some(removed) = path {
            if exists|k: int| removes_cgroup(start, earlier, k, removed) {
                let k = choose|k: int| removes_cgroup(start, earlier, k, removed);
                assert(replies.take(k) =~= earlier.take(k));
                assert(removes_cgroup(start, replies, k, removed));
            }
            if before is RemoveCgroup && replies.last() is Done {
                assert(removes_cgroup(start, replies, last, removed));
            }
        }
        if before is Finished {
            let k = choose|k: int| restores_signals(start, earlier, k, forwarder);
            assert(replies.take(k) =~= earlier.take(k));
            assert(restores_signals(start, replies, k, forwarder));
        }
        if before is RestoreSignals && replies.last() is Done {
            assert(restores_signals(start, replies, last, forwarder));
        }
    }
}

/// What was taken over is put back: a run that came to starting its container is over
/// only after its cgroup, if it has one, was to be removed and signals were to be
/// treated as before; however starting, forwarding and waiting went.
pub proof fn law_what_was_taken_over_is_put_back(
    run: CliView,
    forwarder: SignalForwarder,
    path: Option<Seq<u8>>,
    replies: Seq<HostReply>,
)
    requires
        host_after(
            HostState::CloneRuntime { run, signals: forwarder, cgroup: path },
            replies,
        ) is Finished,
    ensures
        ({
            let start = HostState::CloneRuntime { run, signals: forwarder, cgroup: path };
            &&& path matches Some(path) ==> exists|k: int|
                #[trigger] removes_cgroup(start, replies, k, path)
            &&& exists|k: int| #[trigger] restores_signals(start, replies, k, forwarder)
        }),
{
    lemma_keeps_track(run, forwarder, path, replies);
}

/// The status of a run is how its container ended, whether or not the cgroup could be
/// removed and signals be put back.
pub proof fn law_cleanup_does_not_change_the_status(
    signals: SignalForwarder,
    cgroup: Option<Seq<u8>>,
    pid: i32,
    reply: Result<WaitStatus, IoError>,
    outcome: ProcessOutcome,
    removed: Result<(), IoErrorView>,
    restored: Result<(), IoErrorView>,
)
    requires
        wait_result(reply, pid) == Some(Ok::<ProcessOutcome, IoErrorView>(outcome)),
    ensures
        ({
            let waiting = HostState::Await { signals, cgroup, pid, reason: None };
            let ended = host_next(waiting, HostReply::Waited(reply));
            let cleaned = if cgroup is Some {
                host_next(ended, HostReply::Done(removed))
            } else {
                ended
            };
            let end = host_next(cleaned, HostReply::Done(restored));
            &&& end == (HostState::Finished { result: Ok(outcome) })
            &&& exit_status_of(end->result) == status_of(outcome)
        }),
{
}

/// Whether the reply at `k` says that the container's first process, which has the
/// number `pid`, ended with the given outcome.
pub open spec fn reports_end(
    replies: Seq<HostReply>,
    k: int,
    pid: i32,
    outcome: ProcessOutcome,
) -> bool {
    &&& 0 <= k < replies.len()
    &&& replies[k] matches HostReply::Waited(reply)
    &&& wait_result(reply, pid) == Some(Ok::<ProcessOutcome, IoErrorView>(outcome))
}

/// Whether the container's first process was started, and ended with the given
/// outcome.
pub open spec fn ended_with(replies: Seq<HostReply>, outcome: ProcessOutcome) -> bool {
    exists|pid: i32, k: int|
        replies.contains(HostReply::Cloned(Ok(pid))) && #[trigger] reports_end(
            replies,
            k,
            pid,
            outcome,
        )
}

/// A run that succeeds started its container, and its result is how that ended.
pub proof fn law_success_means_that_the_container_ended(
    asked: CliView,
    replies: Seq<HostReply>,
    outcome: ProcessOutcome,
)
    requires
        host_after(host_start(asked), replies) == (HostState::Finished { result: Ok(outcome) }),
    ensures
        ended_with(replies, outcome),
{
    lemma_outcomes(asked, replies);
}

/// What holds of a state that knows the container's first process or how it ended.
spec fn has_reason(state: HostState, replies: Seq<HostReply>) -> bool {
    match state {
        HostState::Activate { pid, .. } => replies.contains(HostReply::Cloned(Ok(pid))),
        HostState::Await { pid, reason: None, .. } => replies.contains(HostReply::Cloned(Ok(pid))),
        HostState::RemoveCgroup { runtime: Ok(outcome), .. } => ended_with(replies, outcome),
        HostState::RestoreSignals { runtime: Ok(outcome), .. } => ended_with(replies, outcome),
        HostState::Finished { result: Ok(outcome) } => ended_with(replies, outcome),
        _ => true,
    }
}

proof fn lemma_outcomes(asked: CliView, replies: Seq<HostReply>)
    ensures
        has_reason(host_after(host_start(asked), replies), replies),
    decreases replies.len(),
{
    if replies.len() > 0 {
        let earlier = replies.drop_last();
        lemma_outcomes(asked, earlier);
        assert(replies =~= earlier.push(replies.last()));
        lemma_outcome_step(host_after(host_start(asked), earlier), earlier, replies.last());
    }
}

proof fn lemma_outcome_step(before: HostState, earlier: Seq<HostReply>, reply: HostReply)
    requires
        has_reason(before, earlier),
    ensures
        has_reason(host_next(before, reply), earlier.push(reply)),
{
    let replies = earlier.push(reply);
    lemma_contains_after_push(earlier, reply);
    assert forall|outcome: ProcessOutcome| ended_with(earlier, outcome) implies ended_with(
        replies,
        outcome,
    ) by {
        let (pid, k) = choose|pid: i32, k: int|
            earlier.contains(HostReply::Cloned(Ok(pid))) && #[trigger] reports_end(
                earlier,
                k,
                pid,
                outcome,
            );
        assert(replies[k] == earlier[k]);
        assert(reports_end(replies, k, pid, outcome));
    }
    if let HostState::Await { pid, reason: None, .. } = before {
        if let HostReply::Waited(waited) = reply {
            if let Some(Ok(outcome)) = wait_result(waited, pid) {
                assert(reports_end(replies, earlier.len() as int, pid, outcome));
                assert(ended_with(replies, outcome));
            }
        }
    }
}

proof fn lemma_host_after_one(state: HostState, reply: HostReply)
    ensures
        host_after(state, seq![reply]) == host_next(state, reply),
{
    assert(seq![reply].drop_last() =~= Seq::<HostReply>::empty());
    reveal_with_fuel(host_after, 2);
}

/// A run with a real root file system and real sources for its bind mounts.
pub open spec fn with_real_paths(run: CliView, rootfs: Seq<u8>, sources: Seq<Seq<u8>>) -> CliView {
    CliView {
        rootfs,
        bind_mounts: Seq::new(
            run.bind_mounts.len(),
            |i: int|
                BindMountView {
                    source: sources[i],
                    destination: run.bind_mounts[i].destination,
                },
        ),
        ..run
    }
}

/// The run with the real sources of its first bind mounts.
spec fn partly_resolved(run: CliView, sources: Seq<Seq<u8>>, count: int) -> CliView {
    CliView {
        bind_mounts: Seq::new(
            run.bind_mounts.len(),
            |i: int|
                if i < count {
                    BindMountView {
                        source: sources[i],
                        destination: run.bind_mounts[i].destination,
                    }
                } else {
                    run.bind_mounts[i]
                },
        ),
        ..run
    }
}

/// The replies to the questions for real paths.
pub open spec fn real_paths(sources: Seq<Seq<u8>>) -> Seq<HostReply> {
    Seq::new(sources.len(), |i: int| HostReply::Path(Ok(sources[i])))
}

proof fn lemma_real_paths(
    run: CliView,
    resources: ResourceConfig,
    sources: Seq<Seq<u8>>,
    count: nat,
)
    requires
        sources.len() == run.bind_mounts.len(),
        count <= sources.len(),
    ensures
        host_after(
            host_next(
                HostState::CheckRootfs { run, resources },
                HostReply::IsDirectory(true),
            ),
            real_paths(sources.take(count as int)),
        ) == if count < run.bind_mounts.len() {
            HostState::ResolveMount {
                run: partly_resolved(run, sources, count as int),
                resources,
                index: count as int,
            }
        } else {
            HostState::InstallSignals {
                run: partly_resolved(run, sources, count as int),
                resources,
            }
        },
    decreases count,
{
    let replies = real_paths(sources.take(count as int));
    if count == 0 {
        assert(partly_resolved(run, sources, 0).bind_mounts =~= run.bind_mounts);
        assert(partly_resolved(run, sources, 0) =~= run);
    } else {
        let fewer = (count - 1) as nat;
        lemma_real_paths(run, resources, sources, fewer);
        assert(replies.drop_last() =~= real_paths(sources.take(fewer as int)));
        assert(replies.last() == HostReply::Path(Ok(sources[fewer as int])));
        let before = partly_resolved(run, sources, fewer as int);
        assert(with_source(before, fewer as int, sources[fewer as int]).bind_mounts
            =~= partly_resolved(run, sources, count as int).bind_mounts);
        assert(with_source(before, fewer as int, sources[fewer as int]) =~= partly_resolved(
            run,
            sources,
            count as int,
        ));
    }
}

/// The replies of a system where nothing fails, up to the start of the container: the
/// configuration, if there is one, the real path of the root file system, that it is a
/// directory, the real path of every source, of which there may be none, the signals, and
/// the cgroup.
pub open spec fn good_preparation(
    config: Option<ConfigContents>,
    rootfs: Seq<u8>,
    sources: Seq<Seq<u8>>,
    signals: SignalForwarder,
    cgroup: Option<Seq<u8>>,
) -> Seq<HostReply> {
    (match config {
        Some(contents) => seq![HostReply::Config(contents)],
        None => Seq::empty(),
    }) + seq![HostReply::Path(Ok(rootfs)), HostReply::IsDirectory(true)] + real_paths(sources)
        + seq![HostReply::Installed(Ok(signals)), HostReply::Cgroup(Ok(cgroup))]
}

/// Whether the configuration that came back is there exactly if the run has one, and is
/// good.
pub open spec fn is_good_config(asked: CliView, config: Option<ConfigContents>) -> bool {
    match asked.config {
        Some(path) => config matches Some(contents) && policy_at(path, contents) is Ok,
        None => config is None,
    }
}

/// Where nothing fails the container is started, with any number of bind mounts and with
/// none: the run comes to the start with real paths and everything else as it was asked
/// for, and once the first process was started and signals are forwarded to it, it is
/// waited for.
pub proof fn law_good_replies_start_the_container(
    asked: CliView,
    config: Option<ConfigContents>,
    rootfs: Seq<u8>,
    sources: Seq<Seq<u8>>,
    signals: SignalForwarder,
    cgroup: Option<Seq<u8>>,
    pid: i32,
)
    requires
        is_good_config(asked, config),
        sources.len() == asked.bind_mounts.len(),
    ensures
        ({
            let good = good_preparation(config, rootfs, sources, signals, cgroup);
            let cloned = HostReply::Cloned(Ok(pid));
            let forwarded = HostReply::Done(Ok(()));
            &&& host_after(host_start(asked), good) == (HostState::CloneRuntime {
                run: with_real_paths(asked, rootfs, sources),
                signals,
                cgroup,
            })
            &&& host_after(host_start(asked), good + seq![cloned]) == (HostState::Activate {
                signals,
                cgroup,
                pid,
            })
            &&& host_after(host_start(asked), good + seq![cloned] + seq![forwarded]) == (
            HostState::Await { signals, cgroup, pid, reason: None })
        }),
{
    let start = host_start(asked);
    let first = match config {
        Some(contents) => seq![HostReply::Config(contents)],
        None => Seq::empty(),
    };
    let resources = match config {
        Some(contents) => policy_at(asked.config->0, contents)->Ok_0.resources,
        None => ResourceConfig { pids: None },
    };
    if let Some(contents) = config {
        lemma_host_after_one(start, HostReply::Config(contents));
    }
    let begun = HostState::ResolveRootfs { run: asked, resources };
    assert(host_after(start, first) == begun);
    let path = HostReply::Path(Ok(rootfs));
    let yes = HostReply::IsDirectory(true);
    let rooted = CliView { rootfs, ..asked };
    let checked = HostState::CheckRootfs { run: rooted, resources };
    lemma_host_after_one(begun, path);
    lemma_host_after_one(checked, yes);
    lemma_host_after_concat(begun, seq![path], seq![yes]);
    assert(seq![path] + seq![yes] =~= seq![path, yes]);
    lemma_host_after_concat(start, first, seq![path, yes]);
    lemma_host_after_concat(start, first + seq![path, yes], real_paths(sources));
    lemma_real_paths(rooted, resources, sources, sources.len());
    assert(sources.take(sources.len() as int) =~= sources);
    let run = with_real_paths(asked, rootfs, sources);
    assert(partly_resolved(rooted, sources, sources.len() as int).bind_mounts =~= run.bind_mounts);
    assert(partly_resolved(rooted, sources, sources.len() as int) =~= run);
    let resolved_all = first + seq![path, yes] + real_paths(sources);
    let installed = HostReply::Installed(Ok(signals));
    let created = HostReply::Cgroup(Ok(cgroup));
    let at_install = HostState::InstallSignals { run, resources };
    assert(host_after(start, resolved_all) == at_install);
    lemma_host_after_one(at_install, installed);
    lemma_host_after_concat(at_install, seq![installed], seq![created]);
    lemma_host_after_one(host_next(at_install, installed), created);
    assert(seq![installed] + seq![created] =~= seq![installed, created]);
    lemma_host_after_concat(start, resolved_all, seq![installed, created]);
    let good = good_preparation(config, rootfs, sources, signals, cgroup);
    assert(good == resolved_all + seq![installed, created]);
    let cloned = HostReply::Cloned(Ok(pid));
    let forwarded = HostReply::Done(Ok(()));
    lemma_host_after_concat(start, good, seq![cloned]);
    lemma_host_after_one(host_after(start, good), cloned);
    lemma_host_after_concat(start, good + seq![cloned], seq![forwarded]);
    lemma_host_after_one(host_after(start, good + seq![cloned]), forwarded);
}

/// Whether a reply is about something else than the process `pid`, by the numbers in it:
/// another process ended, or the wait was interrupted, which is system error 4.
pub open spec fn is_about_others(pid: i32, reply: HostReply) -> bool {
    match reply {
        HostReply::Waited(Ok(status)) => end_in_report(status) matches Some((ended, _)) && ended
            != pid,
        HostReply::Waited(Err(error)) => error.raw_os_error == Some(4i32),
        _ => false,
    }
}

proof fn lemma_others_change_nothing(waiting: HostState, replies: Seq<HostReply>)
    requires
        waiting matches HostState::Await { pid, .. } && forall|k: int|
            0 <= k < replies.len() ==> is_about_others(pid, #[trigger] replies[k]),
    ensures
        host_after(waiting, replies) == waiting,
    decreases replies.len(),
{
    if replies.len() > 0 {
        let pid = waiting->Await_pid;
        let earlier = replies.drop_last();
        assert(is_about_others(pid, replies[replies.len() - 1]));
        assert forall|k: int| 0 <= k < earlier.len() implies is_about_others(
            pid,
            #[trigger] earlier[k],
        ) by {
            assert(earlier[k] == replies[k]);
        }
        lemma_others_change_nothing(waiting, earlier);
    }
}

/// The replies once the container has ended: to the removal of the cgroup, if there is one,
/// and to putting back how signals are treated.
pub open spec fn cleanup(
    cgroup: Option<Seq<u8>>,
    removed: Result<(), IoErrorView>,
    restored: Result<(), IoErrorView>,
) -> Seq<HostReply> {
    if cgroup is Some {
        seq![HostReply::Done(removed), HostReply::Done(restored)]
    } else {
        seq![HostReply::Done(restored)]
    }
}

proof fn lemma_cleanup(
    ended: HostState,
    signals: SignalForwarder,
    cgroup: Option<Seq<u8>>,
    runtime: Result<ProcessOutcome, IoErrorView>,
    removed: Result<(), IoErrorView>,
    restored: Result<(), IoErrorView>,
)
    requires
        ended == clean_up(signals, cgroup, runtime),
    ensures
        host_after(ended, cleanup(cgroup, removed, restored)) == (HostState::Finished {
            result: resolved(
                runtime,
                if cgroup is Some {
                    removed
                } else {
                    Ok(())
                },
            ),
        }),
{
    let first = HostReply::Done(removed);
    let second = HostReply::Done(restored);
    lemma_host_after_one(ended, second);
    lemma_host_after_one(ended, first);
    lemma_host_after_concat(ended, seq![first], seq![second]);
    lemma_host_after_one(host_next(ended, first), second);
    assert(seq![first] + seq![second] =~= seq![first, second]);
}

/// A run where nothing fails before its container ends finishes with how the process that
/// was started ended: the runtime exits with its status, or with 128 more than the signal
/// that ended it, whatever other processes did and whatever cleaning up comes to.
pub proof fn law_a_run_exits_with_the_status_of_its_container(
    asked: CliView,
    config: Option<ConfigContents>,
    rootfs: Seq<u8>,
    sources: Seq<Seq<u8>>,
    signals: SignalForwarder,
    cgroup: Option<Seq<u8>>,
    pid: i32,
    others: Seq<HostReply>,
    status: WaitStatus,
    removed: Result<(), IoErrorView>,
    restored: Result<(), IoErrorView>,
)
    requires
        is_good_config(asked, config),
        sources.len() == asked.bind_mounts.len(),
        forall|k: int| 0 <= k < others.len() ==> is_about_others(pid, #[trigger] others[k]),
        end_in_report(status) matches Some((ended, _)) && ended == pid,
    ensures
        host_after(
            host_start(asked),
            good_preparation(config, rootfs, sources, signals, cgroup) + seq![
                HostReply::Cloned(Ok(pid)),
            ] + seq![HostReply::Done(Ok(()))] + others + seq![HostReply::Waited(Ok(status))]
                + cleanup(cgroup, removed, restored),
        ) matches HostState::Finished { result } && match status {
            WaitStatus::Exited(_, code) => exit_status_of(result) == code,
            WaitStatus::Signaled(_, signal, _) => exit_status_of(result) == 128 + signal@,
            WaitStatus::Other(_) => false,
        },
{
    let start = host_start(asked);
    let good = good_preparation(config, rootfs, sources, signals, cgroup);
    let started = good + seq![HostReply::Cloned(Ok(pid))] + seq![HostReply::Done(Ok(()))];
    let end = HostReply::Waited(Ok(status));
    law_good_replies_start_the_container(asked, config, rootfs, sources, signals, cgroup, pid);
    let waiting = HostState::Await { signals, cgroup, pid, reason: None };
    lemma_others_change_nothing(waiting, others);
    lemma_host_after_concat(start, started, others);
    lemma_host_after_concat(start, started + others, seq![end]);
    lemma_host_after_one(waiting, end);
    let (_, outcome) = end_in_report(status)->0;
    let ended = host_next(waiting, end);
    assert(ended == clean_up(signals, cgroup, Ok(outcome)));
    lemma_cleanup(ended, signals, cgroup, Ok(outcome), removed, restored);
    lemma_host_after_concat(
        start,
        started + others + seq![end],
        cleanup(cgroup, removed, restored),
    );
}

/// A first process that cannot be started, or that signals cannot be forwarded to, fails
/// the run with that failure; in the second case it is killed and waited for, and how it
/// then ends does not matter.
pub proof fn law_a_container_that_cannot_be_kept_fails_the_run(
    run: CliView,
    signals: SignalForwarder,
    cgroup: Option<Seq<u8>>,
    pid: i32,
    error: IoErrorView,
    others: Seq<HostReply>,
    status: WaitStatus,
    restored: Result<(), IoErrorView>,
)
    requires
        forall|k: int| 0 <= k < others.len() ==> is_about_others(pid, #[trigger] others[k]),
        end_in_report(status) matches Some((ended, _)) && ended == pid,
    ensures
        host_after(
            HostState::CloneRuntime { run, signals, cgroup },
            seq![HostReply::Cloned(Err(error))] + cleanup(cgroup, Ok(()), restored),
        ) == (HostState::Finished { result: Err(error) }),
        host_next(
            HostState::Activate { signals, cgroup, pid },
            HostReply::Done(Err(error)),
        ) == (HostState::Kill { signals, cgroup, pid, error }),
        host_after(
            HostState::Kill { signals, cgroup, pid, error },
            seq![HostReply::Killed] + others + seq![HostReply::Waited(Ok(status))] + cleanup(
                cgroup,
                Ok(()),
                restored,
            ),
        ) == (HostState::Finished { result: Err(error) }),
{
    let cleaned = cleanup(cgroup, Ok(()), restored);
    let start = HostState::CloneRuntime { run, signals, cgroup };
    let refused = HostReply::Cloned(Err(error));
    lemma_host_after_one(start, refused);
    lemma_host_after_concat(start, seq![refused], cleaned);
    lemma_cleanup(host_next(start, refused), signals, cgroup, Err(error), Ok(()), restored);
    let killing = HostState::Kill { signals, cgroup, pid, error };
    let waiting = HostState::Await { signals, cgroup, pid, reason: Some(error) };
    let end = HostReply::Waited(Ok(status));
    lemma_host_after_one(killing, HostReply::Killed);
    lemma_others_change_nothing(waiting, others);
    lemma_host_after_concat(killing, seq![HostReply::Killed], others);
    lemma_host_after_concat(killing, seq![HostReply::Killed] + others, seq![end]);
    lemma_host_after_one(waiting, end);
    lemma_cleanup(host_next(waiting, end), signals, cgroup, Err(error), Ok(()), restored);
    lemma_host_after_concat(killing, seq![HostReply::Killed] + others + seq![end], cleaned);
}

/// What the results of a container and of its cleanup come to together: success is kept
/// whatever cleaning up came to, a failure stands as it is where cleaning up worked, and
/// where both failed the failure tells both.
pub proof fn law_how_the_container_ended_comes_first(
    outcome: ProcessOutcome,
    error: IoErrorView,
    cleanup: Result<(), IoErrorView>,
    failure: IoErrorView,
)
    ensures
        resolved(Ok(outcome), cleanup) == Ok::<ProcessOutcome, IoErrorView>(outcome),
        resolved(Err(error), Ok(())) == Err::<ProcessOutcome, IoErrorView>(error),
        resolved(Err(error), Err(failure)) matches Err(both) && {
            &&& both.kind == ErrorKind::Other
            &&& both.raw_os_error is None
            &&& error.message.is_prefix_of(both.message)
            &&& ends_with(both.message, failure.message)
            &&& tells(both.message, "; also failed to remove cgroup: "@)
        },
{
    let also = "; also failed to remove cgroup: "@;
    let message = error.message + also + failure.message;
    assert(message.subrange(0, error.message.len() as int) =~= error.message);
    lemma_ends_with(error.message + also, failure.message);
}

/// The runtime exits with the workload's own status, with 128 more than the signal that
/// ended it, or with 125 where the run failed.
pub proof fn law_exit_statuses_are_the_conventional_ones(
    code: i32,
    signal: Signal,
    error: IoErrorView,
    other: IoErrorView,
)
    ensures
        exit_status_of(Ok(ProcessOutcome::Exited(code))) == code,
        exit_status_of(Ok(ProcessOutcome::Signaled(signal))) == 128 + signal@,
        exit_status_of(Err(error)) == 125,
        exit_notice(Err(error)) matches Some(notice) && (exit_notice(Err(other)) matches Some(
            other_notice,
        ) && differ_only_in_reason(notice, error.message, other_notice, other.message)),
        exit_notice(Ok(ProcessOutcome::Exited(code))) is None,
        exit_notice(Ok(ProcessOutcome::Signaled(signal))) is None,
{
    lemma_differ_only_in_reason("error: "@, error.message, other.message);
}

/// A cgroup that cannot be removed after the container ended is told exactly where that is
/// not told by the result, and so is that signals cannot be put back, always; each with its
/// reason.
pub proof fn law_what_cleaning_up_came_to_is_told(
    runtime: Result<ProcessOutcome, IoErrorView>,
    cleanup: Result<(), IoErrorView>,
    other: IoErrorView,
)
    ensures
        cleanup_notice(runtime, cleanup).len() == if runtime is Ok && cleanup is Err {
            1nat
        } else {
            0
        },
        runtime is Ok ==> (cleanup matches Err(error) ==> differ_only_in_reason(
            cleanup_notice(runtime, cleanup)[0],
            error.message,
            cleanup_notice(runtime, Err(other))[0],
            other.message,
        )),
        restore_notice(cleanup).len() == if cleanup is Err {
            1nat
        } else {
            0
        },
        cleanup matches Err(error) ==> differ_only_in_reason(
            restore_notice(cleanup)[0],
            error.message,
            restore_notice(Err(other))[0],
            other.message,
        ),
{
    if let Err(error) = cleanup {
        lemma_differ_only_in_reason("failed to remove cgroup: "@, error.message, other.message);
        lemma_differ_only_in_reason(
            "failed to restore host signal state: "@,
            error.message,
            other.message,
        );
    }
}

/// Whether a reply fails a run so: a configuration is refused with this complaint; a path
/// cannot be resolved, and the complaint has the kind and ends with the text of that
/// failure; the root file system is no directory; or the system fails so.
pub open spec fn fails_run(asked: CliView, reply: HostReply, error: IoErrorView) -> bool {
    match reply {
        HostReply::Config(contents) => asked.config matches Some(path) && policy_at(path, contents)
            == Err::<RuntimeConfig, IoErrorView>(error),
        HostReply::Path(Err(failure)) => error.kind == failure.kind && ends_with(
            error.message,
            failure.message,
        ),
        HostReply::IsDirectory(is_directory) => !is_directory && error.kind
            == ErrorKind::InvalidInput,
        HostReply::Installed(Err(failure)) => failure == error,
        HostReply::Cgroup(Err(failure)) => failure == error,
        HostReply::Cloned(Err(failure)) => failure == error,
        HostReply::Done(Err(failure)) => failure == error,
        HostReply::Waited(Err(failure)) => failure@ == error && error.raw_os_error != Some(4i32),
        HostReply::Waited(Ok(status)) => status is Other && error.kind == ErrorKind::Other,
        _ => false,
    }
}

/// Whether some reply so far fails a run so.
pub open spec fn has_failed(asked: CliView, replies: Seq<HostReply>, error: IoErrorView) -> bool {
    exists|k: int| 0 <= k < replies.len() && fails_run(asked, #[trigger] replies[k], error)
}

/// The failure that a state knows of.
pub open spec fn failure_in(state: HostState) -> Option<IoErrorView> {
    match state {
        HostState::Kill { error, .. } => Some(error),
        HostState::Await { reason, .. } => reason,
        HostState::RemoveCgroup { runtime: Err(error), .. } => Some(error),
        HostState::RestoreSignals { runtime: Err(error), .. } => Some(error),
        _ => None,
    }
}

proof fn lemma_failed_later(
    asked: CliView,
    earlier: Seq<HostReply>,
    reply: HostReply,
    error: IoErrorView,
)
    requires
        has_failed(asked, earlier, error) || fails_run(asked, reply, error),
    ensures
        has_failed(asked, earlier.push(reply), error),
{
    let replies = earlier.push(reply);
    if has_failed(asked, earlier, error) {
        let k = choose|k: int|
            0 <= k < earlier.len() && fails_run(asked, #[trigger] earlier[k], error);
        assert(fails_run(asked, replies[k], error));
    } else {
        assert(replies[earlier.len() as int] == reply);
    }
}

/// Whether a failure that ends a run is one of those that came back, or tells one of them
/// first.
pub open spec fn is_explained(
    asked: CliView,
    replies: Seq<HostReply>,
    error: IoErrorView,
) -> bool {
    exists|cause: IoErrorView| #[trigger]
        has_failed(asked, replies, cause) && (error == cause || cause.message.is_prefix_of(
            error.message,
        ))
}

/// What a state knows of failures.
spec fn knows_why(asked: CliView, state: HostState, replies: Seq<HostReply>) -> bool {
    &&& failure_in(state) matches Some(error) ==> has_failed(asked, replies, error)
    &&& state matches HostState::Finished { result: Err(error) } ==> is_explained(
        asked,
        replies,
        error,
    )
    &&& state matches HostState::ReadConfig { path, .. } ==> asked.config == Some(path)
}

proof fn lemma_knows_why_new(asked: CliView, state: HostState, reply: HostReply)
    requires
        failure_in(state) is None,
        !(state is Finished),
        state matches HostState::ReadConfig { path, .. } ==> asked.config == Some(path),
    ensures
        failure_in(host_next(state, reply)) matches Some(error) ==> fails_run(asked, reply, error),
        host_next(state, reply) matches HostState::Finished { result: Err(error) } ==> fails_run(
            asked,
            reply,
            error,
        ),
{
    match (state, reply) {
        (HostState::ResolveRootfs { .. }, HostReply::Path(Err(error))) => {
            assert(error.message.skip(0) =~= error.message);
        },
        (HostState::ResolveMount { run, index, .. }, HostReply::Path(Err(error))) => {
            lemma_ends_with(
                "failed to resolve bind mount source "@ + lossy_text(run.bind_mounts[index].source)
                    + ": "@,
                error.message,
            );
        },
        _ => {},
    }
}

proof fn lemma_knows_why_step(
    asked: CliView,
    state: HostState,
    earlier: Seq<HostReply>,
    reply: HostReply,
)
    requires
        knows_why(asked, state, earlier),
    ensures
        knows_why(asked, host_next(state, reply), earlier.push(reply)),
{
    let next = host_next(state, reply);
    let replies = earlier.push(reply);
    match state {
        HostState::Finished { result: Err(error) } => {
            let cause = choose|cause: IoErrorView| #[trigger]
                has_failed(asked, earlier, cause) && (error == cause
                    || cause.message.is_prefix_of(error.message));
            lemma_failed_later(asked, earlier, reply, cause);
        },
        HostState::Finished { .. } => {},
        _ => {
            if let Some(error) = failure_in(state) {
                lemma_failed_later(asked, earlier, reply, error);
                if let HostState::Finished { result: Err(both) } = next {
                    if let HostState::RestoreSignals { cleanup, .. } = state {
                        if let Err(failure) = cleanup {
                            law_how_the_container_ended_comes_first(
                                ProcessOutcome::Exited(0),
                                error,
                                cleanup,
                                failure,
                            );
                        }
                    }
                    assert(both == error || error.message.is_prefix_of(both.message));
                    assert(has_failed(asked, replies, error));
                }
            } else {
                lemma_knows_why_new(asked, state, reply);
                if let Some(error) = failure_in(next) {
                    lemma_failed_later(asked, earlier, reply, error);
                }
                if let HostState::Finished { result: Err(error) } = next {
                    lemma_failed_later(asked, earlier, reply, error);
                    assert(has_failed(asked, replies, error));
                }
            }
        },
    }
}

/// A run fails only because some reply failed it, and with that failure; where cleaning up
/// failed, too, the failure tells that first.
pub proof fn law_a_run_fails_only_for_a_reason(asked: CliView, replies: Seq<HostReply>)
    ensures
        host_after(host_start(asked), replies) matches HostState::Finished { result: Err(error) }
            ==> is_explained(asked, replies, error),
{
    lemma_knows_why(asked, replies);
}

proof fn lemma_knows_why(asked: CliView, replies: Seq<HostReply>)
    ensures
        knows_why(asked, host_after(host_start(asked), replies), replies),
    decreases replies.len(),
{
    if replies.len() > 0 {
        let earlier = replies.drop_last();
        lemma_knows_why(asked, earlier);
        assert(replies =~= earlier.push(replies.last()));
        lemma_knows_why_step(
            asked,
            host_after(host_start(asked), earlier),
            earlier,
            replies.last(),
        );
    }
}

/// A root file system that is no directory, and a source that cannot be resolved, are
/// refused with a complaint that names them.
pub proof fn law_what_cannot_be_used_is_named(
    run: CliView,
    resources: ResourceConfig,
    index: int,
    error: IoErrorView,
)
    ensures
        host_next(
            HostState::CheckRootfs { run, resources },
            HostReply::IsDirectory(false),
        ) matches HostState::Finished { result: Err(complaint) } && complaint.kind
            == ErrorKind::InvalidInput && ends_with(complaint.message, lossy_text(run.rootfs)),
        host_next(
            HostState::ResolveMount { run, resources, index },
            HostReply::Path(Err(error)),
        ) matches HostState::Finished { result: Err(complaint) } && {
            &&& complaint.kind == error.kind
            &&& tells(complaint.message, lossy_text(run.bind_mounts[index].source))
            &&& ends_with(complaint.message, error.message)
        },
        host_next(
            HostState::ResolveRootfs { run, resources },
            HostReply::Path(Err(error)),
        ) == (HostState::Finished { result: Err(error) }),
{
    lemma_ends_with("rootfs is not a directory: "@, lossy_text(run.rootfs));
    let front = "failed to resolve bind mount source "@;
    let source = lossy_text(run.bind_mounts[index].source);
    lemma_ends_with(front + source + ": "@, error.message);
    assert(front + source + ": "@ + error.message =~= front + source + (": "@ + error.message));
}

/// The last things that a run says are about signals, and then about its cgroup.
pub proof fn law_the_last_notices_are_in_order(
    restored: Result<(), IoErrorView>,
    runtime: Result<ProcessOutcome, IoErrorView>,
    cleanup: Result<(), IoErrorView>,
)
    ensures
        ({
            let notices = last_notices(restored, runtime, cleanup);
            let about_cgroup = runtime is Ok && cleanup is Err;
            &&& notices.len() == (if restored is Err {
                1int
            } else {
                0
            }) + (if about_cgroup {
                1int
            } else {
                0
            })
            &&& restored matches Err(error) ==> ends_with(notices[0], error.message)
            &&& about_cgroup ==> (cleanup matches Err(error) && ends_with(
                notices.last(),
                error.message,
            ))
        }),
{
    if let Err(error) = restored {
        lemma_ends_with("failed to restore host signal state: "@, error.message);
    }
    if let Err(error) = cleanup {
        lemma_ends_with("failed to remove cgroup: "@, error.message);
    }
}

/// What came back to the host is seen as it is.
pub proof fn law_host_results_are_seen_as_they_are(
    result: Result<ProcessOutcome, IoError>,
    installed: Result<SignalForwarder, IoError>,
    created: Result<Option<Cgroup>, IoError>,
    notices: Seq<String>,
    i: int,
)
    ensures
        result matches Ok(outcome) ==> outcome_result(result) == Ok::<ProcessOutcome, IoErrorView>(
            outcome,
        ),
        result matches Err(error) ==> outcome_result(result) == Err::<ProcessOutcome, IoErrorView>(
            error@,
        ),
        installed matches Ok(signals) ==> forwarder_result(installed) == Ok::<
            SignalForwarder,
            IoErrorView,
        >(signals),
        installed matches Err(error) ==> forwarder_result(installed) == Err::<
            SignalForwarder,
            IoErrorView,
        >(error@),
        created matches Ok(cgroup) ==> (cgroup_result(created) matches Ok(path) && (cgroup is Some
            <==> path is Some)),
        created matches Err(error) ==> cgroup_result(created) == Err::<
            Option<Seq<u8>>,
            IoErrorView,
        >(error@),
        notices_view(notices).len() == notices.len(),
        0 <= i < notices.len() ==> notices_view(notices)[i] == notices[i]@,
{
}

} // verus!
