//! The first process of a container: what it does to set the container up before the
//! workload is launched.

use crate::bind_target::{bind_start, prepare_bind_target, BindState, BindStep};
use crate::cgroup::{
    join_write, law_the_process_joins_the_cgroup_itself, Cgroup, FileWrite,
};
use crate::cli::{BindMount, Cli, CliView};
use crate::path::{
    components, is_absolute, lemma_joined, lemma_named_part, named_part, names, path_of,
};
use crate::platform::{
    clone_flag_set, clone_flags_union, clone_newns, clone_newpid, clone_newuts, new_mount_flag,
    new_pid_flag, new_uts_flag,
};
use crate::process::{
    set_parent_death_signal, Signal, SignalForwarder, RUNTIME_ERROR_EXIT_CODE,
};
use crate::rootfs::{
    make_mount_tree_private, make_rootfs_mount_point, mount_point_request, mount_procfs,
    pivot_into_rootfs, pivot_plan, private_request, CreateProcDirectory, MountRequest, Pivot,
    PivotStepView,
};
use crate::text::{
    differ_only_in_reason, display, lemma_differ_only_in_reason, lemma_tells, lossy_text,
    read_lossily, tells, text_of_two,
};
use crate::workload::{
    launch, launch_start, notice_view, status_result, LaunchContext, LaunchContextView,
    LaunchState, LaunchStep,
};
use nix::sched::CloneFlags;
use vstd::prelude::*;

verus! {

/// A container has hostname, process numbers and mounts of its own.
pub fn namespace_clone_flags() -> (flags: CloneFlags)
    ensures
        clone_flag_set(flags) == set![new_uts_flag(), new_pid_flag(), new_mount_flag()],
{
    let flags = clone_flags_union(clone_flags_union(clone_newuts(), clone_newpid()), clone_newns());
    assert(clone_flag_set(flags) =~= set![new_uts_flag(), new_pid_flag(), new_mount_flag()]);
    flags
}

/// The status of the container's first process, and what it says at its end.
pub open spec fn container_end(result: Result<int, Seq<char>>) -> (int, Option<Seq<char>>) {
    match result {
        Ok(code) => (code, None),
        Err(message) => (RUNTIME_ERROR_EXIT_CODE as int, Some(message)),
    }
}

/// The status of the container's first process, and what it says at its end.
pub fn init_container(result: Result<i32, String>) -> (end: (isize, Option<String>))
    ensures
        match result {
            Ok(code) => end == (code as isize, None::<String>),
            Err(message) => end == (RUNTIME_ERROR_EXIT_CODE as isize, Some(message)),
        },
        end.0 == container_end(status_result(result)).0,
        notice_view(end.1) == container_end(status_result(result)).1,
{
    match result {
        Ok(code) => (code as isize, None),
        Err(message) => (RUNTIME_ERROR_EXIT_CODE as isize, Some(message)),
    }
}

/// One step of setting the container up.
#[derive(Clone, Copy, Debug, PartialEq, Eq, Structural)]
pub enum SetupStep {
    SetParentDeathSignal,
    JoinCgroup,
    MakeMountTreePrivate,
    MakeRootfsMountPoint,
    /// Mount the bind mount with this index.
    MountBind(usize),
    PivotIntoRootfs,
    MountProcfs,
    SetHostname,
    /// Read the hostname back.
    ReadHostname,
}

/// The steps that set a container up, in order. The cgroup is joined, if there is
/// one, before the file system is touched; the hostname, if one was given, is set
/// last.
pub open spec fn setup_plan(has_cgroup: bool, mounts: nat, has_hostname: bool) -> Seq<SetupStep> {
    seq![SetupStep::SetParentDeathSignal] + (if has_cgroup {
        seq![SetupStep::JoinCgroup]
    } else {
        Seq::empty()
    }) + seq![SetupStep::MakeMountTreePrivate, SetupStep::MakeRootfsMountPoint] + Seq::new(
        mounts,
        |i: int| SetupStep::MountBind(i as usize),
    ) + seq![SetupStep::PivotIntoRootfs, SetupStep::MountProcfs] + (if has_hostname {
        seq![SetupStep::SetHostname, SetupStep::ReadHostname]
    } else {
        Seq::empty()
    })
}

/// The steps for a run.
pub open spec fn plan_of(cli: Cli, has_cgroup: bool) -> Seq<SetupStep> {
    setup_plan(has_cgroup, cli.bind_mounts@.len(), cli.hostname is Some)
}

fn setup_steps(cli: &Cli, has_cgroup: bool) -> (steps: Vec<SetupStep>)
    ensures
        steps@ == plan_of(*cli, has_cgroup),
{
    let mut steps: Vec<SetupStep> = Vec::new();
    steps.push(SetupStep::SetParentDeathSignal);
    if has_cgroup {
        steps.push(SetupStep::JoinCgroup);
    }
    steps.push(SetupStep::MakeMountTreePrivate);
    steps.push(SetupStep::MakeRootfsMountPoint);
    let ghost front = steps@;
    let mut i: usize = 0;
    assert(steps@ =~= front + Seq::new(0, |j: int| SetupStep::MountBind(j as usize)));
    while i < cli.bind_mounts.len()
        invariant
            i <= cli.bind_mounts@.len(),
            steps@ == front + Seq::new(i as nat, |j: int| SetupStep::MountBind(j as usize)),
        decreases cli.bind_mounts@.len() - i,
    {
        steps.push(SetupStep::MountBind(i));
        i = i + 1;
        assert(steps@ =~= front + Seq::new(i as nat, |j: int| SetupStep::MountBind(j as usize)));
    }
    steps.push(SetupStep::PivotIntoRootfs);
    steps.push(SetupStep::MountProcfs);
    if cli.hostname.is_some() {
        steps.push(SetupStep::SetHostname);
        steps.push(SetupStep::ReadHostname);
    }
    assert(steps@ =~= plan_of(*cli, has_cgroup));
    steps
}

/// What the failure of a step is reported as.
pub open spec fn setup_failure(step: SetupStep, cli: Cli, text: Seq<char>) -> Seq<char> {
    match step {
        SetupStep::SetParentDeathSignal => "failed to configure parent-death signal: "@ + text,
        SetupStep::JoinCgroup => "failed to join cgroup: "@ + text,
        SetupStep::MakeMountTreePrivate => "failed to make mount tree private: "@ + text,
        SetupStep::MakeRootfsMountPoint => "failed to make rootfs a mount point: "@ + text,
        SetupStep::MountBind(i) => "failed to bind mount "@ + lossy_text(
            cli.bind_mounts@[i as int].source@,
        ) + " at "@ + lossy_text(cli.bind_mounts@[i as int].destination@) + ": "@ + text,
        SetupStep::PivotIntoRootfs => "failed to pivot into rootfs: "@ + text,
        SetupStep::MountProcfs => "failed to mount procfs: "@ + text,
        SetupStep::SetHostname => "failed to set hostname: "@ + text,
        SetupStep::ReadHostname => "failed to read hostname: "@ + text,
    }
}

fn setup_failure_message(step: SetupStep, cli: &Cli, text: &str) -> (message: String)
    requires
        step matches SetupStep::MountBind(i) ==> i < cli.bind_mounts@.len(),
    ensures
        message@ == setup_failure(step, *cli, text@),
{
    match step {
        SetupStep::SetParentDeathSignal => text_of_two(
            "failed to configure parent-death signal: ",
            text,
        ),
        SetupStep::JoinCgroup => text_of_two("failed to join cgroup: ", text),
        SetupStep::MakeMountTreePrivate => text_of_two("failed to make mount tree private: ", text),
        SetupStep::MakeRootfsMountPoint => text_of_two(
            "failed to make rootfs a mount point: ",
            text,
        ),
        SetupStep::MountBind(i) => {
            let bind_mount = &cli.bind_mounts[i];
            let mut message = text_of_two(
                "failed to bind mount ",
                display(&bind_mount.source).as_str(),
            );
            message.append(" at ");
            message.append(display(&bind_mount.destination).as_str());
            message.append(": ");
            message.append(text);
            message
        },
        SetupStep::PivotIntoRootfs => text_of_two("failed to pivot into rootfs: ", text),
        SetupStep::MountProcfs => text_of_two("failed to mount procfs: ", text),
        SetupStep::SetHostname => text_of_two("failed to set hostname: ", text),
        SetupStep::ReadHostname => text_of_two("failed to read hostname: ", text),
    }
}

/// The steps for a run whose cgroup, if it has one, has the given path.
pub open spec fn plan_in(cli: Cli, cgroup: Option<Seq<u8>>) -> Seq<SetupStep> {
    plan_of(cli, cgroup is Some)
}

/// What is said about the hostname that was read back.
pub open spec fn hostname_notice(name: Seq<u8>) -> Seq<char> {
    "runtime process hostname = "@ + lossy_text(name)
}

/// How the workload of a run is launched.
pub open spec fn launch_of(run: CliView, signals: SignalForwarder) -> LaunchState {
    launch_start(
        run.init,
        LaunchContextView { command_tokens: run.command_tokens, signals },
    )
}

/// What came of a step.
#[derive(Debug)]
pub enum SetupReply {
    Done,
    /// The hostname was read back as these bytes.
    Hostname(Vec<u8>),
    /// The step failed; the text says why.
    Failed(String),
}

/// How far the container is set up, in steps.
pub enum SetupState {
    /// The step with this number is next.
    Step(int),
    /// Every step was taken: the workload is next.
    Launch,
    /// The step with this number failed.
    Failed(int),
}

/// What follows a step that worked or did not. What is over stays so.
pub open spec fn setup_next(steps: nat, state: SetupState, worked: bool) -> SetupState {
    match state {
        SetupState::Step(k) => if !worked {
            SetupState::Failed(k)
        } else if k + 1 < steps {
            SetupState::Step(k + 1)
        } else {
            SetupState::Launch
        },
        _ => state,
    }
}

/// A container that is being set up.
#[derive(Debug)]
pub struct Setup<'a> {
    cli: &'a Cli,
    cgroup: Option<&'a Cgroup>,
    signals: &'a SignalForwarder,
    steps: Vec<SetupStep>,
    position: usize,
}

/// What follows a step.
#[derive(Debug)]
pub enum SetupNext<'a> {
    /// Take the next step.
    Perform(Setup<'a>),
    /// Everything is set up: launch the workload.
    Launch(LaunchStep<'a>),
    /// The run fails, with this message.
    Failed(String),
}

/// What a step does, with all that it acts on.
#[derive(Debug)]
pub enum SetupAction<'a> {
    /// Have this signal sent when the runtime dies.
    SetParentDeathSignal(Signal),
    /// Make this write.
    JoinCgroup(FileWrite),
    MakeMountTreePrivate(MountRequest),
    MakeRootfsMountPoint(MountRequest),
    /// Prepare the place of this bind mount, and mount it there.
    MountBind(BindStep, &'a BindMount),
    PivotIntoRootfs(Pivot),
    MountProcfs(CreateProcDirectory),
    /// Set the hostname to this.
    SetHostname(&'a String),
    ReadHostname,
}

/// Whether an action is that of a step in a run, whose cgroup has the given path.
pub open spec fn is_action_of(
    action: SetupAction,
    step: SetupStep,
    run: Cli,
    cgroup: Option<Seq<u8>>,
) -> bool {
    match step {
        SetupStep::SetParentDeathSignal => action matches SetupAction::SetParentDeathSignal(signal)
            && signal@ == 9,
        SetupStep::JoinCgroup => action matches SetupAction::JoinCgroup(write) && (cgroup matches
            Some(path) && write@ == join_write(path)),
        SetupStep::MakeMountTreePrivate => action matches SetupAction::MakeMountTreePrivate(request)
            && request@ == private_request(),
        SetupStep::MakeRootfsMountPoint => action matches SetupAction::MakeRootfsMountPoint(request)
            && request@ == mount_point_request(run.rootfs@),
        SetupStep::MountBind(i) => action matches SetupAction::MountBind(place, bind_mount) && {
            &&& i < run.bind_mounts@.len()
            &&& *bind_mount == run.bind_mounts@[i as int]
            &&& place@ == bind_start(run.rootfs@, bind_mount@)
        },
        SetupStep::PivotIntoRootfs => action matches SetupAction::PivotIntoRootfs(pivot) && {
            &&& pivot.steps() == pivot_plan(run.rootfs@)
            &&& pivot.taken() == 0
        },
        SetupStep::MountProcfs => action matches SetupAction::MountProcfs(create)
            && create.directory@ == path_of("/proc"@),
        SetupStep::SetHostname => action matches SetupAction::SetHostname(hostname) && run.hostname
            == Some(*hostname),
        SetupStep::ReadHostname => action is ReadHostname,
    }
}

/// Begins to run a container: first it is set up.
pub fn run_container<'a>(
    args: &'a Cli,
    cgroup: Option<&'a Cgroup>,
    signals: &'a SignalForwarder,
) -> (setup: Setup<'a>)
    ensures
        setup.run() == *args,
        setup.cgroup() == match cgroup {
            Some(cgroup) => Some(cgroup@),
            None => None,
        },
        setup.signals() == *signals,
        setup.plan() == plan_of(*args, cgroup is Some),
        setup.plan() == plan_in(*args, setup.cgroup()),
        setup.taken() == 0,
{
    let steps = setup_steps(args, cgroup.is_some());
    Setup { cli: args, cgroup, signals, steps, position: 0 }
}

impl<'a> Setup<'a> {
    #[verifier::type_invariant]
    spec fn follows_the_plan(self) -> bool {
        &&& self.steps@ == plan_of(*self.cli, self.cgroup is Some)
        &&& self.position < self.steps@.len()
    }

    /// The run that the container belongs to.
    pub closed spec fn run(&self) -> Cli {
        *self.cli
    }

    /// The path of its cgroup, if it has one.
    pub closed spec fn cgroup(&self) -> Option<Seq<u8>> {
        match self.cgroup {
            Some(cgroup) => Some(cgroup@),
            None => None,
        }
    }

    /// How the runtime treats signals.
    pub closed spec fn signals(&self) -> SignalForwarder {
        *self.signals
    }

    /// All steps, taken or not.
    pub closed spec fn plan(&self) -> Seq<SetupStep> {
        self.steps@
    }

    /// How many steps were taken.
    pub closed spec fn taken(&self) -> int {
        self.position as int
    }

    /// The step that is next.
    pub fn step(&self) -> (step: SetupStep)
        ensures
            0 <= self.taken() < self.plan().len(),
            step == self.plan()[self.taken()],
    {
        proof {
            use_type_invariant(self);
        }
        self.steps[self.position]
    }

    /// What the step that is next does.
    pub fn action(&self) -> (action: SetupAction<'a>)
        ensures
            0 <= self.taken() < self.plan().len(),
            is_action_of(action, self.plan()[self.taken()], self.run(), self.cgroup()),
    {
        proof {
            use_type_invariant(self);
            lemma_plan_is_needed(*self.cli, self.cgroup is Some, self.position as int);
        }
        match self.step() {
            SetupStep::SetParentDeathSignal => SetupAction::SetParentDeathSignal(
                set_parent_death_signal(),
            ),
            SetupStep::JoinCgroup => SetupAction::JoinCgroup(self.cgroup.unwrap().join_current()),
            SetupStep::MakeMountTreePrivate => SetupAction::MakeMountTreePrivate(
                make_mount_tree_private(),
            ),
            SetupStep::MakeRootfsMountPoint => SetupAction::MakeRootfsMountPoint(
                make_rootfs_mount_point(&self.cli.rootfs),
            ),
            SetupStep::MountBind(i) => {
                let bind_mount = &self.cli.bind_mounts[i];
                let place = prepare_bind_target(&self.cli.rootfs, bind_mount);
                SetupAction::MountBind(place, bind_mount)
            },
            SetupStep::PivotIntoRootfs => SetupAction::PivotIntoRootfs(
                pivot_into_rootfs(&self.cli.rootfs),
            ),
            SetupStep::MountProcfs => SetupAction::MountProcfs(mount_procfs()),
            SetupStep::SetHostname => SetupAction::SetHostname(
                self.cli.hostname.as_ref().unwrap(),
            ),
            SetupStep::ReadHostname => SetupAction::ReadHostname,
        }
    }

    /// What follows the step, and a notice about it.
    pub fn answered(self, reply: SetupReply) -> (end: (Option<String>, SetupNext<'a>))
        ensures
            match setup_next(
                self.plan().len(),
                SetupState::Step(self.taken()),
                !(reply is Failed),
            ) {
                SetupState::Step(next) => end.1 matches SetupNext::Perform(setup) && {
                    &&& setup.run() == self.run()
                    &&& setup.cgroup() == self.cgroup()
                    &&& setup.signals() == self.signals()
                    &&& setup.plan() == self.plan()
                    &&& setup.taken() == next
                },
                SetupState::Launch => end.1 matches SetupNext::Launch(step) && {
                    &&& step@ == launch_start(
                        self.run().init,
                        LaunchContextView {
                            command_tokens: self.run()@.command_tokens,
                            signals: self.signals(),
                        },
                    )
                    &&& step@ == launch_of(self.run()@, self.signals())
                },
                SetupState::Failed(_) => end.1 matches SetupNext::Failed(message) && message@
                    == setup_failure(
                    self.plan()[self.taken()],
                    self.run(),
                    reply->Failed_0@,
                ),
            },
            match reply {
                SetupReply::Hostname(name) => if self.plan()[self.taken()]
                    == SetupStep::ReadHostname {
                    end.0 matches Some(notice) && {
                        &&& notice@ == "runtime process hostname = "@ + lossy_text(name@)
                        &&& notice@ == hostname_notice(name@)
                    }
                } else {
                    end.0 is None
                },
                _ => end.0 is None,
            },
    {
        proof {
            use_type_invariant(&self);
        }
        let step = self.step();
        let notice = match reply {
            SetupReply::Failed(text) => {
                proof {
                    lemma_plan_is_needed(*self.cli, self.cgroup is Some, self.position as int);
                }
                let message = setup_failure_message(step, self.cli, text.as_str());
                return (None, SetupNext::Failed(message));
            },
            SetupReply::Hostname(name) => {
                if step == SetupStep::ReadHostname {
                    let name = read_lossily(name.as_slice());
                    Some(text_of_two("runtime process hostname = ", name.as_str()))
                } else {
                    None
                }
            },
            SetupReply::Done => None,
        };
        let total = self.steps.len();
        let position = self.position + 1;
        if position < total {
            let next = Setup {
                cli: self.cli,
                cgroup: self.cgroup,
                signals: self.signals,
                steps: self.steps,
                position,
            };
            (notice, SetupNext::Perform(next))
        } else {
            let context = LaunchContext {
                command_tokens: &self.cli.command_tokens,
                signals: self.signals,
            };
            (notice, SetupNext::Launch(launch(self.cli.init, context)))
        }
    }
}

/// The state after steps that worked or did not, one after the other.
pub open spec fn setup_after(steps: nat, worked: Seq<bool>) -> SetupState
    decreases worked.len(),
{
    if worked.len() == 0 {
        SetupState::Step(0)
    } else {
        setup_next(steps, setup_after(steps, worked.drop_last()), worked.last())
    }
}

/// The workload is launched only after every step of the setup was taken and worked;
/// the first step that does not work is the last that is taken.
pub proof fn law_launch_follows_the_whole_setup(steps: nat, worked: Seq<bool>)
    requires
        steps > 0,
    ensures
        match setup_after(steps, worked) {
            SetupState::Step(k) => k == worked.len() && k < steps && forall|i: int|
                0 <= i < k ==> #[trigger] worked[i],
            SetupState::Launch => steps <= worked.len() && forall|i: int|
                0 <= i < steps ==> #[trigger] worked[i],
            SetupState::Failed(k) => 0 <= k < steps && k < worked.len() && !worked[k] && forall|
                i: int,
            |
                0 <= i < k ==> #[trigger] worked[i],
        },
    decreases worked.len(),
{
    if worked.len() > 0 {
        let earlier = worked.drop_last();
        law_launch_follows_the_whole_setup(steps, earlier);
        assert(forall|i: int| 0 <= i < earlier.len() ==> earlier[i] == #[trigger] worked[i]);
    }
}

/// Where a step belongs: a smaller number comes first.
pub open spec fn rank(step: SetupStep, mounts: nat) -> int {
    match step {
        SetupStep::SetParentDeathSignal => 0,
        SetupStep::JoinCgroup => 1,
        SetupStep::MakeMountTreePrivate => 2,
        SetupStep::MakeRootfsMountPoint => 3,
        SetupStep::MountBind(i) => 4 + i,
        SetupStep::PivotIntoRootfs => 4int + mounts,
        SetupStep::MountProcfs => 5int + mounts,
        SetupStep::SetHostname => 6int + mounts,
        SetupStep::ReadHostname => 7int + mounts,
    }
}

/// Whether a run needs a step.
pub open spec fn is_needed(
    step: SetupStep,
    has_cgroup: bool,
    mounts: nat,
    has_hostname: bool,
) -> bool {
    match step {
        SetupStep::JoinCgroup => has_cgroup,
        SetupStep::MountBind(i) => i < mounts,
        SetupStep::SetHostname => has_hostname,
        SetupStep::ReadHostname => has_hostname,
        _ => true,
    }
}

/// A setup has exactly the steps that the run needs, each of them once and in order:
/// the process dies with the runtime before it does anything else, it is in its
/// cgroup before it touches the file system, mounts are private before any is made,
/// bind mounts are made in the order in which they were given and before the root
/// changes, and the hostname comes last.
pub proof fn law_setup_is_complete_and_in_order(has_cgroup: bool, mounts: nat, has_hostname: bool)
    requires
        mounts <= usize::MAX,
    ensures
        ({
            let plan = setup_plan(has_cgroup, mounts, has_hostname);
            &&& forall|step: SetupStep|
                #[trigger] plan.contains(step) == is_needed(step, has_cgroup, mounts, has_hostname)
            &&& forall|i: int, j: int|
                0 <= i < j < plan.len() ==> rank(#[trigger] plan[i], mounts) < rank(
                    #[trigger] plan[j],
                    mounts,
                )
        }),
{
    let plan = setup_plan(has_cgroup, mounts, has_hostname);
    let joins: int = if has_cgroup {
        1
    } else {
        0
    };
    let first = 3 + joins;
    assert forall|i: int| 0 <= i < plan.len() implies is_needed(
        #[trigger] plan[i],
        has_cgroup,
        mounts,
        has_hostname,
    ) by {
        if first <= i < first + mounts {
            assert(plan[i] == SetupStep::MountBind((i - first) as usize));
        }
    }
    assert forall|step: SetupStep|
        #[trigger] plan.contains(step) == is_needed(step, has_cgroup, mounts, has_hostname) by {
        let after = first + mounts;
        let at: int = match step {
            SetupStep::SetParentDeathSignal => 0,
            SetupStep::JoinCgroup => 1,
            SetupStep::MakeMountTreePrivate => 1 + joins,
            SetupStep::MakeRootfsMountPoint => 2 + joins,
            SetupStep::MountBind(i) => first + i,
            SetupStep::PivotIntoRootfs => after,
            SetupStep::MountProcfs => after + 1,
            SetupStep::SetHostname => after + 2,
            SetupStep::ReadHostname => after + 3,
        };
        if is_needed(step, has_cgroup, mounts, has_hostname) {
            assert(plan[at] == step);
        }
    }
}

/// Whether the step with the number `k`, and no other, sets the hostname.
pub open spec fn only_sets_hostname_at(plan: Seq<SetupStep>, k: int) -> bool {
    &&& 0 <= k < plan.len()
    &&& forall|j: int|
        0 <= j < plan.len() ==> (#[trigger] plan[j] == SetupStep::SetHostname <==> j == k)
}

/// When the workload is launched, the hostname was set once, to exactly the one that was
/// given; where none was given it is never set.
pub proof fn law_the_hostname_is_the_one_that_was_given(
    run: Cli,
    cgroup: Option<Seq<u8>>,
    worked: Seq<bool>,
)
    requires
        setup_after(plan_of(run, cgroup is Some).len(), worked) is Launch,
    ensures
        ({
            let plan = plan_of(run, cgroup is Some);
            match run.hostname {
                Some(hostname) => {
                    &&& exists|k: int|
                        #[trigger] only_sets_hostname_at(plan, k) && k < worked.len() && worked[k]
                    &&& forall|action: SetupAction|
                        #[trigger] is_action_of(action, SetupStep::SetHostname, run, cgroup) ==> (
                        action matches SetupAction::SetHostname(name) && *name == hostname)
                },
                None => !plan.contains(SetupStep::SetHostname),
            }
        }),
{
    let plan = plan_of(run, cgroup is Some);
    let mounts = run.bind_mounts@.len();
    assert(mounts == run.bind_mounts.len());
    law_setup_is_complete_and_in_order(cgroup is Some, mounts, run.hostname is Some);
    law_launch_follows_the_whole_setup(plan.len(), worked);
    if run.hostname is Some {
        assert(plan.contains(SetupStep::SetHostname));
        let k = choose|k: int| 0 <= k < plan.len() && plan[k] == SetupStep::SetHostname;
        assert forall|j: int| 0 <= j < plan.len() implies (#[trigger] plan[j]
            == SetupStep::SetHostname <==> j == k) by {
            if j < k {
                assert(rank(plan[j], mounts) < rank(plan[k], mounts));
            } else if k < j {
                assert(rank(plan[k], mounts) < rank(plan[j], mounts));
            }
        }
        assert(only_sets_hostname_at(plan, k) && worked[k]);
    }
}

/// A plan has only steps that the run needs.
proof fn lemma_plan_is_needed(cli: Cli, has_cgroup: bool, position: int)
    requires
        0 <= position < plan_of(cli, has_cgroup).len(),
    ensures
        is_needed(
            plan_of(cli, has_cgroup)[position],
            has_cgroup,
            cli.bind_mounts@.len(),
            cli.hostname is Some,
        ),
{
    assert(cli.bind_mounts@.len() == cli.bind_mounts.len());
    law_setup_is_complete_and_in_order(
        has_cgroup,
        cli.bind_mounts@.len(),
        cli.hostname is Some,
    );
    assert(plan_of(cli, has_cgroup).contains(plan_of(cli, has_cgroup)[position]));
}

/// The steps of a run are those that it needs: its cgroup is joined if it has one, each of
/// its bind mounts is mounted, and its hostname is set and read back if it has one; all else
/// is done for every run.
pub proof fn law_a_run_takes_the_steps_that_it_needs(cli: Cli, has_cgroup: bool, i: usize)
    ensures
        ({
            let plan = plan_of(cli, has_cgroup);
            &&& plan.contains(SetupStep::JoinCgroup) <==> has_cgroup
            &&& plan.contains(SetupStep::MountBind(i)) <==> i < cli.bind_mounts@.len()
            &&& plan.contains(SetupStep::SetHostname) <==> cli.hostname is Some
            &&& plan.contains(SetupStep::ReadHostname) <==> cli.hostname is Some
            &&& plan.contains(SetupStep::SetParentDeathSignal)
            &&& plan.contains(SetupStep::MakeMountTreePrivate)
            &&& plan.contains(SetupStep::MakeRootfsMountPoint)
            &&& plan.contains(SetupStep::PivotIntoRootfs)
            &&& plan.contains(SetupStep::MountProcfs)
            &&& forall|a: int, b: int|
                0 <= a < b < plan.len() ==> rank(#[trigger] plan[a], cli.bind_mounts@.len()) < rank(
                    #[trigger] plan[b],
                    cli.bind_mounts@.len(),
                )
        }),
{
    let mounts = cli.bind_mounts@.len();
    assert(mounts == cli.bind_mounts.len());
    law_setup_is_complete_and_in_order(has_cgroup, mounts, cli.hostname is Some);
}

/// What a step of a run does, it does with what the run has: its own cgroup, root file
/// system, bind mount and hostname.
pub proof fn law_steps_act_on_what_the_run_has(
    action: SetupAction,
    step: SetupStep,
    run: Cli,
    cgroup: Option<Seq<u8>>,
)
    requires
        is_action_of(action, step, run, cgroup),
    ensures
        match action {
            SetupAction::SetParentDeathSignal(signal) => {
                step is SetParentDeathSignal && signal@ == 9
            },
            SetupAction::JoinCgroup(write) => {
                &&& step is JoinCgroup
                &&& cgroup matches Some(path)
                &&& components(write@.path) == components(path).push(path_of("cgroup.procs"@))
                &&& write@.contents == seq!['0']
            },
            SetupAction::MakeMountTreePrivate(request) => {
                &&& step is MakeMountTreePrivate
                &&& request@.source is None
                &&& request@.target == seq![0x2fu8]
                &&& request@.flags == set![0x4_0000int, 0x4000]
            },
            SetupAction::MakeRootfsMountPoint(request) => {
                &&& step is MakeRootfsMountPoint
                &&& request@.source == Some(run.rootfs@)
                &&& request@.target == run.rootfs@
                &&& request@.flags == set![0x1000int, 0x4000]
            },
            SetupAction::MountBind(place, bind_mount) => {
                &&& step matches SetupStep::MountBind(i)
                &&& i < run.bind_mounts@.len()
                &&& bind_mount@ == run.bind_mounts@[i as int]@
                &&& is_absolute(bind_mount@.destination) ==> (place@ matches BindState::Probe {
                    context,
                    placed,
                    existing,
                } && {
                    &&& context.rootfs == run.rootfs@
                    &&& context.source == run.bind_mounts@[i as int].source@
                    &&& context.target == existing
                    &&& components(existing) == components(run.rootfs@) + names(
                        run.bind_mounts@[i as int].destination@,
                    )
                    &&& !placed
                })
            },
            SetupAction::PivotIntoRootfs(pivot) => {
                &&& step is PivotIntoRootfs
                &&& pivot.taken() == 0
                &&& pivot.steps()[1] == PivotStepView::ChangeDirectory(run.rootfs@)
            },
            SetupAction::MountProcfs(create) => {
                step is MountProcfs && create.directory@ == path_of("/proc"@)
            },
            SetupAction::SetHostname(hostname) => {
                step is SetHostname && run.hostname == Some(*hostname)
            },
            SetupAction::ReadHostname => step is ReadHostname,
        },
{
    if let SetupStep::JoinCgroup = step {
        law_the_process_joins_the_cgroup_itself(cgroup->0);
    }
    if let SetupStep::MakeMountTreePrivate = step {
        reveal_strlit("/");
        vstd::utf8::is_ascii_chars_encode_utf8("/"@);
        assert(path_of("/"@) =~= seq![0x2fu8]);
    }
    if let SetupAction::MountBind(_, bind_mount) = action {
        let destination = bind_mount@.destination;
        lemma_named_part(destination);
        lemma_joined(run.rootfs@, named_part(destination));
    }
}

/// The complaint about a step that failed ends with the reason and is otherwise always the
/// same; that about a bind mount names source and destination.
pub proof fn law_failed_steps_tell_the_reason(
    step: SetupStep,
    cli: Cli,
    text: Seq<char>,
    other: Seq<char>,
)
    ensures
        differ_only_in_reason(
            setup_failure(step, cli, text),
            text,
            setup_failure(step, cli, other),
            other,
        ),
        step matches SetupStep::MountBind(i) ==> {
            &&& tells(setup_failure(step, cli, text), lossy_text(cli.bind_mounts@[i as int].source@))
            &&& tells(
                setup_failure(step, cli, text),
                lossy_text(cli.bind_mounts@[i as int].destination@),
            )
        },
{
    let front = setup_failure(step, cli, Seq::empty());
    assert(setup_failure(step, cli, text) =~= front + text);
    assert(setup_failure(step, cli, other) =~= front + other);
    lemma_differ_only_in_reason(front, text, other);
    if let SetupStep::MountBind(i) = step {
        let source = lossy_text(cli.bind_mounts@[i as int].source@);
        let destination = lossy_text(cli.bind_mounts@[i as int].destination@);
        let begin = "failed to bind mount "@;
        assert(setup_failure(step, cli, text) =~= begin + source + (" at "@ + destination + ": "@
            + text));
        assert(setup_failure(step, cli, text) =~= (begin + source + " at "@) + destination + (": "@
            + text));
    }
}

/// A container ends with the status that its first process came to, and where that came to
/// a complaint, with 125 and that complaint, whole.
pub proof fn law_a_container_ends_with_its_own_status(result: Result<int, Seq<char>>)
    ensures
        result matches Ok(code) ==> container_end(result) == (code, None::<Seq<char>>),
        result matches Err(message) ==> container_end(result) == (125int, Some(message)),
{
}

/// The hostname that was read back is told.
pub proof fn law_the_hostname_that_was_read_back_is_told(name: Seq<u8>, other: Seq<u8>)
    ensures
        differ_only_in_reason(
            hostname_notice(name),
            lossy_text(name),
            hostname_notice(other),
            lossy_text(other),
        ),
{
    lemma_differ_only_in_reason(
        "runtime process hostname = "@,
        lossy_text(name),
        lossy_text(other),
    );
}

/// A workload is forked exactly if the run asks for an init, and the command that is
/// launched is the one that the run asks for.
pub proof fn law_the_command_of_the_run_is_launched(run: CliView, signals: SignalForwarder)
    ensures
        match launch_of(run, signals) {
            LaunchState::Fork { context } => {
                &&& run.init
                &&& context.command_tokens == run.command_tokens
                &&& context.signals == signals
            },
            LaunchState::RestoreSignals { context, forked } => {
                &&& !run.init
                &&& !forked
                &&& context.command_tokens == run.command_tokens
                &&& context.signals == signals
            },
            _ => false,
        },
{
}

/// A container joins a cgroup exactly if the run has one, and then that one.
pub proof fn law_a_container_joins_the_cgroup_of_its_run(
    cli: Cli,
    cgroup: Option<Seq<u8>>,
    action: SetupAction,
)
    ensures
        plan_in(cli, cgroup).contains(SetupStep::JoinCgroup) <==> cgroup is Some,
        is_action_of(action, SetupStep::JoinCgroup, cli, cgroup) ==> (cgroup matches Some(path)
            && (action matches SetupAction::JoinCgroup(write) && components(write@.path)
            == components(path).push(path_of("cgroup.procs"@)))),
{
    law_a_run_takes_the_steps_that_it_needs(cli, cgroup is Some, 0);
    if is_action_of(action, SetupStep::JoinCgroup, cli, cgroup) {
        law_the_process_joins_the_cgroup_itself(cgroup->0);
    }
}

/// The complaint about a step says which step failed.
pub proof fn law_failed_steps_are_named(step: SetupStep, cli: Cli, text: Seq<char>)
    ensures
        ({
            let complaint = setup_failure(step, cli, text);
            match step {
                SetupStep::SetParentDeathSignal => tells(complaint, "parent-death signal"@),
                SetupStep::JoinCgroup => tells(complaint, "join cgroup"@),
                SetupStep::MakeMountTreePrivate => tells(complaint, "mount tree private"@),
                SetupStep::MakeRootfsMountPoint => tells(complaint, "rootfs a mount point"@),
                SetupStep::MountBind(_) => tells(complaint, "bind mount"@),
                SetupStep::PivotIntoRootfs => tells(complaint, "pivot into rootfs"@),
                SetupStep::MountProcfs => tells(complaint, "mount procfs"@),
                SetupStep::SetHostname => tells(complaint, "set hostname"@),
                SetupStep::ReadHostname => tells(complaint, "read hostname"@),
            }
        }),
{
    let complaint = setup_failure(step, cli, text);
    match step {
        SetupStep::SetParentDeathSignal => {
            reveal_strlit("failed to configure parent-death signal: ");
            reveal_strlit("parent-death signal");
            lemma_tells(complaint, "parent-death signal"@, 20);
        },
        SetupStep::JoinCgroup => {
            reveal_strlit("failed to join cgroup: ");
            reveal_strlit("join cgroup");
            lemma_tells(complaint, "join cgroup"@, 10);
        },
        SetupStep::MakeMountTreePrivate => {
            reveal_strlit("failed to make mount tree private: ");
            reveal_strlit("mount tree private");
            lemma_tells(complaint, "mount tree private"@, 15);
        },
        SetupStep::MakeRootfsMountPoint => {
            reveal_strlit("failed to make rootfs a mount point: ");
            reveal_strlit("rootfs a mount point");
            lemma_tells(complaint, "rootfs a mount point"@, 15);
        },
        SetupStep::MountBind(_) => {
            reveal_strlit("failed to bind mount ");
            reveal_strlit("bind mount");
            lemma_tells(complaint, "bind mount"@, 10);
        },
        SetupStep::PivotIntoRootfs => {
            reveal_strlit("failed to pivot into rootfs: ");
            reveal_strlit("pivot into rootfs");
            lemma_tells(complaint, "pivot into rootfs"@, 10);
        },
        SetupStep::MountProcfs => {
            reveal_strlit("failed to mount procfs: ");
            reveal_strlit("mount procfs");
            lemma_tells(complaint, "mount procfs"@, 10);
        },
        SetupStep::SetHostname => {
            reveal_strlit("failed to set hostname: ");
            reveal_strlit("set hostname");
            lemma_tells(complaint, "set hostname"@, 10);
        },
        SetupStep::ReadHostname => {
            reveal_strlit("failed to read hostname: ");
            reveal_strlit("read hostname");
            lemma_tells(complaint, "read hostname"@, 10);
        },
    }
}

} // verus!
