//! The container's file system: what is mounted where, and how the container's
//! root takes the place of the host's.

use crate::cli::{lemma_old_root, old_root, old_root_name, BindMount, OLD_ROOT_PATH};
use crate::error::{path_result, reported, unit_result, ErrorKind, IoError, IoErrorView};
use crate::path::{
    anchor, components, is_absolute, joined, lemma_joined, lemma_names_single, lemma_names_split,
    names, path_of, UnixPath, DOT, SLASH,
};
use crate::platform::{
    bind_flag, detach_flag, mnt_detach, mount_flag_set, ms_bind, ms_flags_union, ms_nodev,
    ms_noexec, ms_nosuid, ms_private, ms_rec, no_devices_flag, no_exec_flag, no_suid_flag,
    private_flag, recursive_flag, unmount_flag_set,
};
use crate::text::{display, ends_with, lemma_ends_with, lossy_text, text_of_two};
use nix::mount::{MntFlags, MsFlags};
use vstd::prelude::*;

verus! {

/// The directory that holds the old root, as it is called inside the new one.
pub const OLD_ROOT_NAME: &'static str = "oldroot";

/// One call of `mount(2)`, without file-system-specific data.
#[derive(Debug)]
pub struct MountRequest {
    pub source: Option<UnixPath>,
    pub target: UnixPath,
    pub fstype: Option<String>,
    pub flags: MsFlags,
}

#[verifier::ext_equal]
pub struct MountRequestView {
    pub source: Option<Seq<u8>>,
    pub target: Seq<u8>,
    pub fstype: Option<Seq<char>>,
    pub flags: Set<int>,
}

impl View for MountRequest {
    type V = MountRequestView;

    open spec fn view(&self) -> MountRequestView {
        MountRequestView {
            source: match self.source {
                Some(source) => Some(source@),
                None => None,
            },
            target: self.target@,
            fstype: match self.fstype {
                Some(fstype) => Some(fstype@),
                None => None,
            },
            flags: mount_flag_set(self.flags),
        }
    }
}

/// The mount tree with everything in it becomes private.
pub fn private_mount_flags() -> (flags: MsFlags)
    ensures
        mount_flag_set(flags) == set![private_flag(), recursive_flag()],
{
    let flags = ms_flags_union(ms_private(), ms_rec());
    assert(mount_flag_set(flags) =~= set![private_flag(), recursive_flag()]);
    flags
}

/// The mount that makes the whole mount tree private.
pub open spec fn private_request() -> MountRequestView {
    MountRequestView {
        source: None,
        target: path_of("/"@),
        fstype: None,
        flags: set![private_flag(), recursive_flag()],
    }
}

/// The mount that makes the whole mount tree private.
pub fn make_mount_tree_private() -> (request: MountRequest)
    ensures
        request@ == private_request(),
{
    MountRequest {
        source: None,
        target: UnixPath::from_text("/"),
        fstype: None,
        flags: private_mount_flags(),
    }
}

/// The flags of a bind mount: one of a directory takes along what is mounted below.
pub open spec fn bind_flags(recursive: bool) -> Set<int> {
    if recursive {
        set![bind_flag(), recursive_flag()]
    } else {
        set![bind_flag()]
    }
}

fn bind_mount_flags(recursive: bool) -> (flags: MsFlags)
    ensures
        mount_flag_set(flags) == bind_flags(recursive),
{
    let mut flags = ms_bind();
    if recursive {
        flags = ms_flags_union(flags, ms_rec());
    }
    assert(mount_flag_set(flags) =~= bind_flags(recursive));
    flags
}

/// The mount that makes the root file system a mount point: it is bound to itself.
pub open spec fn mount_point_request(rootfs: Seq<u8>) -> MountRequestView {
    MountRequestView {
        source: Some(rootfs),
        target: rootfs,
        fstype: None,
        flags: bind_flags(true),
    }
}

/// The mount that makes the root file system a mount point.
pub fn make_rootfs_mount_point(rootfs: &UnixPath) -> (request: MountRequest)
    ensures
        request@ == mount_point_request(rootfs@),
{
    MountRequest {
        source: Some(rootfs.clone()),
        target: rootfs.clone(),
        fstype: None,
        flags: bind_mount_flags(true),
    }
}

/// The mount that shows a path of the host at its place in the container.
pub open spec fn bind_request(
    source: Seq<u8>,
    target: Seq<u8>,
    source_is_dir: bool,
) -> MountRequestView {
    MountRequestView {
        source: Some(source),
        target,
        fstype: None,
        flags: bind_flags(source_is_dir),
    }
}

/// The mount that shows a path of the host at its place in the container, or the
/// failure to prepare that place. `source_is_dir` is asked for once it is prepared.
pub fn mount_bind(
    bind_mount: &BindMount,
    prepared: Result<UnixPath, IoError>,
    source_is_dir: bool,
) -> (result: Result<MountRequest, IoError>)
    ensures
        match prepared {
            Ok(target) => result matches Ok(request) && request@ == (MountRequestView {
                source: Some(bind_mount.source@),
                target: target@,
                fstype: None,
                flags: bind_flags(source_is_dir),
            }),
            Err(error) => result == Err::<MountRequest, IoError>(error),
        },
        request_result(result) == bound_mount(
            bind_mount.source@,
            path_result(prepared),
            source_is_dir,
        ),
{
    match prepared {
        Ok(target) => Ok(
            MountRequest {
                source: Some(bind_mount.source.clone()),
                target,
                fstype: None,
                flags: bind_mount_flags(source_is_dir),
            },
        ),
        Err(error) => Err(error),
    }
}

/// The mount that puts the process file system in its place.
pub open spec fn procfs_request() -> MountRequestView {
    MountRequestView {
        source: Some(path_of("proc"@)),
        target: path_of("/proc"@),
        fstype: Some("proc"@),
        flags: set![no_suid_flag(), no_devices_flag(), no_exec_flag()],
    }
}

/// The view of a mount that is to be made.
pub open spec fn request_result(result: Result<MountRequest, IoError>) -> Result<
    MountRequestView,
    IoErrorView,
> {
    match result {
        Ok(request) => Ok(request@),
        Err(error) => Err(error@),
    }
}

/// The bind mount that follows the preparation of its place.
pub open spec fn bound_mount(
    source: Seq<u8>,
    prepared: Result<Seq<u8>, IoErrorView>,
    source_is_dir: bool,
) -> Result<MountRequestView, IoErrorView> {
    match prepared {
        Ok(target) => Ok(bind_request(source, target, source_is_dir)),
        Err(error) => Err(error),
    }
}

/// The mount that follows the creation of the directory for the process file system.
pub open spec fn procfs_mount(created: Result<(), IoErrorView>) -> Result<
    MountRequestView,
    IoErrorView,
> {
    match created {
        Ok(_) => Ok(procfs_request()),
        Err(error) => Err(error),
    }
}

/// Create the directory where the process file system belongs, with all above it.
#[derive(Debug)]
pub struct CreateProcDirectory {
    pub directory: UnixPath,
}

/// Begins to mount the process file system: first its directory is created.
pub fn mount_procfs() -> (step: CreateProcDirectory)
    ensures
        step.directory@ == path_of("/proc"@),
{
    CreateProcDirectory { directory: UnixPath::from_text("/proc") }
}

impl CreateProcDirectory {
    /// The mount that follows, or the failure to create the directory.
    pub fn answered(self, created: Result<(), IoError>) -> (result: Result<MountRequest, IoError>)
        ensures
            match created {
                Ok(_) => result matches Ok(request) && request@ == procfs_request(),
                Err(error) => result == Err::<MountRequest, IoError>(error),
            },
            request_result(result) == procfs_mount(unit_result(created)),
    {
        match created {
            Ok(_) => {
                let flags = ms_flags_union(ms_flags_union(ms_nosuid(), ms_nodev()), ms_noexec());
                assert(mount_flag_set(flags) =~= procfs_request().flags);
                Ok(
                    MountRequest {
                        source: Some(UnixPath::from_text("proc")),
                        target: UnixPath::from_text("/proc"),
                        fstype: Some("proc".to_owned()),
                        flags,
                    },
                )
            },
            Err(error) => Err(error),
        }
    }
}

/// One step on the way into the container's root file system.
#[derive(Debug)]
pub enum PivotStep {
    /// See that this is an empty directory.
    PrepareOldRoot(UnixPath),
    ChangeDirectory(UnixPath),
    /// Make the first path the root and put the old root at the second.
    PivotRoot(UnixPath, UnixPath),
    Unmount(UnixPath, MntFlags),
    RemoveDirectory(UnixPath),
}

pub enum PivotStepView {
    PrepareOldRoot(Seq<u8>),
    ChangeDirectory(Seq<u8>),
    PivotRoot(Seq<u8>, Seq<u8>),
    Unmount(Seq<u8>, Set<int>),
    RemoveDirectory(Seq<u8>),
}

impl View for PivotStep {
    type V = PivotStepView;

    open spec fn view(&self) -> PivotStepView {
        match self {
            PivotStep::PrepareOldRoot(path) => PivotStepView::PrepareOldRoot(path@),
            PivotStep::ChangeDirectory(path) => PivotStepView::ChangeDirectory(path@),
            PivotStep::PivotRoot(new, old) => PivotStepView::PivotRoot(new@, old@),
            PivotStep::Unmount(path, flags) => PivotStepView::Unmount(
                path@,
                unmount_flag_set(*flags),
            ),
            PivotStep::RemoveDirectory(path) => PivotStepView::RemoveDirectory(path@),
        }
    }
}

/// Where the old root is put, seen from the host.
pub open spec fn put_old(rootfs: Seq<u8>) -> Seq<u8> {
    joined(rootfs, path_of(OLD_ROOT_NAME@))
}

/// The steps into the root file system. The old root ends unmounted, and its
/// directory removed.
pub open spec fn pivot_plan(rootfs: Seq<u8>) -> Seq<PivotStepView> {
    seq![
        PivotStepView::PrepareOldRoot(put_old(rootfs)),
        PivotStepView::ChangeDirectory(rootfs),
        PivotStepView::PivotRoot(path_of("."@), path_of(OLD_ROOT_NAME@)),
        PivotStepView::ChangeDirectory(path_of("/"@)),
        PivotStepView::Unmount(old_root(), set![detach_flag()]),
        PivotStepView::RemoveDirectory(old_root()),
    ]
}

/// How far the way into the root file system has come.
pub enum PivotState {
    /// The step with this number is next.
    Step(int),
    /// It is over, with this result.
    Over(Result<(), IoErrorView>),
}

/// What follows the outcome of a step, of so many: the first that fails ends them, and
/// its failure is the result. What is over stays so.
pub open spec fn pivot_next(
    steps: nat,
    state: PivotState,
    outcome: Result<(), IoErrorView>,
) -> PivotState {
    match state {
        PivotState::Step(k) => if outcome is Err {
            PivotState::Over(outcome)
        } else if k + 1 < steps {
            PivotState::Step(k + 1)
        } else {
            PivotState::Over(Ok(()))
        },
        PivotState::Over(_) => state,
    }
}

/// A way into a root file system.
#[derive(Debug)]
pub struct Pivot {
    steps: Vec<PivotStep>,
    position: usize,
}

/// What follows a step.
#[derive(Debug)]
pub enum PivotNext {
    /// Take the next step.
    Perform(Pivot),
    /// It is over, with this result.
    Over(Result<(), IoError>),
}

/// Begins the way into the root file system.
pub fn pivot_into_rootfs(rootfs: &UnixPath) -> (pivot: Pivot)
    ensures
        pivot.steps() == pivot_plan(rootfs@),
        pivot.taken() == 0,
{
    let name = UnixPath::from_text(OLD_ROOT_NAME);
    let steps = vec![
        PivotStep::PrepareOldRoot(rootfs.join(&name)),
        PivotStep::ChangeDirectory(rootfs.clone()),
        PivotStep::PivotRoot(UnixPath::from_text("."), name),
        PivotStep::ChangeDirectory(UnixPath::from_text("/")),
        PivotStep::Unmount(UnixPath::from_text(OLD_ROOT_PATH), mnt_detach()),
        PivotStep::RemoveDirectory(UnixPath::from_text(OLD_ROOT_PATH)),
    ];
    assert(steps@.map_values(|step: PivotStep| step@) =~= pivot_plan(rootfs@));
    Pivot { steps, position: 0 }
}

impl Pivot {
    #[verifier::type_invariant]
    spec fn has_step(self) -> bool {
        self.position < self.steps@.len()
    }

    /// All steps, taken or not.
    pub closed spec fn steps(&self) -> Seq<PivotStepView> {
        self.steps@.map_values(|step: PivotStep| step@)
    }

    /// How many steps were taken.
    pub closed spec fn taken(&self) -> int {
        self.position as int
    }

    /// The step that is next.
    pub fn step(&self) -> (step: &PivotStep)
        ensures
            0 <= self.taken() < self.steps().len(),
            step@ == self.steps()[self.taken()],
    {
        proof {
            use_type_invariant(self);
        }
        &self.steps[self.position]
    }

    /// What follows the step that came out so.
    pub fn answered(self, outcome: Result<(), IoError>) -> (next: PivotNext)
        ensures
            match pivot_next(
                self.steps().len(),
                PivotState::Step(self.taken()),
                unit_result(outcome),
            ) {
                PivotState::Step(k) => next matches PivotNext::Perform(pivot) && {
                    &&& pivot.steps() == self.steps()
                    &&& pivot.taken() == k
                },
                PivotState::Over(Ok(_)) => next matches PivotNext::Over(Ok(_)),
                PivotState::Over(Err(complaint)) => next matches PivotNext::Over(Err(error))
                    && error@ == complaint,
            },
    {
        proof {
            use_type_invariant(&self);
        }
        if let Err(error) = outcome {
            return PivotNext::Over(Err(error));
        }
        let total = self.steps.len();
        let position = self.position + 1;
        if position < total {
            PivotNext::Perform(Pivot { steps: self.steps, position })
        } else {
            PivotNext::Over(Ok(()))
        }
    }
}

/// The state after steps that came out so, one after the other.
pub open spec fn pivot_after(steps: nat, outcomes: Seq<Result<(), IoErrorView>>) -> PivotState
    decreases outcomes.len(),
{
    if outcomes.len() == 0 {
        PivotState::Step(0)
    } else {
        pivot_next(steps, pivot_after(steps, outcomes.drop_last()), outcomes.last())
    }
}

/// Where a process stands in the file system.
#[verifier::ext_equal]
pub struct Standpoint {
    /// What its root is, by the path that was used when it became the root.
    pub root: Seq<u8>,
    /// Its working directory.
    pub directory: Seq<u8>,
    /// Where the root before this one is mounted, if it is.
    pub old_root: Option<Seq<u8>>,
    /// The directory for the old root, if it exists.
    pub reserved: Option<Seq<u8>>,
}

/// What a step does to where a process stands, if it works. The new root is meant to be
/// the working directory, so that the old root is found below the new one.
pub open spec fn after_pivot_step(before: Standpoint, step: PivotStepView) -> Standpoint {
    match step {
        PivotStepView::PrepareOldRoot(path) => Standpoint { reserved: Some(path), ..before },
        PivotStepView::ChangeDirectory(path) => Standpoint { directory: path, ..before },
        PivotStepView::PivotRoot(new, old) => Standpoint {
            root: joined(before.directory, new),
            directory: before.directory,
            old_root: Some(joined(path_of("/"@), old)),
            reserved: Some(joined(path_of("/"@), old)),
        },
        PivotStepView::Unmount(path, _) => Standpoint {
            old_root: if before.old_root == Some(path) {
                None
            } else {
                before.old_root
            },
            ..before
        },
        PivotStepView::RemoveDirectory(path) => Standpoint {
            reserved: if before.reserved == Some(path) {
                None
            } else {
                before.reserved
            },
            ..before
        },
    }
}

/// What steps do that all work.
pub open spec fn after_pivot_steps(before: Standpoint, steps: Seq<PivotStepView>) -> Standpoint
    decreases steps.len(),
{
    if steps.len() == 0 {
        before
    } else {
        after_pivot_step(after_pivot_steps(before, steps.drop_last()), steps.last())
    }
}

/// Where a process stands after steps that came out so, one after the other. A step that
/// failed, or that was not taken, does nothing.
pub open spec fn pivoted(
    before: Standpoint,
    plan: Seq<PivotStepView>,
    outcomes: Seq<Result<(), IoErrorView>>,
) -> Standpoint
    decreases outcomes.len(),
{
    if outcomes.len() == 0 {
        before
    } else {
        let earlier = pivoted(before, plan, outcomes.drop_last());
        match (pivot_after(plan.len(), outcomes.drop_last()), outcomes.last()) {
            (PivotState::Step(k), Ok(_)) => after_pivot_step(earlier, plan[k]),
            _ => earlier,
        }
    }
}

/// Whether the step with the number `k` is the first that failed, with this failure.
pub open spec fn first_fails_at(
    outcomes: Seq<Result<(), IoErrorView>>,
    k: int,
    error: IoErrorView,
) -> bool {
    &&& 0 <= k < outcomes.len()
    &&& outcomes[k] == Err::<(), IoErrorView>(error)
    &&& forall|i: int| 0 <= i < k ==> (#[trigger] outcomes[i]) is Ok
}

/// The first step that fails is the last that is taken, and its failure is the result:
/// what the steps before it did stands, and nothing else was done. The way succeeds when
/// all its steps have worked, and only then.
pub proof fn law_the_first_failure_ends_the_pivot(
    before: Standpoint,
    plan: Seq<PivotStepView>,
    outcomes: Seq<Result<(), IoErrorView>>,
)
    requires
        plan.len() > 0,
    ensures
        match pivot_after(plan.len(), outcomes) {
            PivotState::Step(k) => {
                &&& k == outcomes.len() < plan.len()
                &&& forall|i: int| 0 <= i < k ==> (#[trigger] outcomes[i]) is Ok
                &&& pivoted(before, plan, outcomes) == after_pivot_steps(before, plan.take(k))
            },
            PivotState::Over(Ok(_)) => {
                &&& plan.len() <= outcomes.len()
                &&& forall|i: int| 0 <= i < plan.len() ==> (#[trigger] outcomes[i]) is Ok
                &&& pivoted(before, plan, outcomes) == after_pivot_steps(before, plan)
            },
            PivotState::Over(Err(error)) => exists|k: int|
                {
                    &&& #[trigger] first_fails_at(outcomes, k, error)
                    &&& k < plan.len()
                    &&& pivoted(before, plan, outcomes) == after_pivot_steps(before, plan.take(k))
                },
        },
    decreases outcomes.len(),
{
    if outcomes.len() == 0 {
        assert(plan.take(0) =~= Seq::<PivotStepView>::empty());
    } else {
        let earlier = outcomes.drop_last();
        let last = outcomes.len() - 1;
        law_the_first_failure_ends_the_pivot(before, plan, earlier);
        assert(forall|i: int| 0 <= i < last ==> earlier[i] == #[trigger] outcomes[i]);
        match pivot_after(plan.len(), earlier) {
            PivotState::Step(k) => {
                assert(plan.take(k + 1).drop_last() =~= plan.take(k));
                assert(plan.take(plan.len() as int) =~= plan);
                if let Err(error) = outcomes.last() {
                    assert(first_fails_at(outcomes, last, error));
                }
            },
            PivotState::Over(Err(error)) => {
                let k = choose|k: int|
                    {
                        &&& #[trigger] first_fails_at(earlier, k, error)
                        &&& k < plan.len()
                        &&& pivoted(before, plan, earlier) == after_pivot_steps(
                            before,
                            plan.take(k),
                        )
                    };
                assert(first_fails_at(outcomes, k, error));
            },
            PivotState::Over(Ok(_)) => {},
        }
    }
}

/// The way into a root file system that succeeds leads there: the root is the root file
/// system, the working directory is `/`, the old root is mounted nowhere and its directory
/// is gone.
pub proof fn law_a_pivot_replaces_the_root(
    before: Standpoint,
    rootfs: Seq<u8>,
    outcomes: Seq<Result<(), IoErrorView>>,
)
    requires
        is_absolute(rootfs),
        pivot_after(pivot_plan(rootfs).len(), outcomes) matches PivotState::Over(Ok(_)),
    ensures
        ({
            let end = pivoted(before, pivot_plan(rootfs), outcomes);
            &&& components(end.root) == components(rootfs)
            &&& end.directory == path_of("/"@)
            &&& end.old_root is None
            &&& end.reserved is None
        }),
{
    let plan = pivot_plan(rootfs);
    law_the_first_failure_ends_the_pivot(before, plan, outcomes);
    lemma_put_old(rootfs);
    lemma_old_root();
    reveal_strlit("/");
    reveal_strlit(".");
    vstd::utf8::is_ascii_chars_encode_utf8("/"@);
    vstd::utf8::is_ascii_chars_encode_utf8("."@);
    assert(path_of("/"@) =~= seq![SLASH]);
    assert(path_of("."@) =~= seq![DOT]);
    assert(joined(path_of("/"@), old_root_name()) =~= old_root());
    assert(plan.drop_last() =~= plan.take(5));
    assert(plan.take(5).drop_last() =~= plan.take(4));
    assert(plan.take(4).drop_last() =~= plan.take(3));
    assert(plan.take(3).drop_last() =~= plan.take(2));
    assert(plan.take(2).drop_last() =~= plan.take(1));
    assert(plan.take(1).drop_last() =~= plan.take(0));
    reveal_with_fuel(after_pivot_steps, 7);
    assert(pivoted(before, plan, outcomes).root == joined(rootfs, seq![DOT]));
    lemma_joined_current(rootfs);
}

/// A directory for the old root that is refused ends the way at once, with that failure:
/// root and working directory are as before.
pub proof fn law_a_refused_old_root_changes_nothing(
    before: Standpoint,
    rootfs: Seq<u8>,
    outcomes: Seq<Result<(), IoErrorView>>,
    error: IoErrorView,
)
    requires
        outcomes.len() > 0,
        outcomes[0] == Err::<(), IoErrorView>(error),
    ensures
        pivot_after(pivot_plan(rootfs).len(), outcomes) == PivotState::Over(Err(error)),
        pivoted(before, pivot_plan(rootfs), outcomes) == before,
{
    let plan = pivot_plan(rootfs);
    law_the_first_failure_ends_the_pivot(before, plan, outcomes);
    assert(!(outcomes[0] is Ok));
    match pivot_after(plan.len(), outcomes) {
        PivotState::Over(Err(other)) => {
            let k = choose|k: int|
                {
                    &&& #[trigger] first_fails_at(outcomes, k, other)
                    &&& k < plan.len()
                    &&& pivoted(before, plan, outcomes) == after_pivot_steps(before, plan.take(k))
                };
            assert(k == 0);
            assert(plan.take(0) =~= Seq::<PivotStepView>::empty());
        },
        _ => {
            assert(false);
        },
    }
}

/// Joining `.` to an absolute path names the same place.
proof fn lemma_joined_current(base: Seq<u8>)
    requires
        is_absolute(base),
    ensures
        components(joined(base, seq![DOT])) == components(base),
{
    let path = joined(base, seq![DOT]);
    lemma_names_single(seq![DOT]);
    if base.last() == SLASH {
        let front = base.drop_last();
        assert(base =~= front + seq![SLASH] + Seq::<u8>::empty());
        assert(path =~= front + seq![SLASH] + seq![DOT]);
        lemma_names_split(front, Seq::empty());
        lemma_names_split(front, seq![DOT]);
        assert(names(path) =~= names(base));
    } else {
        lemma_names_split(base, seq![DOT]);
        assert(names(path) =~= names(base));
    }
    assert(components(path) =~= components(base));
}

/// What is done next about the directory for the old root.
pub enum OldRootState {
    List { path: Seq<u8> },
    Create { path: Seq<u8> },
    Failed { error: IoErrorView },
}

/// What is done about the directory for the old root, by what its path is found to be.
pub open spec fn old_root_start(path: Seq<u8>, found: Result<bool, IoErrorView>) -> OldRootState {
    match found {
        Ok(true) => OldRootState::List { path },
        Ok(false) => OldRootState::Failed {
            error: reported(
                ErrorKind::InvalidInput,
                "reserved old-root path is not a directory: "@ + lossy_text(path),
            ),
        },
        Err(error) => if error.kind == ErrorKind::NotFound {
            OldRootState::Create { path }
        } else {
            OldRootState::Failed { error }
        },
    }
}

/// What listing the directory for the old root comes to.
pub open spec fn listed_result(path: Seq<u8>, has_entry: Result<bool, IoErrorView>) -> Result<
    (),
    IoErrorView,
> {
    match has_entry {
        Ok(false) => Ok(()),
        Ok(true) => Err(
            reported(
                ErrorKind::InvalidInput,
                "reserved old-root directory is not empty: "@ + lossy_text(path),
            ),
        ),
        Err(error) => Err(error),
    }
}

/// The view of a result that carries a flag.
pub open spec fn flag_result(result: Result<bool, IoError>) -> Result<bool, IoErrorView> {
    match result {
        Ok(flag) => Ok(flag),
        Err(error) => Err(error@),
    }
}

impl View for OldRootStep {
    type V = OldRootState;

    open spec fn view(&self) -> OldRootState {
        match self {
            OldRootStep::List(step) => OldRootState::List { path: step.path@ },
            OldRootStep::Create(step) => OldRootState::Create { path: step.path@ },
            OldRootStep::Failed(error) => OldRootState::Failed { error: error@ },
        }
    }
}

/// What to do next about the directory for the old root.
#[derive(Debug)]
pub enum OldRootStep {
    /// See whether anything is in it.
    List(ListOldRoot),
    /// Create it.
    Create(CreateOldRoot),
    Failed(IoError),
}

#[derive(Debug)]
pub struct ListOldRoot {
    pub path: UnixPath,
}

#[derive(Debug)]
pub struct CreateOldRoot {
    pub path: UnixPath,
}

/// Looks after the directory for the old root. `is_directory` is what the path is
/// found to be, without following a link.
pub fn prepare_old_root_directory(path: UnixPath, is_directory: Result<bool, IoError>) -> (step:
    OldRootStep)
    ensures
        step@ == old_root_start(path@, flag_result(is_directory)),
        match is_directory {
            Ok(true) => step == OldRootStep::List(ListOldRoot { path }),
            Ok(false) => step matches OldRootStep::Failed(error) && error@ == reported(
                ErrorKind::InvalidInput,
                "reserved old-root path is not a directory: "@ + lossy_text(path@),
            ),
            Err(error) => if error.kind == ErrorKind::NotFound {
                step == OldRootStep::Create(CreateOldRoot { path })
            } else {
                step == OldRootStep::Failed(error)
            },
        },
{
    match is_directory {
        Ok(true) => OldRootStep::List(ListOldRoot { path }),
        Ok(false) => OldRootStep::Failed(
            IoError::new(
                ErrorKind::InvalidInput,
                text_of_two(
                    "reserved old-root path is not a directory: ",
                    display(&path).as_str(),
                ),
            ),
        ),
        Err(error) => {
            if error.kind == ErrorKind::NotFound {
                OldRootStep::Create(CreateOldRoot { path })
            } else {
                OldRootStep::Failed(error)
            }
        },
    }
}

impl CreateOldRoot {
    /// A directory that could be created serves: nothing is in it.
    pub fn answered(self, created: Result<(), IoError>) -> (result: Result<(), IoError>)
        ensures
            result == created,
    {
        created
    }
}

impl ListOldRoot {
    /// The directory serves if it could be listed and nothing is in it.
    pub fn answered(self, has_entry: Result<bool, IoError>) -> (result: Result<(), IoError>)
        ensures
            unit_result(result) == listed_result(self.path@, flag_result(has_entry)),
            match has_entry {
                Ok(false) => result is Ok,
                Ok(true) => result matches Err(error) && error@ == reported(
                    ErrorKind::InvalidInput,
                    "reserved old-root directory is not empty: "@ + lossy_text(self.path@),
                ),
                Err(error) => result == Err::<(), IoError>(error),
            },
    {
        match has_entry {
            Ok(false) => Ok(()),
            Ok(true) => Err(
                IoError::new(
                    ErrorKind::InvalidInput,
                    text_of_two(
                        "reserved old-root directory is not empty: ",
                        display(&self.path).as_str(),
                    ),
                ),
            ),
            Err(error) => Err(error),
        }
    }
}

/// The directory for the old root is one name below the root file system.
pub(crate) proof fn lemma_put_old(rootfs: Seq<u8>)
    ensures
        path_of(OLD_ROOT_NAME@) == old_root_name(),
        components(put_old(rootfs)) == components(rootfs).push(old_root_name()),
{
    reveal_strlit("oldroot");
    let text = OLD_ROOT_NAME@;
    assert(vstd::utf8::is_ascii_chars(text));
    vstd::utf8::is_ascii_chars_encode_utf8(text);
    assert(path_of(text) =~= old_root_name());
    lemma_names_single(old_root_name());
    assert(anchor(old_root_name()) =~= Seq::<Seq<u8>>::empty());
    lemma_joined(rootfs, old_root_name());
    assert(components(put_old(rootfs)) =~= components(rootfs).push(old_root_name()));
}

/// Every bind mount shows its source at its target, in no file system of its own; what is
/// mounted below the source comes along exactly if the source is a directory; and no other
/// flag is set. The root file system is bound to itself in this way.
pub proof fn law_a_bind_mount_shows_its_source_at_its_target(
    source: Seq<u8>,
    target: Seq<u8>,
    source_is_dir: bool,
    flag: int,
)
    ensures
        bind_request(source, target, source_is_dir).source == Some(source),
        bind_request(source, target, source_is_dir).target == target,
        bind_request(source, target, source_is_dir).fstype is None,
        bind_request(source, target, source_is_dir).flags.contains(flag) <==> flag == 0x1000 || (
        flag == 0x4000 && source_is_dir),
        mount_point_request(target) == bind_request(target, target, true),
{
}

/// The directory for the old root that is prepared, seen from the host, is the one below the
/// root file system where the old root is then put; what is entered is the root file system;
/// and what is unmounted and removed in the end is that directory, seen from inside.
pub proof fn law_the_old_root_is_put_where_it_was_prepared(rootfs: Seq<u8>)
    ensures
        ({
            let plan = pivot_plan(rootfs);
            let name = seq![0x6fu8, 0x6c, 0x64, 0x72, 0x6f, 0x6f, 0x74];
            &&& plan.len() == 6
            &&& plan[0] matches PivotStepView::PrepareOldRoot(prepared)
            &&& components(prepared) == components(rootfs).push(name)
            &&& plan[1] == PivotStepView::ChangeDirectory(rootfs)
            &&& plan[2] matches PivotStepView::PivotRoot(new, put)
            &&& new == seq![0x2eu8]
            &&& put == name
            &&& plan[3] == PivotStepView::ChangeDirectory(seq![0x2fu8])
            &&& plan[4] matches PivotStepView::Unmount(unmounted, flags)
            &&& unmounted == seq![0x2fu8] + name
            &&& flags == set![2int]
            &&& plan[5] == PivotStepView::RemoveDirectory(unmounted)
        }),
{
    lemma_put_old(rootfs);
    lemma_old_root();
    reveal_strlit("/");
    reveal_strlit(".");
    vstd::utf8::is_ascii_chars_encode_utf8("/"@);
    vstd::utf8::is_ascii_chars_encode_utf8("."@);
    assert(path_of("/"@) =~= seq![SLASH]);
    assert(path_of("."@) =~= seq![DOT]);
}

/// What comes of preparing the directory for the old root, by what the path is found to be
/// and, where these are asked for, whether it holds anything and whether it could be
/// created.
pub open spec fn old_root_result(
    path: Seq<u8>,
    found: Result<bool, IoErrorView>,
    has_entry: Result<bool, IoErrorView>,
    created: Result<(), IoErrorView>,
) -> Result<(), IoErrorView> {
    match old_root_start(path, found) {
        OldRootState::List { path } => listed_result(path, has_entry),
        OldRootState::Create { .. } => created,
        OldRootState::Failed { error } => Err(error),
    }
}

/// A directory serves for the old root exactly if it was there and is empty, or was not
/// there and could be created. A failure of the system is handed on as it is; anything else
/// in its place, or in it, is refused as invalid input, and the refusal names the path.
pub proof fn law_exactly_an_empty_directory_serves_for_the_old_root(
    path: Seq<u8>,
    found: Result<bool, IoErrorView>,
    has_entry: Result<bool, IoErrorView>,
    created: Result<(), IoErrorView>,
)
    ensures
        ({
            let result = old_root_result(path, found, has_entry, created);
            let missing = found matches Err(error) && error.kind == ErrorKind::NotFound;
            &&& result is Ok <==> {
                ||| found == Ok::<bool, IoErrorView>(true) && has_entry == Ok::<bool, IoErrorView>(
                    false,
                )
                ||| missing && created is Ok
            }
            &&& found matches Err(error) ==> (!missing ==> result == Err::<(), IoErrorView>(error))
            &&& missing ==> (created matches Err(error) ==> result == Err::<(), IoErrorView>(error))
            &&& found == Ok::<bool, IoErrorView>(true) ==> (has_entry matches Err(error) ==> result
                == Err::<(), IoErrorView>(error))
            &&& found == Ok::<bool, IoErrorView>(false) ==> (result matches Err(error)
                && error.kind == ErrorKind::InvalidInput && ends_with(
                error.message,
                lossy_text(path),
            ))
            &&& found == Ok::<bool, IoErrorView>(true) && has_entry == Ok::<bool, IoErrorView>(true)
                ==> (result matches Err(error) && error.kind == ErrorKind::InvalidInput
                && ends_with(error.message, lossy_text(path)))
        }),
{
    lemma_ends_with("reserved old-root path is not a directory: "@, lossy_text(path));
    lemma_ends_with("reserved old-root directory is not empty: "@, lossy_text(path));
}

/// A mount whose place could not be prepared is not made, and the failure stands as it is;
/// one whose place was prepared is made there. So it is with the process file system and
/// its directory.
pub proof fn law_nothing_is_mounted_where_no_place_was_prepared(
    source: Seq<u8>,
    prepared: Result<Seq<u8>, IoErrorView>,
    source_is_dir: bool,
    created: Result<(), IoErrorView>,
)
    ensures
        bound_mount(source, prepared, source_is_dir) is Ok <==> prepared is Ok,
        prepared matches Err(error) ==> bound_mount(source, prepared, source_is_dir) == Err::<
            MountRequestView,
            IoErrorView,
        >(error),
        prepared matches Ok(target) ==> (bound_mount(
            source,
            prepared,
            source_is_dir,
        ) matches Ok(request) && request.target == target && request.source == Some(source)),
        procfs_mount(created) is Ok <==> created is Ok,
        created matches Err(error) ==> procfs_mount(created) == Err::<
            MountRequestView,
            IoErrorView,
        >(error),
{
}

/// Making the mount tree private reaches the root and everything below it and mounts nothing
/// new; the process file system is mounted under its own kind, and nothing in it runs, gives
/// rights or is a device.
pub proof fn law_mounts_are_private_and_the_process_file_system_is_harmless(flag: int)
    ensures
        private_request().flags.contains(flag) <==> flag == private_flag() || flag
            == recursive_flag(),
        private_request().source is None,
        private_request().fstype is None,
        private_request().target == path_of("/"@),
        procfs_request().flags.contains(flag) <==> flag == no_suid_flag() || flag
            == no_devices_flag() || flag == no_exec_flag(),
        procfs_request().fstype == Some("proc"@),
        procfs_request().source == Some(path_of("proc"@)),
        procfs_request().target == path_of("/proc"@),
{
}

} // verus!
