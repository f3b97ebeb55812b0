//! The cgroup of a container: created and configured before the container starts,
//! joined by its first process, and removed after it ended.

use crate::config::{PidsConfig, ResourceConfig};
use crate::error::{reported, text_result, unit_result, ErrorKind, IoError, IoErrorView};
use crate::path::{components, is_plain_name, joined, lemma_joined_name, path_of, UnixPath};
use crate::sequences::lemma_contains_after_push;
use crate::text::{
    contains_word, decimal, decimal_text, decimal_value, has_word,
    law_decimal_has_no_leading_zero, law_decimal_reads_back, text_of_two,
};
use vstd::prelude::*;

verus! {

pub const CGROUP_ROOT: &'static str = "/sys/fs/cgroup";

pub const MINICTR_CGROUP: &'static str = "minictr";

/// A file and what is written into it.
#[derive(Debug)]
pub struct FileWrite {
    pub path: UnixPath,
    pub contents: String,
}

#[verifier::ext_equal]
pub struct FileWriteView {
    pub path: Seq<u8>,
    pub contents: Seq<char>,
}

impl View for FileWrite {
    type V = FileWriteView;

    open spec fn view(&self) -> FileWriteView {
        FileWriteView { path: self.path@, contents: self.contents@ }
    }
}

/// A cgroup of a container.
#[derive(Debug)]
pub struct Cgroup {
    pub path: UnixPath,
}

impl View for Cgroup {
    type V = Seq<u8>;

    open spec fn view(&self) -> Seq<u8> {
        self.path@
    }
}

/// The write that limits the number of processes in a cgroup.
pub open spec fn limit_write(path: Seq<u8>, max: u64) -> FileWriteView {
    FileWriteView { path: joined(path, path_of("pids.max"@)), contents: decimal(max as nat) }
}

/// The directory whose removal removes a cgroup.
pub open spec fn directory_to_remove(path: Seq<u8>) -> Seq<u8> {
    path
}

/// The write that makes the process that writes a member of a cgroup.
pub open spec fn join_write(path: Seq<u8>) -> FileWriteView {
    FileWriteView { path: joined(path, path_of("cgroup.procs"@)), contents: "0"@ }
}

impl Cgroup {
    /// Begins to create the cgroup for the given resources. Where nothing is limited
    /// none is created.
    pub fn create(resources: &ResourceConfig) -> (step: CgroupStep)
        ensures
            step@ == cgroup_start(*resources),
    {
        match resources.pids {
            None => CgroupStep::Created(None),
            Some(pids) => CgroupStep::EnableRoot(EnableRoot { max: pids.max }),
        }
    }

    /// The write that makes the calling process a member.
    pub fn join_current(&self) -> (write: FileWrite)
        ensures
            write@ == join_write(self@),
    {
        FileWrite {
            path: self.path.join(&UnixPath::from_text("cgroup.procs")),
            contents: "0".to_owned(),
        }
    }

    /// The directory to remove.
    pub fn remove(&self) -> (directory: UnixPath)
        ensures
            directory@ == self@,
            directory@ == directory_to_remove(self@),
    {
        self.path.clone()
    }

    /// The write that sets the limit, if there is one.
    pub fn configure(&self, resources: &ResourceConfig) -> (write: Option<FileWrite>)
        ensures
            match resources.pids {
                Some(pids) => write matches Some(write) && write@ == limit_write(self@, pids.max),
                None => write is None,
            },
    {
        match resources.pids {
            Some(pids) => Some(limit_file(&self.path, pids.max)),
            None => None,
        }
    }
}

fn limit_file(path: &UnixPath, max: u64) -> (write: FileWrite)
    ensures
        write@ == limit_write(path@, max),
{
    FileWrite {
        path: path.join(&UnixPath::from_text("pids.max")),
        contents: decimal_text(max as u128),
    }
}

/// The name of a container's cgroup, from the runtime's process number and the time
/// in nanoseconds.
pub open spec fn cgroup_name(pid: nat, timestamp: nat) -> Seq<char> {
    "runtime-"@ + decimal(pid) + "-"@ + decimal(timestamp)
}

/// The name of a container's cgroup, from the runtime's process number and the time
/// in nanoseconds.
pub fn unique_name(pid: u32, timestamp: u128) -> (name: String)
    ensures
        name@ == cgroup_name(pid as nat, timestamp as nat),
{
    let mut name = text_of_two("runtime-", decimal_text(pid as u128).as_str());
    name.append("-");
    name.append(decimal_text(timestamp).as_str());
    name
}

/// Cgroups of different runtimes, or of one runtime at different times, have
/// different names.
pub proof fn law_names_are_unique(pid: nat, timestamp: nat, other_pid: nat, other_timestamp: nat)
    requires
        cgroup_name(pid, timestamp) == cgroup_name(other_pid, other_timestamp),
    ensures
        pid == other_pid,
        timestamp == other_timestamp,
{
    reveal_strlit("runtime-");
    reveal_strlit("-");
    let name = cgroup_name(pid, timestamp);
    let other = cgroup_name(other_pid, other_timestamp);
    let (a, b) = (decimal(pid), decimal(timestamp));
    let (c, d) = (decimal(other_pid), decimal(other_timestamp));
    let prefix = "runtime-"@;
    law_decimal_reads_back(pid);
    law_decimal_reads_back(timestamp);
    law_decimal_reads_back(other_pid);
    law_decimal_reads_back(other_timestamp);
    let start = prefix.len() as int;
    assert(name[start + a.len()] == '-');
    assert(other[start + c.len()] == '-');
    if a.len() < c.len() {
        assert(other[start + a.len()] == c[a.len() as int]);
    } else if c.len() < a.len() {
        assert(name[start + c.len()] == a[c.len() as int]);
    }
    assert(a.len() == c.len());
    assert(a =~= c) by {
        assert forall|i: int| 0 <= i < a.len() implies a[i] == c[i] by {
            assert(name[start + i] == a[i]);
            assert(other[start + i] == c[i]);
        }
    }
    let rest = start + a.len() + 1;
    assert(b =~= name.skip(rest));
    assert(d =~= other.skip(rest));
}

/// How far a controller is enabled for the groups below a directory.
pub enum ControllerState {
    /// Which controllers are there?
    ReadAvailable { parent: Seq<u8>, controller: Seq<char> },
    /// Which are enabled?
    ReadEnabled { parent: Seq<u8>, controller: Seq<char> },
    /// Enable it.
    Enable { write: FileWriteView },
    Enabled,
    Failed { error: IoErrorView },
}

/// What came back.
pub enum ControllerReply {
    Text(Result<Seq<char>, IoErrorView>),
    Done(Result<(), IoErrorView>),
}

/// The write that enables a controller below a directory.
pub open spec fn enabling_write(parent: Seq<u8>, controller: Seq<char>) -> FileWriteView {
    FileWriteView {
        path: joined(parent, path_of("cgroup.subtree_control"@)),
        contents: "+"@ + controller,
    }
}

/// What follows a reply. A reply to another question changes nothing.
pub open spec fn controller_next(state: ControllerState, reply: ControllerReply) -> ControllerState {
    match (state, reply) {
        (ControllerState::ReadAvailable { parent, controller }, ControllerReply::Text(Ok(text))) => {
            if has_word(text, controller) {
                ControllerState::ReadEnabled { parent, controller }
            } else {
                ControllerState::Failed {
                    error: reported(
                        ErrorKind::Unsupported,
                        "cgroup v2 "@ + controller + " controller is not available"@,
                    ),
                }
            }
        },
        (ControllerState::ReadEnabled { parent, controller }, ControllerReply::Text(Ok(text))) => {
            if has_word(text, controller) {
                ControllerState::Enabled
            } else {
                ControllerState::Enable { write: enabling_write(parent, controller) }
            }
        },
        (ControllerState::Enable { .. }, ControllerReply::Done(Ok(_))) => ControllerState::Enabled,
        (ControllerState::ReadAvailable { .. }, ControllerReply::Text(Err(error))) => {
            ControllerState::Failed { error }
        },
        (ControllerState::ReadEnabled { .. }, ControllerReply::Text(Err(error))) => {
            ControllerState::Failed { error }
        },
        (ControllerState::Enable { .. }, ControllerReply::Done(Err(error))) => {
            ControllerState::Failed { error }
        },
        _ => state,
    }
}

/// The state after the given replies, one after the other.
pub open spec fn controller_after(
    start: ControllerState,
    replies: Seq<ControllerReply>,
) -> ControllerState
    decreases replies.len(),
{
    if replies.len() == 0 {
        start
    } else {
        controller_next(controller_after(start, replies.drop_last()), replies.last())
    }
}

/// A controller that counts as enabled, or that is about to be, is one of those that
/// are available; and it counts as enabled only because it is listed as such or
/// because enabling it succeeded.
pub proof fn law_only_available_controllers_are_enabled(
    parent: Seq<u8>,
    controller: Seq<char>,
    replies: Seq<ControllerReply>,
)
    ensures
        ({
            let start = ControllerState::ReadAvailable { parent, controller };
            let end = controller_after(start, replies);
            &&& end is Enable || end is Enabled ==> exists|k: int|
                0 <= k < replies.len() && (#[trigger] replies[k] matches ControllerReply::Text(
                    Ok(text),
                ) && has_word(text, controller))
            &&& end matches ControllerState::Enable { write } ==> write == enabling_write(
                parent,
                controller,
            )
            &&& end is Enabled ==> exists|k: int|
                0 < k < replies.len() && {
                    ||| #[trigger] replies[k] matches ControllerReply::Text(Ok(text)) && has_word(
                        text,
                        controller,
                    )
                    ||| replies[k] matches ControllerReply::Done(Ok(_))
                }
        }),
{
    lemma_controller_states(parent, controller, replies);
}

proof fn lemma_controller_states(
    parent: Seq<u8>,
    controller: Seq<char>,
    replies: Seq<ControllerReply>,
)
    ensures
        ({
            let start = ControllerState::ReadAvailable { parent, controller };
            let end = controller_after(start, replies);
            &&& end matches ControllerState::ReadAvailable { parent: p, controller: c } ==> p
                == parent && c == controller
            &&& end matches ControllerState::ReadEnabled { parent: p, controller: c } ==> p
                == parent && c == controller
            &&& end matches ControllerState::Enable { write } ==> write == enabling_write(
                parent,
                controller,
            )
            &&& end is ReadEnabled || end is Enable || end is Enabled ==> exists|k: int|
                0 <= k < replies.len() && (#[trigger] replies[k] matches ControllerReply::Text(
                    Ok(text),
                ) && has_word(text, controller))
            &&& end is Enabled ==> exists|k: int|
                0 < k < replies.len() && {
                    ||| #[trigger] replies[k] matches ControllerReply::Text(Ok(text)) && has_word(
                        text,
                        controller,
                    )
                    ||| replies[k] matches ControllerReply::Done(Ok(_))
                }
        }),
    decreases replies.len(),
{
    if replies.len() > 0 {
        let start = ControllerState::ReadAvailable { parent, controller };
        let earlier = replies.drop_last();
        let before = controller_after(start, earlier);
        let last = replies.len() - 1;
        lemma_controller_states(parent, controller, earlier);
        assert(replies[last] == replies.last());
        assert(forall|k: int| 0 <= k < earlier.len() ==> earlier[k] == #[trigger] replies[k]);
        if !(before is ReadAvailable) {
            assert(earlier.len() > 0) by {
                if earlier.len() == 0 {
                    assert(before == start);
                }
            }
        }
        if before is ReadEnabled || before is Enable || before is Enabled {
            let k = choose|k: int|
                0 <= k < earlier.len() && (#[trigger] earlier[k] matches ControllerReply::Text(
                    Ok(text),
                ) && has_word(text, controller));
            assert(replies[k] == earlier[k]);
        }
        if before is Enabled {
            let k = choose|k: int|
                0 < k < earlier.len() && {
                    ||| #[trigger] earlier[k] matches ControllerReply::Text(Ok(text)) && has_word(
                        text,
                        controller,
                    )
                    ||| earlier[k] matches ControllerReply::Done(Ok(_))
                };
            assert(replies[k] == earlier[k]);
        }
    }
}

/// The file that lists the controllers that are available below a directory.
pub open spec fn available_file(parent: Seq<u8>) -> Seq<u8> {
    joined(parent, path_of("cgroup.controllers"@))
}

/// What to do next in order to enable a controller.
#[derive(Debug)]
pub enum ControllerStep {
    ReadAvailable(ReadAvailable),
    ReadEnabled(ReadEnabled),
    Enable(EnableWrite),
    Enabled,
    Failed(IoError),
}

impl View for ControllerStep {
    type V = ControllerState;

    open spec fn view(&self) -> ControllerState {
        match self {
            ControllerStep::ReadAvailable(step) => step@,
            ControllerStep::ReadEnabled(step) => step@,
            ControllerStep::Enable(step) => step@,
            ControllerStep::Enabled => ControllerState::Enabled,
            ControllerStep::Failed(error) => ControllerState::Failed { error: error@ },
        }
    }
}

/// Begins to enable a controller for the groups below a directory.
pub fn enable_controller(parent: &UnixPath, controller: &str) -> (step: ControllerStep)
    ensures
        step@ == (ControllerState::ReadAvailable { parent: parent@, controller: controller@ }),
{
    ControllerStep::ReadAvailable(
        ReadAvailable { parent: parent.clone(), controller: controller.to_owned() },
    )
}

/// Which controllers are there?
#[derive(Debug)]
pub struct ReadAvailable {
    pub parent: UnixPath,
    pub controller: String,
}

impl View for ReadAvailable {
    type V = ControllerState;

    open spec fn view(&self) -> ControllerState {
        ControllerState::ReadAvailable { parent: self.parent@, controller: self.controller@ }
    }
}

impl ReadAvailable {
    /// The file that lists them.
    pub fn file(&self) -> (path: UnixPath)
        ensures
            path@ == joined(self.parent@, path_of("cgroup.controllers"@)),
            path@ == available_file(self.parent@),
    {
        self.parent.join(&UnixPath::from_text("cgroup.controllers"))
    }

    pub fn answered(self, text: Result<String, IoError>) -> (step: ControllerStep)
        ensures
            step@ == controller_next(self@, ControllerReply::Text(text_result(text))),
    {
        let available = match text {
            Ok(available) => available,
            Err(error) => return ControllerStep::Failed(error),
        };
        if !contains_word(available.as_str(), self.controller.as_str()) {
            let mut message = text_of_two("cgroup v2 ", self.controller.as_str());
            message.append(" controller is not available");
            return ControllerStep::Failed(IoError::new(ErrorKind::Unsupported, message));
        }
        ControllerStep::ReadEnabled(
            ReadEnabled { parent: self.parent, controller: self.controller },
        )
    }
}

/// Which controllers are enabled?
#[derive(Debug)]
pub struct ReadEnabled {
    pub parent: UnixPath,
    pub controller: String,
}

impl View for ReadEnabled {
    type V = ControllerState;

    open spec fn view(&self) -> ControllerState {
        ControllerState::ReadEnabled { parent: self.parent@, controller: self.controller@ }
    }
}

impl ReadEnabled {
    /// The file that lists them.
    pub fn file(&self) -> (path: UnixPath)
        ensures
            path@ == joined(self.parent@, path_of("cgroup.subtree_control"@)),
    {
        self.parent.join(&UnixPath::from_text("cgroup.subtree_control"))
    }

    pub fn answered(self, text: Result<String, IoError>) -> (step: ControllerStep)
        ensures
            step@ == controller_next(self@, ControllerReply::Text(text_result(text))),
    {
        let enabled = match text {
            Ok(enabled) => enabled,
            Err(error) => return ControllerStep::Failed(error),
        };
        if contains_word(enabled.as_str(), self.controller.as_str()) {
            return ControllerStep::Enabled;
        }
        let write = FileWrite {
            path: self.file(),
            contents: text_of_two("+", self.controller.as_str()),
        };
        ControllerStep::Enable(EnableWrite { write })
    }
}

/// Enable the controller.
#[derive(Debug)]
pub struct EnableWrite {
    pub write: FileWrite,
}

impl View for EnableWrite {
    type V = ControllerState;

    open spec fn view(&self) -> ControllerState {
        ControllerState::Enable { write: self.write@ }
    }
}

impl EnableWrite {
    pub fn answered(self, written: Result<(), IoError>) -> (step: ControllerStep)
        ensures
            step@ == controller_next(self@, ControllerReply::Done(unit_result(written))),
    {
        match written {
            Ok(_) => ControllerStep::Enabled,
            Err(error) => ControllerStep::Failed(error),
        }
    }
}

/// The directory of all cgroups of the runtime.
pub open spec fn groups_directory() -> Seq<u8> {
    joined(path_of(CGROUP_ROOT@), path_of(MINICTR_CGROUP@))
}

/// The directory of the cgroup with the given name.
pub open spec fn group_directory(name: Seq<char>) -> Seq<u8> {
    joined(groups_directory(), path_of(name))
}

/// How far a cgroup is created. `max` is the limit that it is to have.
pub enum CgroupState {
    /// Enable the controller at the root of all cgroups.
    EnableRoot { max: u64 },
    /// Create the directory of the runtime's cgroups, with all above it.
    CreateParent { max: u64 },
    /// Enable the controller there.
    EnableParent { max: u64 },
    /// What is the process number, and what is the time?
    Name { max: u64 },
    /// Create the cgroup.
    CreateGroup { max: u64, path: Seq<u8> },
    /// Set its limit.
    WriteLimit { max: u64, path: Seq<u8> },
    /// Remove it again, whether that works or not.
    RemoveGroup { path: Seq<u8>, error: IoErrorView },
    /// The cgroup, if there is one, is ready.
    Created { cgroup: Option<Seq<u8>> },
    Failed { error: IoErrorView },
}

/// What came back.
pub enum CgroupReply {
    Done(Result<(), IoErrorView>),
    Identity(Result<(nat, nat), IoErrorView>),
    Removed,
}

/// How creating begins.
pub open spec fn cgroup_start(resources: ResourceConfig) -> CgroupState {
    match resources.pids {
        None => CgroupState::Created { cgroup: None },
        Some(pids) => CgroupState::EnableRoot { max: pids.max },
    }
}

/// What follows a reply. A reply to another question changes nothing.
pub open spec fn cgroup_next(state: CgroupState, reply: CgroupReply) -> CgroupState {
    match (state, reply) {
        (CgroupState::EnableRoot { max }, CgroupReply::Done(Ok(_))) => {
            CgroupState::CreateParent { max }
        },
        (CgroupState::CreateParent { max }, CgroupReply::Done(Ok(_))) => {
            CgroupState::EnableParent { max }
        },
        (CgroupState::EnableParent { max }, CgroupReply::Done(Ok(_))) => {
            CgroupState::Name { max }
        },
        (CgroupState::Name { max }, CgroupReply::Identity(Ok((pid, timestamp)))) => {
            CgroupState::CreateGroup { max, path: group_directory(cgroup_name(pid, timestamp)) }
        },
        (CgroupState::CreateGroup { max, path }, CgroupReply::Done(Ok(_))) => {
            CgroupState::WriteLimit { max, path }
        },
        (CgroupState::WriteLimit { path, .. }, CgroupReply::Done(Ok(_))) => {
            CgroupState::Created { cgroup: Some(path) }
        },
        (CgroupState::WriteLimit { path, .. }, CgroupReply::Done(Err(error))) => {
            CgroupState::RemoveGroup { path, error }
        },
        (CgroupState::RemoveGroup { error, .. }, CgroupReply::Removed) => {
            CgroupState::Failed { error }
        },
        (CgroupState::EnableRoot { .. }, CgroupReply::Done(Err(error))) => {
            CgroupState::Failed { error }
        },
        (CgroupState::CreateParent { .. }, CgroupReply::Done(Err(error))) => {
            CgroupState::Failed { error }
        },
        (CgroupState::EnableParent { .. }, CgroupReply::Done(Err(error))) => {
            CgroupState::Failed { error }
        },
        (CgroupState::Name { .. }, CgroupReply::Identity(Err(error))) => {
            CgroupState::Failed { error }
        },
        (CgroupState::CreateGroup { .. }, CgroupReply::Done(Err(error))) => {
            CgroupState::Failed { error }
        },
        _ => state,
    }
}

/// What to do next in order to create a cgroup.
#[derive(Debug)]
pub enum CgroupStep {
    EnableRoot(EnableRoot),
    CreateParent(CreateParent),
    EnableParent(EnableParent),
    Name(Name),
    CreateGroup(CreateGroup),
    WriteLimit(WriteLimit),
    RemoveGroup(RemoveGroup),
    Created(Option<Cgroup>),
    Failed(IoError),
}

/// The view of a cgroup that may not be there.
pub open spec fn cgroup_view(cgroup: Option<Cgroup>) -> Option<Seq<u8>> {
    match cgroup {
        Some(cgroup) => Some(cgroup@),
        None => None,
    }
}

impl View for CgroupStep {
    type V = CgroupState;

    open spec fn view(&self) -> CgroupState {
        match self {
            CgroupStep::EnableRoot(step) => step@,
            CgroupStep::CreateParent(step) => step@,
            CgroupStep::EnableParent(step) => step@,
            CgroupStep::Name(step) => step@,
            CgroupStep::CreateGroup(step) => step@,
            CgroupStep::WriteLimit(step) => step@,
            CgroupStep::RemoveGroup(step) => step@,
            CgroupStep::Created(cgroup) => CgroupState::Created { cgroup: cgroup_view(*cgroup) },
            CgroupStep::Failed(error) => CgroupState::Failed { error: error@ },
        }
    }
}

/// Enable the controller at the root of all cgroups.
#[derive(Debug)]
pub struct EnableRoot {
    pub max: u64,
}

impl View for EnableRoot {
    type V = CgroupState;

    open spec fn view(&self) -> CgroupState {
        CgroupState::EnableRoot { max: self.max }
    }
}

impl EnableRoot {
    /// The directory below which the controller `pids` is to be enabled.
    pub fn controller(&self) -> (step: ControllerStep)
        ensures
            step@ == (ControllerState::ReadAvailable {
                parent: path_of(CGROUP_ROOT@),
                controller: "pids"@,
            }),
    {
        enable_controller(&UnixPath::from_text(CGROUP_ROOT), "pids")
    }

    pub fn answered(self, enabled: Result<(), IoError>) -> (step: CgroupStep)
        ensures
            step@ == cgroup_next(self@, CgroupReply::Done(unit_result(enabled))),
    {
        match enabled {
            Ok(_) => CgroupStep::CreateParent(CreateParent { max: self.max }),
            Err(error) => CgroupStep::Failed(error),
        }
    }
}

/// The directory of all cgroups of the runtime.
fn groups_path() -> (path: UnixPath)
    ensures
        path@ == groups_directory(),
{
    UnixPath::from_text(CGROUP_ROOT).join(&UnixPath::from_text(MINICTR_CGROUP))
}

/// Create the directory of the runtime's cgroups, with all above it.
#[derive(Debug)]
pub struct CreateParent {
    pub max: u64,
}

impl View for CreateParent {
    type V = CgroupState;

    open spec fn view(&self) -> CgroupState {
        CgroupState::CreateParent { max: self.max }
    }
}

impl CreateParent {
    pub fn directory(&self) -> (path: UnixPath)
        ensures
            path@ == groups_directory(),
    {
        groups_path()
    }

    pub fn answered(self, created: Result<(), IoError>) -> (step: CgroupStep)
        ensures
            step@ == cgroup_next(self@, CgroupReply::Done(unit_result(created))),
    {
        match created {
            Ok(_) => CgroupStep::EnableParent(EnableParent { max: self.max }),
            Err(error) => CgroupStep::Failed(error),
        }
    }
}

/// Enable the controller in the directory of the runtime's cgroups.
#[derive(Debug)]
pub struct EnableParent {
    pub max: u64,
}

impl View for EnableParent {
    type V = CgroupState;

    open spec fn view(&self) -> CgroupState {
        CgroupState::EnableParent { max: self.max }
    }
}

impl EnableParent {
    /// The directory below which the controller `pids` is to be enabled.
    pub fn controller(&self) -> (step: ControllerStep)
        ensures
            step@ == (ControllerState::ReadAvailable {
                parent: groups_directory(),
                controller: "pids"@,
            }),
    {
        enable_controller(&groups_path(), "pids")
    }

    pub fn answered(self, enabled: Result<(), IoError>) -> (step: CgroupStep)
        ensures
            step@ == cgroup_next(self@, CgroupReply::Done(unit_result(enabled))),
    {
        match enabled {
            Ok(_) => CgroupStep::Name(Name { max: self.max }),
            Err(error) => CgroupStep::Failed(error),
        }
    }
}

/// What is the process number, and what is the time in nanoseconds?
#[derive(Debug)]
pub struct Name {
    pub max: u64,
}

impl View for Name {
    type V = CgroupState;

    open spec fn view(&self) -> CgroupState {
        CgroupState::Name { max: self.max }
    }
}

/// The view of a process number and a time.
pub open spec fn identity_result(identity: Result<(u32, u128), IoError>) -> Result<
    (nat, nat),
    IoErrorView,
> {
    match identity {
        Ok((pid, timestamp)) => Ok((pid as nat, timestamp as nat)),
        Err(error) => Err(error@),
    }
}

impl Name {
    pub fn answered(self, identity: Result<(u32, u128), IoError>) -> (step: CgroupStep)
        ensures
            step@ == cgroup_next(self@, CgroupReply::Identity(identity_result(identity))),
    {
        match identity {
            Ok((pid, timestamp)) => {
                let name = unique_name(pid, timestamp);
                let path = groups_path().join(&UnixPath::from_text(name.as_str()));
                CgroupStep::CreateGroup(CreateGroup { max: self.max, path })
            },
            Err(error) => CgroupStep::Failed(error),
        }
    }
}

/// Create the cgroup.
#[derive(Debug)]
pub struct CreateGroup {
    pub max: u64,
    pub path: UnixPath,
}

impl View for CreateGroup {
    type V = CgroupState;

    open spec fn view(&self) -> CgroupState {
        CgroupState::CreateGroup { max: self.max, path: self.path@ }
    }
}

impl CreateGroup {
    pub fn answered(self, created: Result<(), IoError>) -> (step: CgroupStep)
        ensures
            step@ == cgroup_next(self@, CgroupReply::Done(unit_result(created))),
    {
        match created {
            Ok(_) => CgroupStep::WriteLimit(WriteLimit { max: self.max, path: self.path }),
            Err(error) => CgroupStep::Failed(error),
        }
    }
}

/// Set the limit of the cgroup.
#[derive(Debug)]
pub struct WriteLimit {
    pub max: u64,
    pub path: UnixPath,
}

impl View for WriteLimit {
    type V = CgroupState;

    open spec fn view(&self) -> CgroupState {
        CgroupState::WriteLimit { max: self.max, path: self.path@ }
    }
}

impl WriteLimit {
    pub fn write(&self) -> (write: FileWrite)
        ensures
            write@ == limit_write(self.path@, self.max),
    {
        limit_file(&self.path, self.max)
    }

    pub fn answered(self, written: Result<(), IoError>) -> (step: CgroupStep)
        ensures
            step@ == cgroup_next(self@, CgroupReply::Done(unit_result(written))),
    {
        match written {
            Ok(_) => CgroupStep::Created(Some(Cgroup { path: self.path })),
            Err(error) => CgroupStep::RemoveGroup(RemoveGroup { path: self.path, error }),
        }
    }
}

/// Remove the cgroup again, whether that works or not.
#[derive(Debug)]
pub struct RemoveGroup {
    pub path: UnixPath,
    pub error: IoError,
}

impl View for RemoveGroup {
    type V = CgroupState;

    open spec fn view(&self) -> CgroupState {
        CgroupState::RemoveGroup { path: self.path@, error: self.error@ }
    }
}

impl RemoveGroup {
    pub fn done(self) -> (step: CgroupStep)
        ensures
            step@ == cgroup_next(self@, CgroupReply::Removed),
    {
        CgroupStep::Failed(self.error)
    }
}

/// The state after the given replies, one after the other.
pub open spec fn cgroup_after(start: CgroupState, replies: Seq<CgroupReply>) -> CgroupState
    decreases replies.len(),
{
    if replies.len() == 0 {
        start
    } else {
        cgroup_next(cgroup_after(start, replies.drop_last()), replies.last())
    }
}

/// Each state that was passed, with the reply that it met.
pub open spec fn cgroup_history(start: CgroupState, replies: Seq<CgroupReply>) -> Seq<
    (CgroupState, CgroupReply),
> {
    Seq::new(replies.len(), |k: int| (cgroup_after(start, replies.take(k)), replies[k]))
}

proof fn lemma_cgroup_history(start: CgroupState, replies: Seq<CgroupReply>)
    requires
        replies.len() > 0,
    ensures
        cgroup_history(start, replies) == cgroup_history(start, replies.drop_last()).push(
            (cgroup_after(start, replies.drop_last()), replies.last()),
        ),
{
    let earlier = replies.drop_last();
    assert(replies.take(replies.len() - 1) =~= earlier);
    assert forall|k: int| 0 <= k < earlier.len() implies replies.take(k) == earlier.take(k) by {
        assert(replies.take(k) =~= earlier.take(k));
    }
    assert(cgroup_history(start, replies) =~= cgroup_history(start, earlier).push(
        (cgroup_after(start, earlier), replies.last()),
    ));
}

/// Whether the cgroup directory has been created, as far as a state tells.
pub open spec fn has_directory(state: CgroupState, path: Seq<u8>) -> bool {
    match state {
        CgroupState::WriteLimit { path: p, .. } => p == path,
        CgroupState::RemoveGroup { path: p, .. } => p == path,
        CgroupState::Created { cgroup } => cgroup == Some(path),
        _ => false,
    }
}

/// Whether a step was the removal of a cgroup.
pub open spec fn is_removal(step: (CgroupState, CgroupReply), path: Seq<u8>) -> bool {
    &&& step.0 matches CgroupState::RemoveGroup { path: removed, .. }
    &&& removed == path
    &&& step.1 is Removed
}

/// Whether a cgroup was removed again.
pub open spec fn was_removed(history: Seq<(CgroupState, CgroupReply)>, path: Seq<u8>) -> bool {
    exists|k: int| 0 <= k < history.len() && is_removal(#[trigger] history[k], path)
}

proof fn lemma_cgroup_states(max: u64, replies: Seq<CgroupReply>, path: Seq<u8>)
    ensures
        ({
            let start = CgroupState::EnableRoot { max };
            let end = cgroup_after(start, replies);
            let history = cgroup_history(start, replies);
            let made = (CgroupState::CreateGroup { max, path }, CgroupReply::Done(Ok(())));
            let limited = (CgroupState::WriteLimit { max, path }, CgroupReply::Done(Ok(())));
            &&& end matches CgroupState::EnableRoot { max: m } ==> m == max
            &&& end matches CgroupState::CreateParent { max: m } ==> m == max
            &&& end matches CgroupState::EnableParent { max: m } ==> m == max
            &&& end matches CgroupState::Name { max: m } ==> m == max
            &&& end matches CgroupState::CreateGroup { max: m, .. } ==> m == max
            &&& end matches CgroupState::WriteLimit { max: m, .. } ==> m == max
            &&& end != (CgroupState::Created { cgroup: None })
            &&& end == (CgroupState::Created { cgroup: Some(path) }) ==> history.contains(limited)
            &&& history.contains(made) ==> has_directory(end, path) || was_removed(history, path)
        }),
    decreases replies.len(),
{
    let start = CgroupState::EnableRoot { max };
    let history = cgroup_history(start, replies);
    if replies.len() == 0 {
        assert(history.len() == 0);
    } else {
        let earlier = replies.drop_last();
        let before = cgroup_after(start, earlier);
        let met = (before, replies.last());
        let made = (CgroupState::CreateGroup { max, path }, CgroupReply::Done(Ok(())));
        lemma_cgroup_states(max, earlier, path);
        lemma_cgroup_history(start, replies);
        lemma_contains_after_push(cgroup_history(start, earlier), met);
        if before is WriteLimit {
            if let CgroupReply::Done(Ok(nothing)) = replies.last() {
                assert(nothing == ());
            }
        }
        if history.contains(made) && !has_directory(cgroup_after(start, replies), path) {
            if has_directory(before, path) {
                assert(history[replies.len() - 1] == met);
            } else if cgroup_history(start, earlier).contains(made) {
                let k = choose|k: int|
                    0 <= k < earlier.len() && is_removal(
                        #[trigger] cgroup_history(start, earlier)[k],
                        path,
                    );
                assert(is_removal(history[k], path));
            }
        }
    }
}

/// Where nothing is limited there is no cgroup, and nothing is done about one.
pub proof fn law_unlimited_runs_have_no_cgroup(
    resources: ResourceConfig,
    replies: Seq<CgroupReply>,
)
    requires
        resources.spec_is_empty(),
    ensures
        cgroup_after(cgroup_start(resources), replies) == (CgroupState::Created { cgroup: None }),
    decreases replies.len(),
{
    if replies.len() > 0 {
        law_unlimited_runs_have_no_cgroup(resources, replies.drop_last());
    }
}

/// There is a cgroup exactly where something is limited.
pub proof fn law_exactly_limited_runs_have_a_cgroup(
    resources: ResourceConfig,
    replies: Seq<CgroupReply>,
)
    ensures
        cgroup_after(cgroup_start(resources), replies) matches CgroupState::Created { cgroup } ==> (
        cgroup is Some <==> !resources.spec_is_empty()),
{
    match resources.pids {
        Some(pids) => {
            lemma_cgroup_states(pids.max, replies, Seq::empty());
        },
        None => {
            law_unlimited_runs_have_no_cgroup(resources, replies);
        },
    }
}

/// Where something is limited, a cgroup that is ready had its limit set.
pub proof fn law_a_ready_cgroup_has_its_limit(
    resources: ResourceConfig,
    replies: Seq<CgroupReply>,
)
    ensures
        resources.pids matches Some(pids) ==> (cgroup_after(
            cgroup_start(resources),
            replies,
        ) matches CgroupState::Created { cgroup } ==> {
            &&& cgroup matches Some(path)
            &&& cgroup_history(cgroup_start(resources), replies).contains(
                (
                    CgroupState::WriteLimit { max: pids.max, path },
                    CgroupReply::Done(Ok(())),
                ),
            )
        }),
{
    if let Some(pids) = resources.pids {
        if let CgroupState::Created { cgroup } = cgroup_after(cgroup_start(resources), replies) {
            lemma_cgroup_states(pids.max, replies, Seq::empty());
            let path = cgroup->0;
            lemma_cgroup_states(pids.max, replies, path);
        }
    }
}

/// A cgroup that was created but could not be limited is to be removed again, whether
/// that works or not, before the failure is reported.
pub proof fn law_a_failed_creation_leaves_no_cgroup(
    max: u64,
    replies: Seq<CgroupReply>,
    path: Seq<u8>,
)
    requires
        cgroup_after(CgroupState::EnableRoot { max }, replies) is Failed,
        cgroup_history(CgroupState::EnableRoot { max }, replies).contains(
            (CgroupState::CreateGroup { max, path }, CgroupReply::Done(Ok(()))),
        ),
    ensures
        was_removed(cgroup_history(CgroupState::EnableRoot { max }, replies), path),
{
    lemma_cgroup_states(max, replies, path);
}

/// The limit that is written is the one that is wanted, as a decimal number, and it goes
/// into the file `pids.max` directly in the directory of the cgroup.
pub proof fn law_the_limit_that_is_written_is_the_one_that_is_wanted(path: Seq<u8>, max: u64)
    ensures
        decimal_value(limit_write(path, max).contents) == max,
        forall|i: int|
            0 <= i < limit_write(path, max).contents.len() ==> '0' <= #[trigger] limit_write(
                path,
                max,
            ).contents[i] <= '9',
        limit_write(path, max).contents.len() > 1 ==> limit_write(path, max).contents[0] != '0',
        components(limit_write(path, max).path) == components(path).push(path_of("pids.max"@)),
{
    law_decimal_reads_back(max as nat);
    law_decimal_has_no_leading_zero(max as nat);
    reveal_strlit("pids.max");
    lemma_joined_name(path, "pids.max"@);
}

/// The process that joins a cgroup writes 0, which stands for itself, into the file
/// `cgroup.procs` directly in the directory of that cgroup.
pub proof fn law_the_process_joins_the_cgroup_itself(path: Seq<u8>)
    ensures
        join_write(path).contents == seq!['0'],
        components(join_write(path).path) == components(path).push(path_of("cgroup.procs"@)),
{
    reveal_strlit("cgroup.procs");
    reveal_strlit("0");
    assert(join_write(path).contents =~= seq!['0']);
    lemma_joined_name(path, "cgroup.procs"@);
}

/// A controller is enabled by its name after a plus sign, in the file
/// `cgroup.subtree_control` directly in the directory below which it is to be enabled.
pub proof fn law_a_controller_is_enabled_by_name(parent: Seq<u8>, controller: Seq<char>)
    ensures
        enabling_write(parent, controller).contents.len() == controller.len() + 1,
        enabling_write(parent, controller).contents[0] == '+',
        enabling_write(parent, controller).contents.skip(1) == controller,
        components(enabling_write(parent, controller).path) == components(parent).push(
            path_of("cgroup.subtree_control"@),
        ),
{
    reveal_strlit("+");
    reveal_strlit("cgroup.subtree_control");
    assert(enabling_write(parent, controller).contents.skip(1) =~= controller);
    lemma_joined_name(parent, "cgroup.subtree_control"@);
}

proof fn lemma_name_is_plain(pid: nat, timestamp: nat)
    ensures
        is_plain_name(cgroup_name(pid, timestamp)),
{
    reveal_strlit("runtime-");
    reveal_strlit("-");
    law_decimal_reads_back(pid);
    law_decimal_reads_back(timestamp);
    let name = cgroup_name(pid, timestamp);
    let (a, b) = (decimal(pid), decimal(timestamp));
    assert forall|i: int| 0 <= i < name.len() implies vstd::utf8::is_ascii_chars(
        seq![#[trigger] name[i]],
    ) && name[i] != '/' by {
        if i < 8 {
            assert(name[i] == "runtime-"@[i]);
        } else if i < 8 + a.len() {
            assert(name[i] == a[i - 8]);
        } else if i > 8 + a.len() {
            assert(name[i] == b[i - 9 - a.len()]);
        }
    }
}

/// The name of a cgroup tells the runtime's process number and the time, both whole, and
/// the cgroup stands under that name directly in the directory of the runtime's cgroups,
/// which stands as `minictr` directly below the root of all cgroups.
pub proof fn law_a_cgroup_stands_under_its_own_name(pid: nat, timestamp: nat)
    ensures
        ({
            let name = cgroup_name(pid, timestamp);
            let first = decimal(pid).len() as int;
            &&& name.take(8) == "runtime-"@
            &&& decimal_value(name.subrange(8, 8 + first)) == pid
            &&& name[8 + first] == '-'
            &&& decimal_value(name.skip(9 + first)) == timestamp
            &&& components(group_directory(name)) == components(path_of("/sys/fs/cgroup"@)) + seq![
                path_of("minictr"@),
                path_of(name),
            ]
        }),
{
    reveal_strlit("runtime-");
    reveal_strlit("-");
    reveal_strlit("minictr");
    let name = cgroup_name(pid, timestamp);
    let (a, b) = (decimal(pid), decimal(timestamp));
    law_decimal_reads_back(pid);
    law_decimal_reads_back(timestamp);
    assert(name.take(8) =~= "runtime-"@);
    assert(name.subrange(8, 8int + a.len()) =~= a);
    assert(name.skip(9int + a.len()) =~= b);
    lemma_name_is_plain(pid, timestamp);
    lemma_joined_name(path_of(CGROUP_ROOT@), MINICTR_CGROUP@);
    lemma_joined_name(groups_directory(), name);
    assert(components(group_directory(name)) =~= components(path_of(CGROUP_ROOT@)) + seq![
        path_of(MINICTR_CGROUP@),
        path_of(name),
    ]);
}

/// Whether a reply about a controller is this failure.
pub open spec fn is_controller_failure(reply: ControllerReply, error: IoErrorView) -> bool {
    match reply {
        ControllerReply::Text(Err(failure)) => failure == error,
        ControllerReply::Done(Err(failure)) => failure == error,
        _ => false,
    }
}

/// A controller that is available ends up enabled: at once where it is listed as enabled,
/// and by one write otherwise. One that is not available is refused, by name.
pub proof fn law_an_available_controller_ends_up_enabled(
    parent: Seq<u8>,
    controller: Seq<char>,
    available: Seq<char>,
    enabled: Seq<char>,
)
    ensures
        ({
            let start = ControllerState::ReadAvailable { parent, controller };
            let first = ControllerReply::Text(Ok(available));
            let second = ControllerReply::Text(Ok(enabled));
            let written = ControllerReply::Done(Ok(()));
            &&& has_word(available, controller) && has_word(enabled, controller)
                ==> controller_after(start, seq![first, second]) is Enabled
            &&& has_word(available, controller) && !has_word(enabled, controller) ==> {
                &&& controller_after(start, seq![first, second]) == (ControllerState::Enable {
                    write: enabling_write(parent, controller),
                })
                &&& controller_after(start, seq![first, second, written]) is Enabled
            }
            &&& !has_word(available, controller) ==> (controller_after(
                start,
                seq![first],
            ) matches ControllerState::Failed { error } && error.kind == ErrorKind::Unsupported
                && exists|front: Seq<char>, back: Seq<char>|
                error.message == #[trigger] (front + controller + back))
        }),
{
    let start = ControllerState::ReadAvailable { parent, controller };
    let first = ControllerReply::Text(Ok(available));
    let second = ControllerReply::Text(Ok(enabled));
    let written = ControllerReply::Done(Ok(()));
    reveal_with_fuel(controller_after, 4);
    assert(seq![first].drop_last() =~= Seq::<ControllerReply>::empty());
    assert(seq![first, second].drop_last() =~= seq![first]);
    assert(seq![first, second, written].drop_last() =~= seq![first, second]);
    if !has_word(available, controller) {
        assert(controller_after(start, seq![first])->error.message == "cgroup v2 "@ + controller
            + " controller is not available"@);
    }
}

/// Enabling a controller fails only with a failure that came back, or because the
/// controller is not among those that are available.
pub proof fn law_enabling_fails_only_for_a_reason(
    parent: Seq<u8>,
    controller: Seq<char>,
    replies: Seq<ControllerReply>,
)
    ensures
        controller_after(
            ControllerState::ReadAvailable { parent, controller },
            replies,
        ) matches ControllerState::Failed { error } ==> exists|k: int|
            0 <= k < replies.len() && {
                ||| is_controller_failure(#[trigger] replies[k], error)
                ||| replies[k] matches ControllerReply::Text(Ok(text)) && !has_word(
                    text,
                    controller,
                ) && error.kind == ErrorKind::Unsupported
            },
    decreases replies.len(),
{
    if replies.len() > 0 {
        let start = ControllerState::ReadAvailable { parent, controller };
        let earlier = replies.drop_last();
        law_enabling_fails_only_for_a_reason(parent, controller, earlier);
        lemma_controller_states(parent, controller, earlier);
        assert(replies[replies.len() - 1] == replies.last());
        assert(forall|k: int| 0 <= k < earlier.len() ==> #[trigger] earlier[k] == replies[k]);
        if let ControllerState::Failed { error } = controller_after(start, earlier) {
            let k = choose|k: int|
                0 <= k < earlier.len() && {
                    ||| is_controller_failure(#[trigger] earlier[k], error)
                    ||| earlier[k] matches ControllerReply::Text(Ok(text)) && !has_word(
                        text,
                        controller,
                    ) && error.kind == ErrorKind::Unsupported
                };
            assert(replies[k] == earlier[k]);
        }
    }
}

/// Whether a reply about a cgroup is this failure.
pub open spec fn is_cgroup_failure(reply: CgroupReply, error: IoErrorView) -> bool {
    match reply {
        CgroupReply::Done(Err(failure)) => failure == error,
        CgroupReply::Identity(Err(failure)) => failure == error,
        _ => false,
    }
}

/// Where nothing fails a limited run gets its cgroup: the controller is enabled at the root,
/// the directory of all cgroups is created and the controller enabled there, and then the
/// cgroup is created, under the name for the process number and the time that came back. The
/// limit that is set there is the configured one.
pub proof fn law_good_replies_create_the_cgroup(
    resources: ResourceConfig,
    max: u64,
    pid: nat,
    timestamp: nat,
)
    requires
        resources.pids == Some(PidsConfig { max }),
    ensures
        ({
            let done = CgroupReply::Done(Ok(()));
            let named = CgroupReply::Identity(Ok((pid, timestamp)));
            let path = group_directory(cgroup_name(pid, timestamp));
            &&& cgroup_start(resources) == (CgroupState::EnableRoot { max })
            &&& cgroup_after(cgroup_start(resources), seq![done]) == (CgroupState::CreateParent {
                max,
            })
            &&& cgroup_after(cgroup_start(resources), seq![done, done]) == (
            CgroupState::EnableParent { max })
            &&& cgroup_after(cgroup_start(resources), seq![done, done, done]) == (
            CgroupState::Name { max })
            &&& cgroup_after(cgroup_start(resources), seq![done, done, done, named]) == (
            CgroupState::CreateGroup { max, path })
            &&& cgroup_after(cgroup_start(resources), seq![done, done, done, named, done]) == (
            CgroupState::WriteLimit { max, path })
            &&& cgroup_after(
                cgroup_start(resources),
                seq![done, done, done, named, done, done],
            ) == (CgroupState::Created { cgroup: Some(path) })
        }),
{
    let done = CgroupReply::Done(Ok(()));
    let named = CgroupReply::Identity(Ok((pid, timestamp)));
    reveal_with_fuel(cgroup_after, 7);
    assert(seq![done].drop_last() =~= Seq::<CgroupReply>::empty());
    assert(seq![done, done].drop_last() =~= seq![done]);
    assert(seq![done, done, done].drop_last() =~= seq![done, done]);
    assert(seq![done, done, done, named].drop_last() =~= seq![done, done, done]);
    assert(seq![done, done, done, named, done].drop_last() =~= seq![done, done, done, named]);
    assert(seq![done, done, done, named, done, done].drop_last() =~= seq![
        done,
        done,
        done,
        named,
        done,
    ]);
}

/// Creating a cgroup fails only with a failure that came back, and a cgroup is removed
/// again only after one.
pub proof fn law_creating_fails_only_with_a_failure(
    resources: ResourceConfig,
    replies: Seq<CgroupReply>,
)
    ensures
        match cgroup_after(cgroup_start(resources), replies) {
            CgroupState::Failed { error } => exists|k: int|
                0 <= k < replies.len() && is_cgroup_failure(#[trigger] replies[k], error),
            CgroupState::RemoveGroup { error, .. } => exists|k: int|
                0 <= k < replies.len() && is_cgroup_failure(#[trigger] replies[k], error),
            _ => true,
        },
    decreases replies.len(),
{
    if replies.len() > 0 {
        let earlier = replies.drop_last();
        law_creating_fails_only_with_a_failure(resources, earlier);
        assert(replies[replies.len() - 1] == replies.last());
        assert(forall|k: int| 0 <= k < earlier.len() ==> #[trigger] earlier[k] == replies[k]);
    }
}

/// The available controllers are read from the file `cgroup.controllers` directly in the
/// directory below which one of them is to be enabled.
pub proof fn law_available_controllers_are_read_from_the_directory_itself(parent: Seq<u8>)
    ensures
        components(available_file(parent)) == components(parent).push(
            path_of("cgroup.controllers"@),
        ),
{
    reveal_strlit("cgroup.controllers");
    lemma_joined_name(parent, "cgroup.controllers"@);
}

/// The cgroup that is removed is the one that was created, the directory itself and nothing
/// above or below it.
pub proof fn law_what_is_removed_is_what_was_created(pid: nat, timestamp: nat, path: Seq<u8>)
    ensures
        directory_to_remove(path) == path,
        components(directory_to_remove(group_directory(cgroup_name(pid, timestamp))))
            == components(path_of("/sys/fs/cgroup"@)) + seq![
            path_of("minictr"@),
            path_of(cgroup_name(pid, timestamp)),
        ],
{
    law_a_cgroup_stands_under_its_own_name(pid, timestamp);
}

/// What came back about a cgroup is seen as it is.
pub proof fn law_cgroup_results_are_seen_as_they_are(
    identity: Result<(u32, u128), IoError>,
    cgroup: Option<Cgroup>,
)
    ensures
        identity matches Ok((pid, timestamp)) ==> identity_result(identity) == Ok::<
            (nat, nat),
            IoErrorView,
        >((pid as nat, timestamp as nat)),
        identity matches Err(error) ==> identity_result(identity) == Err::<
            (nat, nat),
            IoErrorView,
        >(error@),
        cgroup matches Some(group) ==> cgroup_view(cgroup) == Some(group.path@),
        cgroup is None ==> cgroup_view(cgroup) is None,
{
}

/// A cgroup that could not be created is not removed; one that was created and got no limit
/// is, and then the attempt fails with what kept it from its limit.
pub proof fn law_only_a_cgroup_that_was_created_is_removed_again(
    resources: ResourceConfig,
    pid: nat,
    timestamp: nat,
    error: IoErrorView,
)
    requires
        resources.pids is Some,
    ensures
        ({
            let start = cgroup_start(resources);
            let done = CgroupReply::Done(Ok(()));
            let refused = CgroupReply::Done(Err(error));
            let named = CgroupReply::Identity(Ok((pid, timestamp)));
            let path = group_directory(cgroup_name(pid, timestamp));
            &&& cgroup_after(start, seq![refused]) == (CgroupState::Failed { error })
            &&& cgroup_after(start, seq![done, refused]) == (CgroupState::Failed { error })
            &&& cgroup_after(start, seq![done, done, refused]) == (CgroupState::Failed { error })
            &&& cgroup_after(
                start,
                seq![done, done, done, CgroupReply::Identity(Err(error))],
            ) == (CgroupState::Failed { error })
            &&& cgroup_after(start, seq![done, done, done, named, refused]) == (
            CgroupState::Failed { error })
            &&& cgroup_after(start, seq![done, done, done, named, done, refused]) == (
            CgroupState::RemoveGroup { path, error })
            &&& cgroup_after(
                start,
                seq![done, done, done, named, done, refused, CgroupReply::Removed],
            ) == (CgroupState::Failed { error })
        }),
{
    let done = CgroupReply::Done(Ok(()));
    let refused = CgroupReply::Done(Err(error));
    let named = CgroupReply::Identity(Ok((pid, timestamp)));
    let unnamed = CgroupReply::Identity(Err(error));
    let created = seq![done, done, done, named, done];
    law_good_replies_create_the_cgroup(resources, resources.pids->0.max, pid, timestamp);
    reveal_with_fuel(cgroup_after, 2);
    assert(seq![refused].drop_last() =~= Seq::<CgroupReply>::empty());
    assert(seq![done, refused].drop_last() =~= seq![done]);
    assert(seq![done, done, refused].drop_last() =~= seq![done, done]);
    assert(seq![done, done, done, unnamed].drop_last() =~= seq![done, done, done]);
    assert(seq![done, done, done, named, refused].drop_last() =~= seq![done, done, done, named]);
    assert(seq![done, done, done, named, done, refused].drop_last() =~= created);
    assert(seq![done, done, done, named, done, refused, CgroupReply::Removed].drop_last() =~= seq![
        done,
        done,
        done,
        named,
        done,
        refused,
    ]);
}

} // verus!
