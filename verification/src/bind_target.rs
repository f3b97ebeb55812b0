//! The place in the container where something of the host is to appear.
//!
//! The place may have to be created, and links inside the root file system may lead
//! out of it. So the nearest existing ancestor of the place is resolved, links and
//! all, and held against the root file system: before anything is created, and once
//! more afterwards.

use crate::cli::{
    bind_mount_of, law_accepted_bind_mount, old_root_name, BindMount, BindMountView,
};
use crate::error::{path_result, reported, unit_result, ErrorKind, IoError, IoErrorView};
use crate::path::{
    components, is_absolute, is_within, joined, law_parent_drops_the_last_component,
    lemma_joined, lemma_named_part, named_part, names, parent_name, parent_of, UnixPath,
};
use crate::text::{
    display, ends_with, lemma_ends_with, lemma_tells, lossy_text, tells, text_of_two,
};
use vstd::prelude::*;

verus! {

/// What is mounted, and where: the target is the destination seen from the host.
#[derive(Debug)]
pub struct BindContext {
    pub rootfs: UnixPath,
    pub source: UnixPath,
    pub target: UnixPath,
}

#[verifier::ext_equal]
pub struct BindContextView {
    pub rootfs: Seq<u8>,
    pub source: Seq<u8>,
    pub target: Seq<u8>,
}

impl View for BindContext {
    type V = BindContextView;

    open spec fn view(&self) -> BindContextView {
        BindContextView { rootfs: self.rootfs@, source: self.source@, target: self.target@ }
    }
}

/// How far the place is prepared, and so what is done next. `placed` says whether
/// the place was created already.
pub enum BindState {
    /// Does `existing` exist?
    Probe { context: BindContextView, placed: bool, existing: Seq<u8> },
    /// Where does `existing` lead?
    Resolve { context: BindContextView, placed: bool, existing: Seq<u8> },
    /// Is the source a directory?
    QuerySource { context: BindContextView },
    /// Create the target as a directory, with all above it.
    CreateTarget { context: BindContextView },
    /// Create the directory above the target, with all above it.
    CreateParent { context: BindContextView, parent: Seq<u8> },
    /// Does the target exist?
    QueryTarget { context: BindContextView },
    /// Create the target as a file that was not there.
    CreateFile { context: BindContextView },
    /// The place is ready.
    Ready { target: Seq<u8> },
    Failed { error: IoErrorView },
}

/// What came back.
pub enum BindReply {
    Exists(bool),
    Resolved(Result<Seq<u8>, IoErrorView>),
    IsDirectory(bool),
    Done(Result<(), IoErrorView>),
}

/// The place for a destination, seen from the host.
pub open spec fn target_of(rootfs: Seq<u8>, destination: Seq<u8>) -> Seq<u8> {
    joined(rootfs, named_part(destination))
}

/// The context of a bind mount.
pub open spec fn context_of(rootfs: Seq<u8>, mount: BindMountView) -> BindContextView {
    BindContextView {
        rootfs,
        source: mount.source,
        target: target_of(rootfs, mount.destination),
    }
}

/// How preparing begins.
pub open spec fn bind_start(rootfs: Seq<u8>, mount: BindMountView) -> BindState {
    if is_absolute(mount.destination) {
        let context = context_of(rootfs, mount);
        BindState::Probe { context, placed: false, existing: context.target }
    } else {
        BindState::Failed {
            error: reported(ErrorKind::InvalidInput, "mount target is not absolute"@),
        }
    }
}

/// What follows a reply. A reply to another question changes nothing.
pub open spec fn bind_next(state: BindState, reply: BindReply) -> BindState {
    match (state, reply) {
        (BindState::Probe { context, placed, existing }, BindReply::Exists(true)) => {
            BindState::Resolve { context, placed, existing }
        },
        (BindState::Probe { context, placed, existing }, BindReply::Exists(false)) => {
            match parent_of(existing) {
                Some(parent) => BindState::Probe { context, placed, existing: parent },
                None => BindState::Failed {
                    error: reported(
                        ErrorKind::InvalidInput,
                        "mount target has no existing ancestor"@,
                    ),
                },
            }
        },
        (BindState::Resolve { context, placed, existing }, BindReply::Resolved(Ok(resolved))) => {
            if !is_within(resolved, context.rootfs) {
                BindState::Failed {
                    error: reported(
                        ErrorKind::InvalidInput,
                        "mount target resolves outside rootfs through "@ + lossy_text(existing),
                    ),
                }
            } else if placed {
                BindState::Ready { target: context.target }
            } else {
                BindState::QuerySource { context }
            }
        },
        (BindState::Resolve { .. }, BindReply::Resolved(Err(error))) => {
            BindState::Failed { error }
        },
        (BindState::QuerySource { context }, BindReply::IsDirectory(true)) => {
            BindState::CreateTarget { context }
        },
        (BindState::QuerySource { context }, BindReply::IsDirectory(false)) => {
            match parent_of(context.target) {
                Some(parent) => BindState::CreateParent { context, parent },
                None => BindState::Failed {
                    error: reported(ErrorKind::InvalidInput, "mount target has no parent"@),
                },
            }
        },
        (BindState::CreateTarget { context }, BindReply::Done(Ok(_))) => {
            BindState::Probe { context, placed: true, existing: context.target }
        },
        (BindState::CreateParent { context, .. }, BindReply::Done(Ok(_))) => {
            BindState::QueryTarget { context }
        },
        (BindState::QueryTarget { context }, BindReply::Exists(true)) => {
            BindState::Probe { context, placed: true, existing: context.target }
        },
        (BindState::QueryTarget { context }, BindReply::Exists(false)) => {
            BindState::CreateFile { context }
        },
        (BindState::CreateFile { context }, BindReply::Done(Ok(_))) => {
            BindState::Probe { context, placed: true, existing: context.target }
        },
        (BindState::CreateTarget { .. }, BindReply::Done(Err(error))) => {
            BindState::Failed { error }
        },
        (BindState::CreateParent { .. }, BindReply::Done(Err(error))) => {
            BindState::Failed { error }
        },
        (BindState::CreateFile { .. }, BindReply::Done(Err(error))) => {
            BindState::Failed { error }
        },
        _ => state,
    }
}

/// What to do next in order to prepare the place.
#[derive(Debug)]
pub enum BindStep {
    Probe(ProbeAncestor),
    Resolve(ResolveAncestor),
    QuerySource(QuerySource),
    CreateTarget(CreateTarget),
    CreateParent(CreateParent),
    QueryTarget(QueryTarget),
    CreateFile(CreateFile),
    Ready(UnixPath),
    Failed(IoError),
}

impl View for BindStep {
    type V = BindState;

    open spec fn view(&self) -> BindState {
        match self {
            BindStep::Probe(step) => step@,
            BindStep::Resolve(step) => step@,
            BindStep::QuerySource(step) => step@,
            BindStep::CreateTarget(step) => step@,
            BindStep::CreateParent(step) => step@,
            BindStep::QueryTarget(step) => step@,
            BindStep::CreateFile(step) => step@,
            BindStep::Ready(target) => BindState::Ready { target: target@ },
            BindStep::Failed(error) => BindState::Failed { error: error@ },
        }
    }
}

fn refused(message: &str) -> (step: BindStep)
    ensures
        step@ == (BindState::Failed { error: reported(ErrorKind::InvalidInput, message@) }),
{
    BindStep::Failed(IoError::new(ErrorKind::InvalidInput, message.to_owned()))
}

/// Begins to prepare the place of a bind mount.
pub fn prepare_bind_target(rootfs: &UnixPath, bind_mount: &BindMount) -> (step: BindStep)
    ensures
        step@ == bind_start(rootfs@, bind_mount@),
{
    match bind_mount.destination.strip_root() {
        Some(relative) => {
            let context = BindContext {
                rootfs: rootfs.clone(),
                source: bind_mount.source.clone(),
                target: rootfs.join(&relative),
            };
            ensure_existing_ancestor_is_in_rootfs(context, false)
        },
        None => refused("mount target is not absolute"),
    }
}

/// Begins to hold the nearest existing ancestor of the target, or the target
/// itself, against the root file system.
pub fn ensure_existing_ancestor_is_in_rootfs(context: BindContext, placed: bool) -> (step:
    BindStep)
    ensures
        step@ == (BindState::Probe { context: context@, placed, existing: context@.target }),
{
    let existing = context.target.clone();
    BindStep::Probe(ProbeAncestor { context, placed, existing })
}

/// Does `existing` exist?
#[derive(Debug)]
pub struct ProbeAncestor {
    pub context: BindContext,
    pub placed: bool,
    pub existing: UnixPath,
}

impl View for ProbeAncestor {
    type V = BindState;

    open spec fn view(&self) -> BindState {
        BindState::Probe {
            context: self.context@,
            placed: self.placed,
            existing: self.existing@,
        }
    }
}

impl ProbeAncestor {
    pub fn answered(self, exists: bool) -> (step: BindStep)
        ensures
            step@ == bind_next(self@, BindReply::Exists(exists)),
    {
        if exists {
            return BindStep::Resolve(
                ResolveAncestor {
                    context: self.context,
                    placed: self.placed,
                    existing: self.existing,
                },
            );
        }
        match self.existing.parent() {
            Some(parent) => BindStep::Probe(
                ProbeAncestor { context: self.context, placed: self.placed, existing: parent },
            ),
            None => refused("mount target has no existing ancestor"),
        }
    }
}

/// Where does `existing` lead, with every link followed?
#[derive(Debug)]
pub struct ResolveAncestor {
    pub context: BindContext,
    pub placed: bool,
    pub existing: UnixPath,
}

impl View for ResolveAncestor {
    type V = BindState;

    open spec fn view(&self) -> BindState {
        BindState::Resolve {
            context: self.context@,
            placed: self.placed,
            existing: self.existing@,
        }
    }
}

impl ResolveAncestor {
    pub fn answered(self, resolved: Result<UnixPath, IoError>) -> (step: BindStep)
        ensures
            step@ == bind_next(self@, BindReply::Resolved(path_result(resolved))),
    {
        let resolved = match resolved {
            Ok(resolved) => resolved,
            Err(error) => return BindStep::Failed(error),
        };
        if !resolved.starts_with(&self.context.rootfs) {
            let message = text_of_two(
                "mount target resolves outside rootfs through ",
                display(&self.existing).as_str(),
            );
            return BindStep::Failed(IoError::new(ErrorKind::InvalidInput, message));
        }
        if self.placed {
            BindStep::Ready(self.context.target)
        } else {
            BindStep::QuerySource(QuerySource { context: self.context })
        }
    }
}

/// Is the source a directory?
#[derive(Debug)]
pub struct QuerySource {
    pub context: BindContext,
}

impl View for QuerySource {
    type V = BindState;

    open spec fn view(&self) -> BindState {
        BindState::QuerySource { context: self.context@ }
    }
}

impl QuerySource {
    pub fn answered(self, is_directory: bool) -> (step: BindStep)
        ensures
            step@ == bind_next(self@, BindReply::IsDirectory(is_directory)),
    {
        if is_directory {
            return BindStep::CreateTarget(CreateTarget { context: self.context });
        }
        match self.context.target.parent() {
            Some(parent) => BindStep::CreateParent(
                CreateParent { context: self.context, parent },
            ),
            None => refused("mount target has no parent"),
        }
    }
}

/// Create the target as a directory, with all above it.
#[derive(Debug)]
pub struct CreateTarget {
    pub context: BindContext,
}

impl View for CreateTarget {
    type V = BindState;

    open spec fn view(&self) -> BindState {
        BindState::CreateTarget { context: self.context@ }
    }
}

impl CreateTarget {
    pub fn answered(self, created: Result<(), IoError>) -> (step: BindStep)
        ensures
            step@ == bind_next(self@, BindReply::Done(unit_result(created))),
    {
        match created {
            Ok(_) => ensure_existing_ancestor_is_in_rootfs(self.context, true),
            Err(error) => BindStep::Failed(error),
        }
    }
}

/// Create the directory above the target, with all above it.
#[derive(Debug)]
pub struct CreateParent {
    pub context: BindContext,
    pub parent: UnixPath,
}

impl View for CreateParent {
    type V = BindState;

    open spec fn view(&self) -> BindState {
        BindState::CreateParent { context: self.context@, parent: self.parent@ }
    }
}

impl CreateParent {
    pub fn answered(self, created: Result<(), IoError>) -> (step: BindStep)
        ensures
            step@ == bind_next(self@, BindReply::Done(unit_result(created))),
    {
        match created {
            Ok(_) => BindStep::QueryTarget(QueryTarget { context: self.context }),
            Err(error) => BindStep::Failed(error),
        }
    }
}

/// Does the target exist?
#[derive(Debug)]
pub struct QueryTarget {
    pub context: BindContext,
}

impl View for QueryTarget {
    type V = BindState;

    open spec fn view(&self) -> BindState {
        BindState::QueryTarget { context: self.context@ }
    }
}

impl QueryTarget {
    pub fn answered(self, exists: bool) -> (step: BindStep)
        ensures
            step@ == bind_next(self@, BindReply::Exists(exists)),
    {
        if exists {
            ensure_existing_ancestor_is_in_rootfs(self.context, true)
        } else {
            BindStep::CreateFile(CreateFile { context: self.context })
        }
    }
}

/// Create the target as a file that was not there.
#[derive(Debug)]
pub struct CreateFile {
    pub context: BindContext,
}

impl View for CreateFile {
    type V = BindState;

    open spec fn view(&self) -> BindState {
        BindState::CreateFile { context: self.context@ }
    }
}

impl CreateFile {
    pub fn answered(self, created: Result<(), IoError>) -> (step: BindStep)
        ensures
            step@ == bind_next(self@, BindReply::Done(unit_result(created))),
    {
        match created {
            Ok(_) => ensure_existing_ancestor_is_in_rootfs(self.context, true),
            Err(error) => BindStep::Failed(error),
        }
    }
}

/// The state after the given replies, one after the other.
pub open spec fn bind_after(start: BindState, replies: Seq<BindReply>) -> BindState
    decreases replies.len(),
{
    if replies.len() == 0 {
        start
    } else {
        bind_next(bind_after(start, replies.drop_last()), replies.last())
    }
}

/// Whether a reply in a state shows that an existing ancestor leads into the root
/// file system.
pub open spec fn shows_inside(
    state: BindState,
    reply: BindReply,
    rootfs: Seq<u8>,
    placed: bool,
) -> bool {
    &&& state matches BindState::Resolve { context: _, placed: when, existing: _ }
    &&& when == placed
    &&& reply matches BindReply::Resolved(Ok(resolved))
    &&& is_within(resolved, rootfs)
}

/// Whether some reply so far showed that an existing ancestor leads into the root
/// file system.
pub open spec fn was_shown_inside(
    start: BindState,
    replies: Seq<BindReply>,
    rootfs: Seq<u8>,
    placed: bool,
) -> bool {
    exists|k: int|
        #![trigger replies[k]]
        0 <= k < replies.len() && shows_inside(
            bind_after(start, replies.take(k)),
            replies[k],
            rootfs,
            placed,
        )
}

/// Whether something is created in a state, or the place is ready.
pub open spec fn creates_or_is_ready(state: BindState) -> bool {
    ||| state is CreateTarget
    ||| state is CreateParent
    ||| state is CreateFile
    ||| state is Ready
}

/// Whether a state comes only after the first check.
spec fn is_checked(state: BindState) -> bool {
    ||| creates_or_is_ready(state)
    ||| state is QuerySource
    ||| state is QueryTarget
    ||| state matches BindState::Probe { placed: true, .. }
    ||| state matches BindState::Resolve { placed: true, .. }
}

/// What every reachable state keeps: the context, and that only the target and what
/// is above it is looked at.
spec fn keeps_context(state: BindState, context: BindContextView) -> bool {
    match state {
        BindState::Probe { context: c, existing, .. } => c == context && is_within(
            context.target,
            existing,
        ),
        BindState::Resolve { context: c, existing, .. } => c == context && is_within(
            context.target,
            existing,
        ),
        BindState::QuerySource { context: c } => c == context,
        BindState::CreateTarget { context: c } => c == context,
        BindState::CreateParent { context: c, parent } => c == context && is_within(
            context.target,
            parent,
        ),
        BindState::QueryTarget { context: c } => c == context,
        BindState::CreateFile { context: c } => c == context,
        BindState::Ready { target } => target == context.target,
        BindState::Failed { .. } => true,
    }
}

proof fn lemma_is_within_itself(path: Seq<u8>)
    ensures
        is_within(path, path),
{
    assert(components(path).subrange(0, components(path).len() as int) =~= components(path));
}

proof fn lemma_is_within_parent(path: Seq<u8>, below: Seq<u8>)
    requires
        is_within(below, path),
    ensures
        parent_of(path) matches Some(parent) ==> is_within(below, parent),
{
    law_parent_drops_the_last_component(path);
    if let Some(parent) = parent_of(path) {
        let all = components(below);
        let some = components(path);
        assert(some =~= all.subrange(0, some.len() as int));
        assert(components(parent) =~= all.subrange(0, components(parent).len() as int));
    }
}

proof fn lemma_bind_step(state: BindState, reply: BindReply, context: BindContextView)
    requires
        keeps_context(state, context),
    ensures
        keeps_context(bind_next(state, reply), context),
        is_checked(bind_next(state, reply)) ==> is_checked(state) || shows_inside(
            state,
            reply,
            context.rootfs,
            false,
        ),
        bind_next(state, reply) is Ready ==> state is Ready || shows_inside(
            state,
            reply,
            context.rootfs,
            true,
        ),
{
    lemma_is_within_itself(context.target);
    lemma_is_within_parent(context.target, context.target);
    if let BindState::Probe { existing, .. } = state {
        lemma_is_within_parent(existing, context.target);
    }
}

proof fn lemma_shown_earlier(
    start: BindState,
    replies: Seq<BindReply>,
    rootfs: Seq<u8>,
    placed: bool,
)
    requires
        replies.len() > 0,
        was_shown_inside(start, replies.drop_last(), rootfs, placed) || shows_inside(
            bind_after(start, replies.drop_last()),
            replies.last(),
            rootfs,
            placed,
        ),
    ensures
        was_shown_inside(start, replies, rootfs, placed),
{
    let earlier = replies.drop_last();
    let last = replies.len() - 1;
    if was_shown_inside(start, earlier, rootfs, placed) {
        let k = choose|k: int|
            #![trigger earlier[k]]
            0 <= k < earlier.len() && shows_inside(
                bind_after(start, earlier.take(k)),
                earlier[k],
                rootfs,
                placed,
            );
        assert(replies.take(k) =~= earlier.take(k));
        assert(replies[k] == earlier[k]);
    } else {
        assert(replies.take(last) =~= earlier);
        assert(replies[last] == replies.last());
    }
}

proof fn lemma_bind_states(rootfs: Seq<u8>, mount: BindMountView, replies: Seq<BindReply>)
    ensures
        keeps_context(
            bind_after(bind_start(rootfs, mount), replies),
            context_of(rootfs, mount),
        ),
        is_checked(bind_after(bind_start(rootfs, mount), replies)) ==> was_shown_inside(
            bind_start(rootfs, mount),
            replies,
            rootfs,
            false,
        ),
        bind_after(bind_start(rootfs, mount), replies) is Ready ==> was_shown_inside(
            bind_start(rootfs, mount),
            replies,
            rootfs,
            true,
        ),
    decreases replies.len(),
{
    let start = bind_start(rootfs, mount);
    let context = context_of(rootfs, mount);
    if replies.len() == 0 {
        lemma_is_within_itself(context.target);
    } else {
        let before = bind_after(start, replies.drop_last());
        lemma_bind_states(rootfs, mount, replies.drop_last());
        lemma_bind_step(before, replies.last(), context);
        let after = bind_next(before, replies.last());
        if is_checked(after) {
            lemma_shown_earlier(start, replies, rootfs, false);
        }
        if after is Ready {
            lemma_shown_earlier(start, replies, rootfs, true);
        }
    }
}

/// Nothing is created for a bind mount, and no place is ready, before an existing
/// ancestor of the place was found to lead into the root file system. A place that
/// is ready was found to do so once more after it was created.
pub proof fn law_nothing_is_created_outside_the_rootfs(
    rootfs: Seq<u8>,
    mount: BindMountView,
    replies: Seq<BindReply>,
)
    ensures
        creates_or_is_ready(bind_after(bind_start(rootfs, mount), replies)) ==> was_shown_inside(
            bind_start(rootfs, mount),
            replies,
            rootfs,
            false,
        ),
        bind_after(bind_start(rootfs, mount), replies) is Ready ==> was_shown_inside(
            bind_start(rootfs, mount),
            replies,
            rootfs,
            true,
        ),
{
    lemma_bind_states(rootfs, mount, replies);
}

/// Only the place itself and what is above it is looked at, and a place that is
/// ready is the one that was asked for.
pub proof fn law_only_ancestors_are_looked_at(
    rootfs: Seq<u8>,
    mount: BindMountView,
    replies: Seq<BindReply>,
)
    ensures
        match bind_after(bind_start(rootfs, mount), replies) {
            BindState::Probe { existing, .. } => is_within(
                target_of(rootfs, mount.destination),
                existing,
            ),
            BindState::Resolve { existing, .. } => is_within(
                target_of(rootfs, mount.destination),
                existing,
            ),
            BindState::CreateParent { parent, .. } => is_within(
                target_of(rootfs, mount.destination),
                parent,
            ),
            BindState::Ready { target } => target == target_of(rootfs, mount.destination),
            _ => true,
        },
{
    lemma_bind_states(rootfs, mount, replies);
}

/// The search for an existing ancestor comes to an end: each path that is looked at
/// is shorter than the one before.
pub proof fn law_ancestor_search_ends(state: BindState)
    ensures
        state matches BindState::Probe { existing: path, .. } ==> (bind_next(
            state,
            BindReply::Exists(false),
        ) matches BindState::Probe { existing: next, .. } ==> next.len() < path.len()),
{
    if let BindState::Probe { existing, .. } = state {
        law_parent_drops_the_last_component(existing);
    }
}

/// The place of an accepted bind mount lies below the root file system, and is
/// neither the root file system itself nor in the directory for the old root. Its
/// components are those of the root file system and then those of the destination.
pub proof fn law_accepted_target_is_inside_rootfs(rootfs: Seq<u8>, value: Seq<u8>)
    ensures
        bind_mount_of(value) matches Ok(mount) ==> {
            let target = target_of(rootfs, mount.destination);
            &&& components(target) == components(rootfs) + names(mount.destination)
            &&& is_within(target, rootfs)
            &&& !is_within(rootfs, target)
            &&& !names(mount.destination).contains(parent_name())
            &&& !is_within(target, crate::rootfs::put_old(rootfs))
        },
{
    if let Ok(mount) = bind_mount_of(value) {
        let destination = mount.destination;
        let target = target_of(rootfs, destination);
        law_accepted_bind_mount(value);
        lemma_named_part(destination);
        lemma_joined(rootfs, named_part(destination));
        assert(components(target).subrange(0, components(rootfs).len() as int) =~= components(
            rootfs,
        ));
        crate::rootfs::lemma_put_old(rootfs);
        let reserved = crate::rootfs::put_old(rootfs);
        if is_within(target, reserved) {
            let at = components(rootfs).len() as int;
            assert(components(reserved)[at] == old_root_name());
            assert(components(target)[at] == names(destination)[0]);
        }
    }
}

/// An existing ancestor that leads into the root file system is never refused, whichever
/// ancestor it is: preparing goes on, or the place is ready if it was created already. One
/// that leads elsewhere is always refused, and named.
pub proof fn law_exactly_what_leads_out_of_the_rootfs_is_refused(
    context: BindContextView,
    placed: bool,
    existing: Seq<u8>,
    resolved: Seq<u8>,
)
    ensures
        ({
            let state = BindState::Resolve { context, placed, existing };
            let next = bind_next(state, BindReply::Resolved(Ok(resolved)));
            &&& is_within(resolved, context.rootfs) && !placed ==> next == (
            BindState::QuerySource { context })
            &&& is_within(resolved, context.rootfs) && placed ==> next == (BindState::Ready {
                target: context.target,
            })
            &&& !is_within(resolved, context.rootfs) ==> (next matches BindState::Failed { error }
                && error.kind == ErrorKind::InvalidInput && ends_with(
                error.message,
                lossy_text(existing),
            ))
        }),
{
    lemma_ends_with("mount target resolves outside rootfs through "@, lossy_text(existing));
}

/// Whether a reply in a state is a reason to give up with this failure: the system failed
/// so, what exists leads out of the root file system, or there is nothing above the path
/// that was looked at or above the target.
pub open spec fn is_bind_reason(
    state: BindState,
    reply: BindReply,
    rootfs: Seq<u8>,
    error: IoErrorView,
) -> bool {
    match reply {
        BindReply::Resolved(Err(failure)) => failure == error,
        BindReply::Done(Err(failure)) => failure == error,
        BindReply::Resolved(Ok(resolved)) => !is_within(resolved, rootfs) && error.kind
            == ErrorKind::InvalidInput,
        BindReply::Exists(false) => (state matches BindState::Probe { existing, .. } && parent_of(
            existing,
        ) is None) && error.kind == ErrorKind::InvalidInput,
        BindReply::IsDirectory(false) => (state matches BindState::QuerySource { context }
            && parent_of(context.target) is None) && error.kind == ErrorKind::InvalidInput,
        _ => false,
    }
}

/// Whether some reply so far was a reason to give up with this failure.
pub open spec fn had_bind_reason(
    start: BindState,
    replies: Seq<BindReply>,
    rootfs: Seq<u8>,
    error: IoErrorView,
) -> bool {
    exists|k: int|
        #![trigger replies[k]]
        0 <= k < replies.len() && is_bind_reason(
            bind_after(start, replies.take(k)),
            replies[k],
            rootfs,
            error,
        )
}

proof fn lemma_bind_reason_step(state: BindState, reply: BindReply, context: BindContextView)
    requires
        keeps_context(state, context),
        !(state is Failed),
    ensures
        bind_next(state, reply) matches BindState::Failed { error } ==> is_bind_reason(
            state,
            reply,
            context.rootfs,
            error,
        ),
{
}

proof fn lemma_had_bind_reason(
    start: BindState,
    replies: Seq<BindReply>,
    rootfs: Seq<u8>,
    error: IoErrorView,
)
    requires
        replies.len() > 0,
        had_bind_reason(start, replies.drop_last(), rootfs, error) || is_bind_reason(
            bind_after(start, replies.drop_last()),
            replies.last(),
            rootfs,
            error,
        ),
    ensures
        had_bind_reason(start, replies, rootfs, error),
{
    let earlier = replies.drop_last();
    let last = replies.len() - 1;
    if had_bind_reason(start, earlier, rootfs, error) {
        let k = choose|k: int|
            #![trigger earlier[k]]
            0 <= k < earlier.len() && is_bind_reason(
                bind_after(start, earlier.take(k)),
                earlier[k],
                rootfs,
                error,
            );
        assert(replies.take(k) =~= earlier.take(k));
        assert(replies[k] == earlier[k]);
    } else {
        assert(replies.take(last) =~= earlier);
        assert(replies[last] == replies.last());
    }
}

/// Preparing the place of an absolute destination fails only because some reply was a
/// reason to.
pub proof fn law_preparing_fails_only_for_a_reason(
    rootfs: Seq<u8>,
    mount: BindMountView,
    replies: Seq<BindReply>,
)
    requires
        is_absolute(mount.destination),
    ensures
        bind_after(bind_start(rootfs, mount), replies) matches BindState::Failed { error }
            ==> had_bind_reason(bind_start(rootfs, mount), replies, rootfs, error),
    decreases replies.len(),
{
    if replies.len() > 0 {
        let start = bind_start(rootfs, mount);
        let before = bind_after(start, replies.drop_last());
        law_preparing_fails_only_for_a_reason(rootfs, mount, replies.drop_last());
        lemma_bind_states(rootfs, mount, replies.drop_last());
        if let BindState::Failed { error } = bind_after(start, replies) {
            if !(before is Failed) {
                lemma_bind_reason_step(before, replies.last(), context_of(rootfs, mount));
            }
            lemma_had_bind_reason(start, replies, rootfs, error);
        }
    }
}

/// The path that is so many steps above another, if there is one.
pub open spec fn ancestor(path: Seq<u8>, steps: nat) -> Option<Seq<u8>>
    decreases steps,
{
    if steps == 0 {
        Some(path)
    } else {
        match ancestor(path, (steps - 1) as nat) {
            Some(below) => parent_of(below),
            None => None,
        }
    }
}

/// The replies of a search that finds nothing so many times and then something, which leads
/// to the given path.
pub open spec fn search(missing: nat, resolved: Seq<u8>) -> Seq<BindReply> {
    Seq::new(missing, |i: int| BindReply::Exists(false)) + seq![
        BindReply::Exists(true),
        BindReply::Resolved(Ok(resolved)),
    ]
}

proof fn lemma_bind_after_concat(start: BindState, first: Seq<BindReply>, second: Seq<BindReply>)
    ensures
        bind_after(start, first + second) == bind_after(bind_after(start, first), second),
    decreases second.len(),
{
    if second.len() == 0 {
        assert(first + second =~= first);
    } else {
        assert((first + second).drop_last() =~= first + second.drop_last());
        lemma_bind_after_concat(start, first, second.drop_last());
    }
}

proof fn lemma_bind_after_one(state: BindState, reply: BindReply)
    ensures
        bind_after(state, seq![reply]) == bind_next(state, reply),
{
    assert(seq![reply].drop_last() =~= Seq::<BindReply>::empty());
    reveal_with_fuel(bind_after, 2);
}

proof fn lemma_missing(context: BindContextView, placed: bool, missing: nat)
    requires
        ancestor(context.target, missing) is Some,
    ensures
        bind_after(
            BindState::Probe { context, placed, existing: context.target },
            Seq::new(missing, |i: int| BindReply::Exists(false)),
        ) == (BindState::Probe {
            context,
            placed,
            existing: ancestor(context.target, missing)->0,
        }),
    decreases missing,
{
    let replies = Seq::new(missing, |i: int| BindReply::Exists(false));
    if missing > 0 {
        let fewer = (missing - 1) as nat;
        assert(replies.drop_last() =~= Seq::new(fewer, |i: int| BindReply::Exists(false)));
        lemma_missing(context, placed, fewer);
    }
}

proof fn lemma_search(context: BindContextView, placed: bool, missing: nat, resolved: Seq<u8>)
    requires
        ancestor(context.target, missing) is Some,
        is_within(resolved, context.rootfs),
    ensures
        bind_after(
            BindState::Probe { context, placed, existing: context.target },
            search(missing, resolved),
        ) == if placed {
            BindState::Ready { target: context.target }
        } else {
            BindState::QuerySource { context }
        },
{
    let start = BindState::Probe { context, placed, existing: context.target };
    let none = Seq::new(missing, |i: int| BindReply::Exists(false));
    let found = seq![BindReply::Exists(true)];
    let leads = seq![BindReply::Resolved(Ok(resolved))];
    lemma_missing(context, placed, missing);
    assert(search(missing, resolved) =~= none + found + leads);
    lemma_bind_after_concat(start, none, found);
    lemma_bind_after_concat(start, none + found, leads);
    lemma_bind_after_one(bind_after(start, none), BindReply::Exists(true));
    lemma_bind_after_one(
        bind_after(start, none + found),
        BindReply::Resolved(Ok(resolved)),
    );
}

/// The replies about a place that is created without failure: as a directory, or as a file
/// below its directory, unless that file is there already.
pub open spec fn creation(source_is_dir: bool, target_exists: bool) -> Seq<BindReply> {
    if source_is_dir {
        seq![BindReply::IsDirectory(true), BindReply::Done(Ok(()))]
    } else if target_exists {
        seq![BindReply::IsDirectory(false), BindReply::Done(Ok(())), BindReply::Exists(true)]
    } else {
        seq![
            BindReply::IsDirectory(false),
            BindReply::Done(Ok(())),
            BindReply::Exists(false),
            BindReply::Done(Ok(())),
        ]
    }
}

proof fn lemma_creation(context: BindContextView, source_is_dir: bool, target_exists: bool)
    requires
        source_is_dir || parent_of(context.target) is Some,
    ensures
        bind_after(
            BindState::QuerySource { context },
            creation(source_is_dir, target_exists),
        ) == (BindState::Probe { context, placed: true, existing: context.target }),
{
    let start = BindState::QuerySource { context };
    let kind = BindReply::IsDirectory(source_is_dir);
    let done = BindReply::Done(Ok(()));
    let there = BindReply::Exists(target_exists);
    lemma_bind_after_one(start, kind);
    lemma_bind_after_concat(start, seq![kind], seq![done]);
    lemma_bind_after_one(bind_next(start, kind), done);
    assert(seq![kind] + seq![done] =~= seq![kind, done]);
    if !source_is_dir {
        let made = bind_after(start, seq![kind, done]);
        lemma_bind_after_concat(start, seq![kind, done], seq![there]);
        lemma_bind_after_one(made, there);
        assert(seq![kind, done] + seq![there] =~= seq![kind, done, there]);
        if !target_exists {
            let asked = bind_after(start, seq![kind, done, there]);
            lemma_bind_after_concat(start, seq![kind, done, there], seq![done]);
            lemma_bind_after_one(asked, done);
            assert(seq![kind, done, there] + seq![done] =~= seq![kind, done, there, done]);
        }
    }
}

/// Where nothing fails the place is made ready: if some ancestor of the target exists, near
/// or far, and leads into the root file system before and after the place is created, then
/// the place of an absolute destination is ready, whether the source is a directory or not
/// and whether its file was there or not.
pub proof fn law_good_replies_make_the_place_ready(
    rootfs: Seq<u8>,
    mount: BindMountView,
    missing: nat,
    resolved: Seq<u8>,
    source_is_dir: bool,
    target_exists: bool,
    missing_later: nat,
    resolved_later: Seq<u8>,
)
    requires
        is_absolute(mount.destination),
        ancestor(target_of(rootfs, mount.destination), missing) is Some,
        ancestor(target_of(rootfs, mount.destination), missing_later) is Some,
        source_is_dir || parent_of(target_of(rootfs, mount.destination)) is Some,
        is_within(resolved, rootfs),
        is_within(resolved_later, rootfs),
    ensures
        bind_after(
            bind_start(rootfs, mount),
            search(missing, resolved) + creation(source_is_dir, target_exists) + search(
                missing_later,
                resolved_later,
            ),
        ) == (BindState::Ready { target: target_of(rootfs, mount.destination) }),
{
    let context = context_of(rootfs, mount);
    let start = bind_start(rootfs, mount);
    let first = search(missing, resolved);
    let second = creation(source_is_dir, target_exists);
    let third = search(missing_later, resolved_later);
    lemma_search(context, false, missing, resolved);
    lemma_creation(context, source_is_dir, target_exists);
    lemma_search(context, true, missing_later, resolved_later);
    lemma_bind_after_concat(start, first, second);
    lemma_bind_after_concat(start, first + second, third);
}

/// What is created is the target as a directory exactly where the source is one, and
/// otherwise the target as a file and the directory directly above it; the source that is
/// asked about is that of the bind mount.
pub proof fn law_only_the_target_and_what_is_above_it_is_created(
    rootfs: Seq<u8>,
    mount: BindMountView,
    replies: Seq<BindReply>,
)
    ensures
        ({
            let context = BindContextView {
                rootfs,
                source: mount.source,
                target: target_of(rootfs, mount.destination),
            };
            match bind_after(bind_start(rootfs, mount), replies) {
                BindState::QuerySource { context: c } => {
                    &&& c == context
                    &&& bind_next(
                        BindState::QuerySource { context: c },
                        BindReply::IsDirectory(true),
                    ) == (BindState::CreateTarget { context })
                    &&& bind_next(
                        BindState::QuerySource { context: c },
                        BindReply::IsDirectory(false),
                    ) matches BindState::CreateParent { context: above, parent } ==> above
                        == context && Some(parent) == parent_of(context.target)
                },
                BindState::CreateTarget { context: c } => c == context,
                BindState::CreateParent { context: c, .. } => c == context,
                BindState::QueryTarget { context: c } => c == context,
                BindState::CreateFile { context: c } => c == context,
                _ => true,
            }
        }),
{
    lemma_bind_states(rootfs, mount, replies);
}

/// A destination is looked for below the root file system exactly if it is absolute; any
/// other is refused as invalid input.
pub proof fn law_only_absolute_destinations_have_a_place(rootfs: Seq<u8>, mount: BindMountView)
    ensures
        mount.destination.len() > 0 && mount.destination[0] == 0x2f <==> bind_start(
            rootfs,
            mount,
        ) is Probe,
        !(bind_start(rootfs, mount) is Probe) ==> (bind_start(
            rootfs,
            mount,
        ) matches BindState::Failed { error } && error.kind == ErrorKind::InvalidInput),
{
}

/// A place that cannot be prepared is told why: nothing above it exists, there is nothing
/// above it where a file could be created, or its destination is not absolute.
pub proof fn law_what_a_place_lacks_is_told(
    context: BindContextView,
    placed: bool,
    existing: Seq<u8>,
    rootfs: Seq<u8>,
    mount: BindMountView,
)
    ensures
        parent_of(existing) is None ==> (bind_next(
            BindState::Probe { context, placed, existing },
            BindReply::Exists(false),
        ) matches BindState::Failed { error } && error.kind == ErrorKind::InvalidInput && tells(
            error.message,
            "no existing ancestor"@,
        )),
        parent_of(context.target) is None ==> (bind_next(
            BindState::QuerySource { context },
            BindReply::IsDirectory(false),
        ) matches BindState::Failed { error } && error.kind == ErrorKind::InvalidInput && tells(
            error.message,
            "no parent"@,
        )),
        !is_absolute(mount.destination) ==> (bind_start(
            rootfs,
            mount,
        ) matches BindState::Failed { error } && error.kind == ErrorKind::InvalidInput && tells(
            error.message,
            "not absolute"@,
        )),
{
    reveal_strlit("mount target has no existing ancestor");
    reveal_strlit("no existing ancestor");
    lemma_tells("mount target has no existing ancestor"@, "no existing ancestor"@, 17);
    reveal_strlit("mount target has no parent");
    reveal_strlit("no parent");
    lemma_tells("mount target has no parent"@, "no parent"@, 17);
    reveal_strlit("mount target is not absolute");
    reveal_strlit("not absolute");
    lemma_tells("mount target is not absolute"@, "not absolute"@, 16);
}

} // verus!
