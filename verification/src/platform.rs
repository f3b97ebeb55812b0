//! What the runtime has from the `nix` crate: flag sets, signal sets and the
//! numbers of signals and system errors.
//!
//! Every contract here is believed, not proved. A set of flags is spoken of as
//! the set of the flags' values, a set of signals as the set of their numbers.

use nix::errno::Errno;
use nix::mount::{MntFlags, MsFlags};
use nix::sched::CloneFlags;
use nix::sys::signal::{SigSet, Signal};
use vstd::prelude::*;

verus! {

/// Flags of `clone(2)`.
#[verifier::external_type_specification]
#[verifier::external_body]
pub struct ExCloneFlags(nix::sched::CloneFlags);

/// Flags of `mount(2)`.
#[verifier::external_type_specification]
#[verifier::external_body]
pub struct ExMsFlags(nix::mount::MsFlags);

/// Flags of `umount2(2)`.
#[verifier::external_type_specification]
#[verifier::external_body]
pub struct ExMntFlags(nix::mount::MntFlags);

/// A set of signals.
#[verifier::external_type_specification]
#[verifier::external_body]
pub struct ExSigSet(nix::sys::signal::SigSet);

/// What is done when a signal arrives, as the system gave it.
#[verifier::external_type_specification]
#[verifier::external_body]
pub struct ExSigAction(nix::sys::signal::SigAction);

/// The values of the flags in a set of clone flags.
pub uninterp spec fn clone_flag_set(flags: nix::sched::CloneFlags) -> Set<int>;

/// The values of the flags in a set of mount flags.
pub uninterp spec fn mount_flag_set(flags: nix::mount::MsFlags) -> Set<int>;

/// The values of the flags in a set of unmount flags.
pub uninterp spec fn unmount_flag_set(flags: nix::mount::MntFlags) -> Set<int>;

/// The numbers of the signals in a set of signals.
pub uninterp spec fn signal_set(signals: nix::sys::signal::SigSet) -> Set<int>;

/// The value of the clone flag for a new UTS namespace.
pub open spec fn new_uts_flag() -> int {
    0x0400_0000
}

/// The value of the clone flag for a new PID namespace.
pub open spec fn new_pid_flag() -> int {
    0x2000_0000
}

/// The value of the clone flag for a new mount namespace.
pub open spec fn new_mount_flag() -> int {
    0x0002_0000
}

/// The value of the mount flag for a bind mount.
pub open spec fn bind_flag() -> int {
    0x1000
}

/// The value of the mount flag for a recursive operation.
pub open spec fn recursive_flag() -> int {
    0x4000
}

/// The value of the mount flag that makes a mount private.
pub open spec fn private_flag() -> int {
    0x0004_0000
}

/// The value of the mount flag that ignores set-user-ID bits.
pub open spec fn no_suid_flag() -> int {
    0x2
}

/// The value of the mount flag that forbids device files.
pub open spec fn no_devices_flag() -> int {
    0x4
}

/// The value of the mount flag that forbids execution.
pub open spec fn no_exec_flag() -> int {
    0x8
}

/// The value of the unmount flag for a lazy unmount.
pub open spec fn detach_flag() -> int {
    0x2
}

/// `CloneFlags::CLONE_NEWUTS`: the flag for a new UTS namespace alone.
#[verifier::external_body]
pub(crate) fn clone_newuts() -> (flag: CloneFlags)
    ensures
        clone_flag_set(flag) == set![new_uts_flag()],
{
    CloneFlags::CLONE_NEWUTS
}

/// `CloneFlags::CLONE_NEWPID`: the flag for a new PID namespace alone.
#[verifier::external_body]
pub(crate) fn clone_newpid() -> (flag: CloneFlags)
    ensures
        clone_flag_set(flag) == set![new_pid_flag()],
{
    CloneFlags::CLONE_NEWPID
}

/// `CloneFlags::CLONE_NEWNS`: the flag for a new mount namespace alone.
#[verifier::external_body]
pub(crate) fn clone_newns() -> (flag: CloneFlags)
    ensures
        clone_flag_set(flag) == set![new_mount_flag()],
{
    CloneFlags::CLONE_NEWNS
}

/// The operator `|` on `CloneFlags`: the flags of either side.
#[verifier::external_body]
pub(crate) fn clone_flags_union(left: CloneFlags, right: CloneFlags) -> (both: CloneFlags)
    ensures
        clone_flag_set(both) == clone_flag_set(left).union(clone_flag_set(right)),
{
    left | right
}

/// `MsFlags::MS_BIND`: the flag for a bind mount alone.
#[verifier::external_body]
pub(crate) fn ms_bind() -> (flag: MsFlags)
    ensures
        mount_flag_set(flag) == set![bind_flag()],
{
    MsFlags::MS_BIND
}

/// `MsFlags::MS_REC`: the flag for a recursive operation alone.
#[verifier::external_body]
pub(crate) fn ms_rec() -> (flag: MsFlags)
    ensures
        mount_flag_set(flag) == set![recursive_flag()],
{
    MsFlags::MS_REC
}

/// `MsFlags::MS_PRIVATE`: the flag that makes a mount private, alone.
#[verifier::external_body]
pub(crate) fn ms_private() -> (flag: MsFlags)
    ensures
        mount_flag_set(flag) == set![private_flag()],
{
    MsFlags::MS_PRIVATE
}

/// `MsFlags::MS_NOSUID`: the flag that ignores set-user-ID bits, alone.
#[verifier::external_body]
pub(crate) fn ms_nosuid() -> (flag: MsFlags)
    ensures
        mount_flag_set(flag) == set![no_suid_flag()],
{
    MsFlags::MS_NOSUID
}

/// `MsFlags::MS_NODEV`: the flag that forbids device files, alone.
#[verifier::external_body]
pub(crate) fn ms_nodev() -> (flag: MsFlags)
    ensures
        mount_flag_set(flag) == set![no_devices_flag()],
{
    MsFlags::MS_NODEV
}

/// `MsFlags::MS_NOEXEC`: the flag that forbids execution, alone.
#[verifier::external_body]
pub(crate) fn ms_noexec() -> (flag: MsFlags)
    ensures
        mount_flag_set(flag) == set![no_exec_flag()],
{
    MsFlags::MS_NOEXEC
}

/// The operator `|` on `MsFlags`: the flags of either side.
#[verifier::external_body]
pub(crate) fn ms_flags_union(left: MsFlags, right: MsFlags) -> (both: MsFlags)
    ensures
        mount_flag_set(both) == mount_flag_set(left).union(mount_flag_set(right)),
{
    left | right
}

/// `MntFlags::MNT_DETACH`: the flag for a lazy unmount alone.
#[verifier::external_body]
pub(crate) fn mnt_detach() -> (flag: MntFlags)
    ensures
        unmount_flag_set(flag) == set![detach_flag()],
{
    MntFlags::MNT_DETACH
}

/// `SigSet::empty`: a set with no signal in it.
#[verifier::external_body]
pub(crate) fn sigset_empty() -> (signals: SigSet)
    ensures
        signal_set(signals) == Set::<int>::empty(),
{
    SigSet::empty()
}

/// `SigSet::add`: puts one signal into a set. It is asked for SIGHUP, SIGINT,
/// SIGQUIT and SIGTERM only, whose numbers are the same on every Linux machine.
#[verifier::external_body]
pub(crate) fn sigset_add(signals: &mut SigSet, number: i32)
    requires
        number == 1 || number == 2 || number == 3 || number == 15,
    ensures
        signal_set(*final(signals)) == signal_set(*old(signals)).insert(number as int),
{
    if let Ok(signal) = Signal::try_from(number) {
        signals.add(signal);
    }
}

/// The number of `Signal::SIGHUP`.
#[verifier::external_body]
pub(crate) fn sighup() -> (number: i32)
    ensures
        number == 1,
{
    Signal::SIGHUP as i32
}

/// The number of `Signal::SIGINT`.
#[verifier::external_body]
pub(crate) fn sigint() -> (number: i32)
    ensures
        number == 2,
{
    Signal::SIGINT as i32
}

/// The number of `Signal::SIGQUIT`.
#[verifier::external_body]
pub(crate) fn sigquit() -> (number: i32)
    ensures
        number == 3,
{
    Signal::SIGQUIT as i32
}

/// The number of `Signal::SIGTERM`.
#[verifier::external_body]
pub(crate) fn sigterm() -> (number: i32)
    ensures
        number == 15,
{
    Signal::SIGTERM as i32
}

/// The number of `Signal::SIGKILL`.
#[verifier::external_body]
pub(crate) fn sigkill() -> (number: i32)
    ensures
        number == 9,
{
    Signal::SIGKILL as i32
}

/// The number of `Signal::SIGCHLD`, which depends on the architecture: 18 on
/// MIPS, 20 on SPARC and 17 elsewhere.
#[verifier::external_body]
pub(crate) fn sigchld() -> (number: i32)
    ensures
        number == 17 || number == 18 || number == 20,
{
    Signal::SIGCHLD as i32
}

/// The number of `Errno::ENOENT`: no such file or directory.
#[verifier::external_body]
pub(crate) fn enoent() -> (number: i32)
    ensures
        number == 2,
{
    Errno::ENOENT as i32
}

/// The number of `Errno::ESRCH`: no such process.
#[verifier::external_body]
pub(crate) fn esrch() -> (number: i32)
    ensures
        number == 3,
{
    Errno::ESRCH as i32
}

/// The number of `Errno::EINTR`: interrupted by a signal.
#[verifier::external_body]
pub(crate) fn eintr() -> (number: i32)
    ensures
        number == 4,
{
    Errno::EINTR as i32
}

/// The number of `Errno::ECHILD`: no child processes.
#[verifier::external_body]
pub(crate) fn echild() -> (number: i32)
    ensures
        number == 10,
{
    Errno::ECHILD as i32
}

/// The number of `Errno::EACCES`: permission denied.
#[verifier::external_body]
pub(crate) fn eacces() -> (number: i32)
    ensures
        number == 13,
{
    Errno::EACCES as i32
}

} // verus!
