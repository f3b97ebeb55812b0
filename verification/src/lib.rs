//! The decisions of a small container runtime for Linux.
//!
//! The library performs nothing itself. It says what to do next, as a step; whoever
//! performs the step hands back what came of it, and the library says what follows.
//! Each kind of step has a mathematical state as its view, and a function from states
//! and replies to states says exactly what follows a reply. The proof functions whose
//! names begin with `law_` say what holds of all replies that may ever come.
//!
//! - [`host`]: a run on the host, from the command line to the exit status.
//! - [`container`]: how the container's first process sets the container up.
//! - [`workload`]: how the command is started and, under an init, looked after.
//! - [`process`]: the ends of processes, statuses, and the forwarding of signals.
//! - [`rootfs`] and [`bind_target`]: what is mounted where.
//! - [`cgroup`]: the cgroup that limits a container.
//! - [`cli`] and [`config`]: what a run is asked for, and its resource policy.
//! - [`path`], [`text`], [`error`]: paths, messages and failures.
//! - [`platform`]: what is taken from the `nix` crate, with the contracts that are
//!   believed of it.

pub mod bind_target;
pub mod cgroup;
pub mod cli;
pub mod config;
pub mod container;
pub mod error;
pub mod host;
pub mod path;
pub mod platform;
pub mod process;
pub mod rootfs;
mod sequences;
pub mod text;
pub mod workload;
