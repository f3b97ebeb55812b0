use minictr::cgroup::{Cgroup, CgroupStep};
use minictr::cli::{parse_bind_mount, Cli};
use minictr::config::{ConfigContents, ConfigFile, PidsConfig, ResourceConfig};
use minictr::container::{SetupNext, SetupReply, SetupStep};
use minictr::error::{ErrorKind, IoError};
use minictr::host::{
    exit_status, initialize_namespaced_runtime, resolve_runtime_and_cleanup, HostStep, STACK_SIZE,
};
use minictr::path::UnixPath;
use minictr::process::{InstallStep, ProcessOutcome, SignalForwarder, SignalOp, WaitStatus};
use nix::sched::CloneFlags;
use nix::sys::signal::{SaFlags, SigAction, SigHandler, SigSet};

fn failure(message: &str) -> IoError {
    IoError {
        kind: ErrorKind::NotFound,
        raw_os_error: Some(2),
        message: message.to_owned(),
    }
}

fn forwarder() -> SignalForwarder {
    let action = SigAction::new(SigHandler::SigDfl, SaFlags::empty(), SigSet::empty());
    let mut step = SignalForwarder::install();
    loop {
        step = match step {
            InstallStep::ReadMask(step) => step.answered(Ok(SigSet::empty())),
            InstallStep::BlockMask(step) => step.answered(Ok(())),
            InstallStep::SetAction(step) => step.answered(Ok(action)),
            InstallStep::Installed(forwarder) => return forwarder,
            InstallStep::RollBack(_) | InstallStep::Failed(_) => unreachable!(),
        };
    }
}

fn cli(config: bool) -> Cli {
    Cli {
        operation: "run".to_owned(),
        rootfs: UnixPath::from_text("./root"),
        hostname: Some("box".to_owned()),
        bind_mounts: vec![
            parse_bind_mount("data:/data").unwrap(),
            parse_bind_mount("link:/more").unwrap(),
        ],
        config: if config {
            Some(UnixPath::from_text("resources.json"))
        } else {
            None
        },
        init: true,
        command_tokens: vec!["sh".to_owned(), "-c".to_owned()],
    }
}

struct Script {
    config: bool,
    limit: u64,
    is_directory: bool,
    failing: &'static str,
    reports: Vec<WaitStatus>,
}

struct Outcome {
    asked: Vec<&'static str>,
    notices: Vec<String>,
    result: Result<ProcessOutcome, IoError>,
}

impl Script {
    fn new(failing: &'static str) -> Script {
        Script {
            config: true,
            limit: 16,
            is_directory: true,
            failing,
            reports: vec![WaitStatus::Exited(9, 0), WaitStatus::Exited(7, 37)],
        }
    }

    fn reply<T>(&self, what: &str, value: T) -> Result<T, IoError> {
        if self.failing.split(' ').any(|failing| failing == what) {
            Err(failure(&format!("{what} failed")))
        } else {
            Ok(value)
        }
    }

    fn run(self) -> Outcome {
        let mut reports = self.reports.iter();
        let mut asked = Vec::new();
        let mut notices = Vec::new();
        let mut step = initialize_namespaced_runtime(cli(self.config));
        loop {
            step = match step {
                HostStep::ReadConfig(step) => {
                    asked.push("config");
                    assert_eq!(step.path.as_bytes(), b"resources.json");
                    let file = ConfigFile {
                        resources: ResourceConfig {
                            pids: Some(PidsConfig { max: self.limit }),
                        },
                    };
                    step.answered(match self.reply("config", file) {
                        Ok(file) => ConfigContents::Decoded(file),
                        Err(error) => ConfigContents::Unreadable(error),
                    })
                }
                HostStep::ResolveRootfs(step) => {
                    asked.push("rootfs");
                    assert_eq!(step.args.rootfs.as_bytes(), b"./root");
                    step.answered(self.reply("rootfs", UnixPath::from_text("/srv/root")))
                }
                HostStep::CheckRootfs(step) => {
                    asked.push("directory");
                    assert_eq!(step.args.rootfs.as_bytes(), b"/srv/root");
                    step.answered(self.is_directory)
                }
                HostStep::ResolveMount(step) => {
                    let (what, real) = if step.source().as_bytes() == b"data" {
                        ("mount", "/host/data")
                    } else {
                        ("link", "/elsewhere")
                    };
                    asked.push(what);
                    step.answered(self.reply(what, UnixPath::from_text(real)))
                }
                HostStep::InstallSignals(step) => {
                    asked.push("install");
                    step.answered(self.reply("install", forwarder()))
                }
                HostStep::CreateCgroup(step) => {
                    asked.push("cgroup");
                    let cgroup = match step.creation() {
                        CgroupStep::Created(none) => none,
                        CgroupStep::EnableRoot(enable) => {
                            assert_eq!(enable.max, self.limit);
                            Some(Cgroup {
                                path: UnixPath::from_text("/group"),
                            })
                        }
                        _ => unreachable!(),
                    };
                    step.answered(self.reply("cgroup", cgroup))
                }
                HostStep::CloneRuntime(step) => {
                    asked.push("clone");
                    assert_eq!(step.args.rootfs.as_bytes(), b"/srv/root");
                    assert_eq!(step.args.bind_mounts[0].source.as_bytes(), b"/host/data");
                    assert_eq!(step.args.bind_mounts[0].destination.as_bytes(), b"/data");
                    assert_eq!(step.args.bind_mounts[1].source.as_bytes(), b"/elsewhere");
                    assert_eq!(step.args.bind_mounts[1].destination.as_bytes(), b"/more");
                    assert_eq!(step.args.hostname.as_deref(), Some("box"));
                    assert_eq!(step.args.command_tokens, ["sh", "-c"]);
                    assert!(step.args.init);
                    let setup = step.container();
                    assert_eq!(setup.step(), SetupStep::SetParentDeathSignal);
                    let joins = match setup.answered(SetupReply::Done).1 {
                        SetupNext::Perform(setup) => setup.step() == SetupStep::JoinCgroup,
                        _ => unreachable!(),
                    };
                    assert_eq!(joins, self.config);
                    let request = step.request();
                    assert_eq!(request.stack_size, 1024 * 1024);
                    assert_eq!(STACK_SIZE, 1024 * 1024);
                    assert_eq!(
                        request.exit_signal,
                        nix::sys::signal::Signal::SIGCHLD as i32
                    );
                    assert!(request.flags.contains(CloneFlags::CLONE_NEWPID));
                    step.answered(self.reply("clone", 7))
                }
                HostStep::Activate(step) => {
                    asked.push("activate");
                    assert_eq!(step.activation().target, 7);
                    step.answered(self.reply("activate", ()))
                }
                HostStep::Kill(step) => {
                    asked.push("kill");
                    assert_eq!(step.pid, 7);
                    assert_eq!(step.signal().number(), 9);
                    step.done()
                }
                HostStep::Await(step) => {
                    asked.push("await");
                    let report = match reports.next() {
                        Some(WaitStatus::Exited(pid, code)) => WaitStatus::Exited(*pid, *code),
                        _ => unreachable!(),
                    };
                    step.answered(self.reply("await", report))
                }
                HostStep::RemoveCgroup(step) => {
                    asked.push("remove");
                    assert_eq!(step.directory().as_bytes(), b"/group");
                    step.answered(self.reply("remove", ()))
                }
                HostStep::RestoreSignals(step) => {
                    asked.push("restore");
                    assert!(matches!(step.restoration().op(), SignalOp::Block(_)));
                    let (said, next) = step.answered(self.reply("restore", ()));
                    notices.extend(said);
                    next
                }
                HostStep::Finished(result) => {
                    return Outcome {
                        asked,
                        notices,
                        result,
                    }
                }
            };
        }
    }
}

#[test]
fn cleanup_failure_does_not_replace_workload_status() {
    let (result, notices) = resolve_runtime_and_cleanup(
        Ok(ProcessOutcome::Exited(37)),
        Err(IoError::other("simulated cleanup failure".to_owned())),
    );

    assert_eq!(result.ok(), Some(ProcessOutcome::Exited(37)));
    assert_eq!(
        notices,
        ["failed to remove cgroup: simulated cleanup failure"]
    );
}

#[test]
fn both_failures_are_reported_together() {
    let (result, notices) = resolve_runtime_and_cleanup(Err(failure("first")), Err(failure("second")));
    let error = result.unwrap_err();
    assert_eq!(error.kind, ErrorKind::Other);
    assert_eq!(error.message, "first; also failed to remove cgroup: second");
    assert!(notices.is_empty());
    let (result, notices) = resolve_runtime_and_cleanup(Err(failure("first")), Ok(()));
    let error = result.unwrap_err();
    assert_eq!(error.kind, ErrorKind::NotFound);
    assert_eq!(error.raw_os_error, Some(2));
    assert_eq!(error.message, "first");
    assert!(notices.is_empty());
}

#[test]
fn the_runtime_exits_with_the_status_of_the_workload_or_its_own() {
    assert_eq!(exit_status(Ok(ProcessOutcome::Exited(37))), (37, None));
    assert_eq!(
        exit_status(Err(failure("reason"))),
        (125, Some("error: reason".to_owned()))
    );
}

#[test]
fn a_run_does_everything_once_and_in_order() {
    let run = Script::new("").run();
    assert_eq!(
        run.asked,
        [
            "config", "rootfs", "directory", "mount", "link", "install", "cgroup", "clone",
            "activate", "await", "await", "remove", "restore",
        ]
    );
    assert!(run.notices.is_empty());
    assert_eq!(run.result.unwrap(), ProcessOutcome::Exited(37));
}

#[test]
fn a_run_without_configuration_has_no_cgroup_to_remove() {
    let mut script = Script::new("");
    script.config = false;
    let run = script.run();
    assert!(!run.asked.contains(&"config"));
    assert!(!run.asked.contains(&"remove"));
    assert_eq!(run.asked.last(), Some(&"restore"));
    assert_eq!(run.result.unwrap(), ProcessOutcome::Exited(37));
}

#[test]
fn a_rejected_configuration_starts_nothing() {
    let mut script = Script::new("");
    script.limit = 0;
    let run = script.run();
    assert_eq!(run.asked, ["config"]);
    assert_eq!(
        run.result.unwrap_err().message,
        "invalid config resources.json: resources.pids.max must be greater than zero"
    );
    let run = Script::new("config").run();
    assert_eq!(run.asked, ["config"]);
    assert_eq!(
        run.result.unwrap_err().message,
        "failed to read config resources.json: config failed"
    );
}

#[test]
fn a_failure_before_the_start_ends_the_run() {
    for failing in ["rootfs", "install", "cgroup"] {
        let run = Script::new(failing).run();
        assert_eq!(run.asked.last(), Some(&failing));
        assert_eq!(run.result.unwrap_err().message, format!("{failing} failed"));
    }
    let mut script = Script::new("");
    script.is_directory = false;
    let error = script.run().result.unwrap_err();
    assert_eq!(error.kind, ErrorKind::InvalidInput);
    assert_eq!(error.message, "rootfs is not a directory: /srv/root");
    let error = Script::new("link").run().result.unwrap_err();
    assert_eq!(error.kind, ErrorKind::NotFound);
    assert_eq!(error.raw_os_error, None);
    assert_eq!(
        error.message,
        "failed to resolve bind mount source link: link failed"
    );
}

#[test]
fn what_was_taken_over_is_put_back_whatever_fails() {
    for failing in ["clone", "activate", "await", "remove", "restore"] {
        let run = Script::new(failing).run();
        assert_eq!(run.asked[run.asked.len() - 2..], ["remove", "restore"]);
    }
    assert_eq!(
        Script::new("clone remove").run().result.unwrap_err().message,
        "clone failed; also failed to remove cgroup: remove failed"
    );
}

#[test]
fn a_container_that_signals_cannot_reach_is_killed() {
    let run = Script::new("activate").run();
    assert!(run.asked.contains(&"kill"));
    assert_eq!(run.result.unwrap_err().message, "activate failed");
}

#[test]
fn failures_after_the_end_are_said_and_change_nothing() {
    let run = Script::new("remove restore").run();
    assert_eq!(run.result.unwrap(), ProcessOutcome::Exited(37));
    assert_eq!(
        run.notices,
        [
            "failed to restore host signal state: restore failed",
            "failed to remove cgroup: remove failed",
        ]
    );
}
