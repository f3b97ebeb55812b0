use minictr::bind_target::BindStep;
use minictr::cgroup::Cgroup;
use minictr::cli::{parse_bind_mount, Cli};
use minictr::container::{
    init_container, namespace_clone_flags, run_container, SetupAction, SetupNext, SetupReply,
    SetupStep,
};
use minictr::path::UnixPath;
use minictr::process::{forwarded_mask, SignalForwarder};
use minictr::rootfs::PivotStep;
use minictr::text::display;
use minictr::workload::LaunchStep;
use nix::mount::MsFlags;
use nix::sched::CloneFlags;
use nix::sys::signal::SigSet;

fn cli(mounts: &[&str], hostname: Option<&str>, init: bool) -> Cli {
    Cli {
        operation: "run".to_owned(),
        rootfs: UnixPath::from_text("/srv/root"),
        hostname: hostname.map(str::to_owned),
        bind_mounts: mounts
            .iter()
            .map(|mount| parse_bind_mount(mount).unwrap())
            .collect(),
        config: None,
        init,
        command_tokens: vec!["/bin/sh".to_owned()],
    }
}

fn signals() -> SignalForwarder {
    SignalForwarder {
        mask: forwarded_mask(),
        original_mask: SigSet::empty(),
        original_actions: Vec::new(),
    }
}

fn cgroup() -> Cgroup {
    Cgroup {
        path: UnixPath::from_text("/group"),
    }
}

struct SetupRun {
    steps: Vec<SetupStep>,
    actions: Vec<String>,
    notices: Vec<String>,
    end: Result<&'static str, String>,
}

fn description(action: &SetupAction) -> String {
    match action {
        SetupAction::SetParentDeathSignal(signal) => format!("signal {}", signal.number()),
        SetupAction::JoinCgroup(write) => format!("{}={}", display(&write.path), write.contents),
        SetupAction::MakeMountTreePrivate(request) => {
            assert_eq!(request.flags, MsFlags::MS_PRIVATE | MsFlags::MS_REC);
            format!("private {}", display(&request.target))
        }
        SetupAction::MakeRootfsMountPoint(request) => format!("point {}", display(&request.target)),
        SetupAction::MountBind(BindStep::Probe(place), bind_mount) => format!(
            "bind {} {}",
            display(&bind_mount.source),
            display(&place.context.target)
        ),
        SetupAction::MountBind(_, _) => unreachable!(),
        SetupAction::PivotIntoRootfs(pivot) => match pivot.step() {
            PivotStep::PrepareOldRoot(place) => format!("pivot {}", display(place)),
            _ => unreachable!(),
        },
        SetupAction::MountProcfs(step) => format!("proc {}", display(&step.directory)),
        SetupAction::SetHostname(hostname) => format!("hostname {hostname}"),
        SetupAction::ReadHostname => "read".to_owned(),
    }
}

fn set_up(cli: &Cli, has_cgroup: bool, failing: Option<usize>) -> SetupRun {
    let signals = signals();
    let cgroup = cgroup();
    let mut setup = run_container(cli, if has_cgroup { Some(&cgroup) } else { None }, &signals);
    let mut steps = Vec::new();
    let mut actions = Vec::new();
    let mut notices = Vec::new();
    let end = loop {
        let step = setup.step();
        let reply = if failing == Some(steps.len()) {
            SetupReply::Failed("reason".to_owned())
        } else if step == SetupStep::ReadHostname {
            SetupReply::Hostname(vec![0x62, 0x6f, 0x78, 0xff])
        } else {
            SetupReply::Done
        };
        steps.push(step);
        actions.push(description(&setup.action()));
        let (notice, next) = setup.answered(reply);
        notices.extend(notice);
        match next {
            SetupNext::Perform(next) => setup = next,
            SetupNext::Launch(LaunchStep::Fork(step)) => {
                assert_eq!(*step.context.command_tokens, cli.command_tokens);
                break Ok("fork");
            }
            SetupNext::Launch(LaunchStep::RestoreSignals(step)) => {
                assert_eq!(*step.context.command_tokens, cli.command_tokens);
                break Ok("restore");
            }
            SetupNext::Launch(_) => unreachable!(),
            SetupNext::Failed(message) => break Err(message),
        }
    };
    SetupRun {
        steps,
        actions,
        notices,
        end,
    }
}

#[test]
fn namespace_configuration_includes_pid_uts_and_mount() {
    let flags = namespace_clone_flags();

    assert!(flags.contains(CloneFlags::CLONE_NEWUTS));
    assert!(flags.contains(CloneFlags::CLONE_NEWPID));
    assert!(flags.contains(CloneFlags::CLONE_NEWNS));
}

#[test]
fn a_container_has_no_other_namespaces() {
    assert_eq!(
        namespace_clone_flags(),
        CloneFlags::CLONE_NEWUTS | CloneFlags::CLONE_NEWPID | CloneFlags::CLONE_NEWNS
    );
}

#[test]
fn a_full_setup_takes_every_step_in_order() {
    let cli = cli(&["/a:/x", "/b:/y"], Some("box"), true);
    let run = set_up(&cli, true, None);
    assert_eq!(
        run.steps,
        [
            SetupStep::SetParentDeathSignal,
            SetupStep::JoinCgroup,
            SetupStep::MakeMountTreePrivate,
            SetupStep::MakeRootfsMountPoint,
            SetupStep::MountBind(0),
            SetupStep::MountBind(1),
            SetupStep::PivotIntoRootfs,
            SetupStep::MountProcfs,
            SetupStep::SetHostname,
            SetupStep::ReadHostname,
        ]
    );
    assert_eq!(run.notices, ["runtime process hostname = box\u{fffd}"]);
    assert_eq!(
        run.actions,
        [
            "signal 9",
            "/group/cgroup.procs=0",
            "private /",
            "point /srv/root",
            "bind /a /srv/root/x",
            "bind /b /srv/root/y",
            "pivot /srv/root/oldroot",
            "proc /proc",
            "hostname box",
            "read",
        ]
    );
    assert_eq!(run.end, Ok("fork"));
}

#[test]
fn a_plain_setup_leaves_out_what_was_not_asked_for() {
    let run = set_up(&cli(&[], None, false), false, None);
    assert_eq!(
        run.steps,
        [
            SetupStep::SetParentDeathSignal,
            SetupStep::MakeMountTreePrivate,
            SetupStep::MakeRootfsMountPoint,
            SetupStep::PivotIntoRootfs,
            SetupStep::MountProcfs,
        ]
    );
    assert!(run.notices.is_empty());
    assert!(!run.actions.iter().any(|action| action.starts_with("hostname")));
    assert_eq!(run.end, Ok("restore"));
}

#[test]
fn the_first_failure_ends_the_setup_with_its_message() {
    let cli = cli(&["/a:/x"], Some("box"), false);
    let messages = [
        "failed to configure parent-death signal: reason",
        "failed to join cgroup: reason",
        "failed to make mount tree private: reason",
        "failed to make rootfs a mount point: reason",
        "failed to bind mount /a at /x: reason",
        "failed to pivot into rootfs: reason",
        "failed to mount procfs: reason",
        "failed to set hostname: reason",
        "failed to read hostname: reason",
    ];
    for (failing, message) in messages.iter().enumerate() {
        let run = set_up(&cli, true, Some(failing));
        assert_eq!(run.steps.len(), failing + 1);
        assert!(matches!(run.end, Err(said) if said == *message));
    }
}

#[test]
fn a_container_ends_with_its_status_or_with_that_of_a_failed_runtime() {
    assert_eq!(init_container(Ok(37)), (37, None));
    assert_eq!(
        init_container(Err("failed to mount procfs: reason".to_owned())),
        (125, Some("failed to mount procfs: reason".to_owned()))
    );
}
