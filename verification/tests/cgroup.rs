use minictr::cgroup::{enable_controller, unique_name, Cgroup, CgroupStep, ControllerStep};
use minictr::config::{PidsConfig, ResourceConfig};
use minictr::error::{ErrorKind, IoError};
use minictr::path::UnixPath;
use minictr::text::display;

fn limited(max: u64) -> ResourceConfig {
    ResourceConfig {
        pids: Some(PidsConfig { max }),
    }
}

fn enable(available: &str, enabled: &str) -> Result<Option<String>, IoError> {
    let mut step = enable_controller(&UnixPath::from_text("/sys/fs/cgroup"), "pids");
    let mut written = None;
    loop {
        step = match step {
            ControllerStep::ReadAvailable(step) => {
                assert_eq!(display(&step.file()), "/sys/fs/cgroup/cgroup.controllers");
                step.answered(Ok(available.to_owned()))
            }
            ControllerStep::ReadEnabled(step) => {
                assert_eq!(
                    display(&step.file()),
                    "/sys/fs/cgroup/cgroup.subtree_control"
                );
                step.answered(Ok(enabled.to_owned()))
            }
            ControllerStep::Enable(step) => {
                written = Some(format!(
                    "{}={}",
                    display(&step.write.path),
                    step.write.contents
                ));
                step.answered(Ok(()))
            }
            ControllerStep::Enabled => return Ok(written),
            ControllerStep::Failed(error) => return Err(error),
        };
    }
}

#[test]
fn a_controller_is_enabled_where_it_is_not_yet() {
    assert_eq!(
        enable("cpu pids\n", "cpu\n").unwrap().as_deref(),
        Some("/sys/fs/cgroup/cgroup.subtree_control=+pids")
    );
    assert_eq!(enable("cpu pids\n", "pids cpu\n").unwrap(), None);
}

#[test]
fn a_controller_that_is_not_there_is_unsupported() {
    let error = enable("cpu pidsx\n", "").unwrap_err();
    assert_eq!(error.kind, ErrorKind::Unsupported);
    assert_eq!(error.message, "cgroup v2 pids controller is not available");
}

#[test]
fn a_cgroup_is_created_with_its_limit() {
    let mut done = Vec::new();
    let mut step = Cgroup::create(&limited(16));
    let cgroup = loop {
        step = match step {
            CgroupStep::EnableRoot(step) => {
                match step.controller() {
                    ControllerStep::ReadAvailable(read) => {
                        done.push(format!("enable {}", display(&read.parent)))
                    }
                    _ => unreachable!(),
                }
                step.answered(Ok(()))
            }
            CgroupStep::CreateParent(step) => {
                done.push(format!("create {}", display(&step.directory())));
                step.answered(Ok(()))
            }
            CgroupStep::EnableParent(step) => {
                match step.controller() {
                    ControllerStep::ReadAvailable(read) => {
                        done.push(format!("enable {} {}", display(&read.parent), read.controller))
                    }
                    _ => unreachable!(),
                }
                step.answered(Ok(()))
            }
            CgroupStep::Name(step) => step.answered(Ok((42, 1_000_000_007))),
            CgroupStep::CreateGroup(step) => {
                done.push(format!("create {}", display(&step.path)));
                step.answered(Ok(()))
            }
            CgroupStep::WriteLimit(step) => {
                let write = step.write();
                done.push(format!("{}={}", display(&write.path), write.contents));
                step.answered(Ok(()))
            }
            CgroupStep::Created(cgroup) => break cgroup.unwrap(),
            CgroupStep::RemoveGroup(_) | CgroupStep::Failed(_) => unreachable!(),
        };
    };
    assert_eq!(
        done,
        [
            "enable /sys/fs/cgroup",
            "create /sys/fs/cgroup/minictr",
            "enable /sys/fs/cgroup/minictr pids",
            "create /sys/fs/cgroup/minictr/runtime-42-1000000007",
            "/sys/fs/cgroup/minictr/runtime-42-1000000007/pids.max=16",
        ]
    );
    let write = cgroup.join_current();
    assert_eq!(
        display(&write.path),
        "/sys/fs/cgroup/minictr/runtime-42-1000000007/cgroup.procs"
    );
    assert_eq!(write.contents, "0");
    let write = cgroup.configure(&limited(u64::MAX)).unwrap();
    assert_eq!(write.contents, "18446744073709551615");
    assert!(cgroup.configure(&ResourceConfig { pids: None }).is_none());
    assert_eq!(
        display(&cgroup.remove()),
        "/sys/fs/cgroup/minictr/runtime-42-1000000007"
    );
}

#[test]
fn unlimited_runs_have_no_cgroup() {
    assert!(matches!(
        Cgroup::create(&ResourceConfig { pids: None }),
        CgroupStep::Created(None)
    ));
}

#[test]
fn a_cgroup_that_cannot_be_limited_is_removed() {
    let mut removed = Vec::new();
    let mut step = Cgroup::create(&limited(4));
    let error = loop {
        step = match step {
            CgroupStep::EnableRoot(step) => step.answered(Ok(())),
            CgroupStep::CreateParent(step) => step.answered(Ok(())),
            CgroupStep::EnableParent(step) => step.answered(Ok(())),
            CgroupStep::Name(step) => step.answered(Ok((1, 2))),
            CgroupStep::CreateGroup(step) => step.answered(Ok(())),
            CgroupStep::WriteLimit(step) => {
                step.answered(Err(IoError::other("limit refused".to_owned())))
            }
            CgroupStep::RemoveGroup(step) => {
                removed.push(display(&step.path));
                step.done()
            }
            CgroupStep::Created(_) => unreachable!(),
            CgroupStep::Failed(error) => break error,
        };
    };
    assert_eq!(removed, ["/sys/fs/cgroup/minictr/runtime-1-2"]);
    assert_eq!(error.message, "limit refused");
}

#[test]
fn every_earlier_failure_ends_the_creation() {
    for failing in 0..5 {
        let mut asked = 0;
        let mut step = Cgroup::create(&limited(4));
        let error = loop {
            let failure = if asked == failing {
                Err(IoError::other("refused".to_owned()))
            } else {
                Ok(())
            };
            asked += 1;
            step = match step {
                CgroupStep::EnableRoot(step) => step.answered(failure),
                CgroupStep::CreateParent(step) => step.answered(failure),
                CgroupStep::EnableParent(step) => step.answered(failure),
                CgroupStep::Name(step) => step.answered(failure.map(|_| (1, 2))),
                CgroupStep::CreateGroup(step) => step.answered(failure),
                CgroupStep::Failed(error) => break error,
                _ => unreachable!(),
            };
        };
        assert_eq!(error.message, "refused");
    }
}

#[test]
fn names_hold_process_number_and_time() {
    assert_eq!(unique_name(7, 123), "runtime-7-123");
    assert_ne!(unique_name(1, 23), unique_name(12, 3));
    assert_eq!(
        unique_name(u32::MAX, u128::MAX),
        "runtime-4294967295-340282366920938463463374607431768211455"
    );
}
