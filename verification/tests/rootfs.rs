use minictr::cli::parse_bind_mount;
use minictr::error::{ErrorKind, IoError};
use minictr::path::UnixPath;
use minictr::rootfs::{
    make_mount_tree_private, make_rootfs_mount_point, mount_bind, mount_procfs,
    pivot_into_rootfs, prepare_old_root_directory, private_mount_flags, ListOldRoot, OldRootStep,
    PivotNext, PivotStep,
};
use minictr::text::display;
use nix::mount::{MntFlags, MsFlags};

fn path(text: &str) -> UnixPath {
    UnixPath::from_text(text)
}

#[test]
fn mount_tree_is_configured_as_recursively_private() {
    let flags = private_mount_flags();

    assert!(flags.contains(MsFlags::MS_PRIVATE));
    assert!(flags.contains(MsFlags::MS_REC));
}

#[test]
fn the_whole_tree_becomes_private() {
    let request = make_mount_tree_private();
    assert!(request.source.is_none());
    assert_eq!(request.target, path("/"));
    assert!(request.fstype.is_none());
    assert_eq!(request.flags, MsFlags::MS_PRIVATE | MsFlags::MS_REC);
}

#[test]
fn the_root_file_system_is_bound_to_itself() {
    let request = make_rootfs_mount_point(&path("/srv/root"));
    assert_eq!(request.source, Some(path("/srv/root")));
    assert_eq!(request.target, path("/srv/root"));
    assert!(request.fstype.is_none());
    assert_eq!(request.flags, MsFlags::MS_BIND | MsFlags::MS_REC);
}

#[test]
fn only_directories_are_bound_recursively() {
    let mount = parse_bind_mount("/host/data:/data").unwrap();
    let target = path("/srv/root/data");
    let directory = mount_bind(&mount, Ok(target.clone()), true).unwrap();
    assert_eq!(directory.source, Some(path("/host/data")));
    assert_eq!(directory.target, target);
    assert_eq!(directory.flags, MsFlags::MS_BIND | MsFlags::MS_REC);
    let file = mount_bind(&mount, Ok(target), false).unwrap();
    assert_eq!(file.flags, MsFlags::MS_BIND);
    let error = mount_bind(&mount, Err(IoError::other("outside".to_owned())), true).unwrap_err();
    assert_eq!(error.message, "outside");
}

#[test]
fn procfs_is_mounted_restricted() {
    let step = mount_procfs();
    assert_eq!(step.directory, path("/proc"));
    let request = step.answered(Ok(())).unwrap();
    assert_eq!(request.source, Some(path("proc")));
    assert_eq!(request.target, path("/proc"));
    assert_eq!(request.fstype.as_deref(), Some("proc"));
    assert_eq!(
        request.flags,
        MsFlags::MS_NOSUID | MsFlags::MS_NODEV | MsFlags::MS_NOEXEC
    );
}

#[test]
fn procfs_is_not_mounted_where_its_directory_is_missing() {
    let error = mount_procfs()
        .answered(Err(IoError::other("read-only".to_owned())))
        .unwrap_err();
    assert_eq!(error.message, "read-only");
}

fn description(step: &PivotStep) -> String {
    match step {
        PivotStep::PrepareOldRoot(place) => format!("prepare {}", display(place)),
        PivotStep::ChangeDirectory(place) => format!("enter {}", display(place)),
        PivotStep::PivotRoot(new, old) => format!("pivot {} {}", display(new), display(old)),
        PivotStep::Unmount(place, flags) => {
            assert_eq!(*flags, MntFlags::MNT_DETACH);
            format!("unmount {}", display(place))
        }
        PivotStep::RemoveDirectory(place) => format!("remove {}", display(place)),
    }
}

fn pivoted(failing: Option<usize>) -> (Vec<String>, Result<(), IoError>) {
    let mut pivot = pivot_into_rootfs(&path("/srv/root"));
    let mut done = Vec::new();
    loop {
        let outcome = if failing == Some(done.len()) {
            Err(IoError::other(format!("step {}", done.len())))
        } else {
            Ok(())
        };
        done.push(description(pivot.step()));
        pivot = match pivot.answered(outcome) {
            PivotNext::Perform(next) => next,
            PivotNext::Over(result) => return (done, result),
        };
    }
}

#[test]
fn the_old_root_is_gone_after_the_pivot() {
    let (done, result) = pivoted(None);
    assert_eq!(
        done,
        [
            "prepare /srv/root/oldroot",
            "enter /srv/root",
            "pivot . oldroot",
            "enter /",
            "unmount /oldroot",
            "remove /oldroot",
        ]
    );
    assert!(result.is_ok());
}

#[test]
fn the_first_failure_ends_the_pivot() {
    for failing in 0..6 {
        let (done, result) = pivoted(Some(failing));
        assert_eq!(done.len(), failing + 1);
        assert_eq!(result.unwrap_err().message, format!("step {failing}"));
    }
}

#[test]
fn an_old_root_directory_must_be_empty() {
    let place = path("/srv/root/oldroot");
    let list = match prepare_old_root_directory(place.clone(), Ok(true)) {
        OldRootStep::List(list) => list,
        _ => unreachable!(),
    };
    assert!(list.answered(Ok(false)).is_ok());
    let full = ListOldRoot { path: place.clone() }.answered(Ok(true)).unwrap_err();
    assert_eq!(full.kind, ErrorKind::InvalidInput);
    assert_eq!(
        full.message,
        "reserved old-root directory is not empty: /srv/root/oldroot"
    );
    let unreadable = ListOldRoot { path: place }
        .answered(Err(IoError::other("unreadable".to_owned())))
        .unwrap_err();
    assert_eq!(unreadable.message, "unreadable");
}

#[test]
fn an_old_root_that_is_no_directory_is_refused() {
    match prepare_old_root_directory(path("/srv/root/oldroot"), Ok(false)) {
        OldRootStep::Failed(error) => {
            assert_eq!(error.kind, ErrorKind::InvalidInput);
            assert_eq!(
                error.message,
                "reserved old-root path is not a directory: /srv/root/oldroot"
            );
        }
        _ => unreachable!(),
    }
}

#[test]
fn an_old_root_that_is_missing_is_created() {
    let missing = IoError {
        kind: ErrorKind::NotFound,
        raw_os_error: Some(2),
        message: "missing".to_owned(),
    };
    match prepare_old_root_directory(path("/srv/root/oldroot"), Err(missing)) {
        OldRootStep::Create(step) => {
            assert_eq!(step.path.as_bytes(), b"/srv/root/oldroot");
            let refused = step.answered(Err(IoError::other("read-only".to_owned())));
            assert_eq!(refused.unwrap_err().message, "read-only");
        }
        _ => unreachable!(),
    }
    assert!(matches!(
        prepare_old_root_directory(
            path("/srv/root/oldroot"),
            Err(IoError::other("denied".to_owned()))
        ),
        OldRootStep::Failed(error) if error.message == "denied"
    ));
}
