use minictr::bind_target::{prepare_bind_target, BindStep};
use minictr::cli::{parse_bind_mount, BindMount};
use minictr::error::{ErrorKind, IoError};
use minictr::path::UnixPath;

fn path(text: &str) -> UnixPath {
    UnixPath::from_text(text)
}

struct Tree {
    existing: Vec<&'static str>,
    resolved: &'static str,
    source_is_dir: bool,
    asked: Vec<String>,
}

impl Tree {
    fn holds(&self, place: &UnixPath) -> bool {
        self.existing.iter().any(|entry| path(entry) == *place)
    }

    fn note(&mut self, what: &str, place: &UnixPath) {
        self.asked
            .push(format!("{what} {}", minictr::text::display(place)));
    }

    fn prepare(&mut self, mount: &str) -> Result<UnixPath, IoError> {
        let mount = parse_bind_mount(mount).unwrap();
        let mut step = prepare_bind_target(&path("/srv/root"), &mount);
        loop {
            step = match step {
                BindStep::Probe(step) => {
                    self.note("probe", &step.existing);
                    let exists = self.holds(&step.existing)
                        || (step.placed && step.existing == step.context.target);
                    step.answered(exists)
                }
                BindStep::Resolve(step) => {
                    self.note("resolve", &step.existing);
                    step.answered(Ok(path(self.resolved)))
                }
                BindStep::QuerySource(step) => step.answered(self.source_is_dir),
                BindStep::CreateTarget(step) => {
                    self.note("create", &step.context.target);
                    step.answered(Ok(()))
                }
                BindStep::CreateParent(step) => {
                    self.note("create", &step.parent);
                    step.answered(Ok(()))
                }
                BindStep::QueryTarget(step) => {
                    let exists = self.holds(&step.context.target);
                    step.answered(exists)
                }
                BindStep::CreateFile(step) => {
                    self.note("file", &step.context.target);
                    step.answered(Ok(()))
                }
                BindStep::Ready(target) => return Ok(target),
                BindStep::Failed(error) => return Err(error),
            };
        }
    }
}

#[test]
fn a_directory_is_created_inside_the_rootfs() {
    let mut tree = Tree {
        existing: vec!["/srv/root"],
        resolved: "/srv/root",
        source_is_dir: true,
        asked: Vec::new(),
    };
    let target = tree.prepare("/host/data:/a/b").unwrap();
    assert_eq!(target.as_bytes(), b"/srv/root/a/b");
    assert_eq!(
        tree.asked,
        [
            "probe /srv/root/a/b",
            "probe /srv/root/a",
            "probe /srv/root",
            "resolve /srv/root",
            "create /srv/root/a/b",
            "probe /srv/root/a/b",
            "resolve /srv/root/a/b",
        ]
    );
}

#[test]
fn a_file_is_created_below_its_directory() {
    let mut tree = Tree {
        existing: vec!["/srv/root"],
        resolved: "/srv/root",
        source_is_dir: false,
        asked: Vec::new(),
    };
    assert!(tree.prepare("/host/file:/a/b").is_ok());
    assert_eq!(tree.asked[4], "create /srv/root/a");
    assert_eq!(tree.asked[5], "file /srv/root/a/b");
}

#[test]
fn an_existing_file_is_kept() {
    let mut tree = Tree {
        existing: vec!["/srv/root", "/srv/root/a"],
        resolved: "/srv/root/a",
        source_is_dir: false,
        asked: Vec::new(),
    };
    assert!(tree.prepare("/host/file:/a").is_ok());
    assert!(!tree.asked.iter().any(|line| line.starts_with("file")));
}

#[test]
fn nothing_is_created_where_a_link_leads_out_of_the_rootfs() {
    let mut tree = Tree {
        existing: vec!["/srv/root", "/srv/root/link"],
        resolved: "/etc",
        source_is_dir: true,
        asked: Vec::new(),
    };
    let error = tree.prepare("/host/data:/link/data").unwrap_err();
    assert_eq!(error.kind, ErrorKind::InvalidInput);
    assert_eq!(
        error.message,
        "mount target resolves outside rootfs through /srv/root/link"
    );
    assert_eq!(
        tree.asked,
        [
            "probe /srv/root/link/data",
            "probe /srv/root/link",
            "resolve /srv/root/link",
        ]
    );
}

#[test]
fn a_place_without_existing_ancestor_is_refused() {
    let mut tree = Tree {
        existing: Vec::new(),
        resolved: "/",
        source_is_dir: true,
        asked: Vec::new(),
    };
    let error = tree.prepare("/host/data:/a").unwrap_err();
    assert_eq!(error.kind, ErrorKind::InvalidInput);
    assert_eq!(error.message, "mount target has no existing ancestor");
    assert_eq!(tree.asked.len(), 4);
}

#[test]
fn a_relative_destination_is_refused() {
    let mount = BindMount {
        source: path("/host"),
        destination: path("data"),
    };
    match prepare_bind_target(&path("/srv/root"), &mount) {
        BindStep::Failed(error) => {
            assert_eq!(error.kind, ErrorKind::InvalidInput);
            assert_eq!(error.message, "mount target is not absolute");
        }
        _ => unreachable!(),
    }
}

#[test]
fn a_target_without_parent_is_refused() {
    let mount = BindMount {
        source: path("/host"),
        destination: path("/"),
    };
    let mut step = prepare_bind_target(&path("/"), &mount);
    loop {
        step = match step {
            BindStep::Probe(step) => step.answered(true),
            BindStep::Resolve(step) => step.answered(Ok(path("/"))),
            BindStep::QuerySource(step) => step.answered(false),
            BindStep::Failed(error) => {
                assert_eq!(error.message, "mount target has no parent");
                return;
            }
            _ => unreachable!(),
        };
    }
}

#[test]
fn failures_of_the_system_are_handed_on() {
    let mount = parse_bind_mount("/host:/data").unwrap();
    let step = match prepare_bind_target(&path("/srv/root"), &mount) {
        BindStep::Probe(step) => step.answered(true),
        _ => unreachable!(),
    };
    match step {
        BindStep::Resolve(step) => match step.answered(Err(IoError::other("loop".to_owned()))) {
            BindStep::Failed(error) => assert_eq!(error.message, "loop"),
            _ => unreachable!(),
        },
        _ => unreachable!(),
    }
}
