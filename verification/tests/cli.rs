use clap::{Arg, ArgAction, ArgMatches, Command};
use minictr::cli::{
    parse_bind_mount, parse_cli, validate_hostname, BindMount, Cli, MAX_HOSTNAME_LEN,
};
use minictr::path::UnixPath;
use minictr::text::display;

fn command() -> Command {
    Command::new("minictr")
        .arg(Arg::new("operation").required(true))
        .arg(Arg::new("rootfs").long("rootfs").required(true))
        .arg(
            Arg::new("hostname")
                .long("hostname")
                .value_parser(validate_hostname),
        )
        .arg(
            Arg::new("bind_mounts")
                .long("mount")
                .action(ArgAction::Append)
                .value_parser(parse_bind_mount),
        )
        .arg(Arg::new("config").long("config"))
        .arg(Arg::new("init").long("init").action(ArgAction::SetTrue))
        .arg(
            Arg::new("command_tokens")
                .num_args(1..)
                .allow_hyphen_values(true)
                .action(ArgAction::Append),
        )
}

fn text(matches: &ArgMatches, name: &str) -> Option<String> {
    matches.get_one::<String>(name).cloned()
}

fn decoded(args: &[&str]) -> Cli {
    let matches = command().try_get_matches_from(args).unwrap();
    Cli {
        operation: text(&matches, "operation").unwrap(),
        rootfs: UnixPath::from_text(&text(&matches, "rootfs").unwrap()),
        hostname: text(&matches, "hostname"),
        bind_mounts: matches
            .get_many::<BindMount>("bind_mounts")
            .map(|mounts| mounts.cloned().collect())
            .unwrap_or_default(),
        config: text(&matches, "config").map(|path| UnixPath::from_text(&path)),
        init: matches.get_flag("init"),
        command_tokens: matches
            .get_many::<String>("command_tokens")
            .map(|tokens| tokens.cloned().collect())
            .unwrap_or_default(),
    }
}

#[test]
fn cli_args_become_runtime_configuration() {
    let cli = parse_cli(decoded(&[
        "minictr",
        "run",
        "--rootfs",
        "./rootfs",
        "--hostname",
        "testbox",
        "--config",
        "resources.json",
        "--init",
        "--mount",
        "/host/data:/data",
        "--",
        "sh",
        "-c",
        "printf hello",
    ]))
    .unwrap();

    assert_eq!(cli.operation, "run");
    assert_eq!(cli.rootfs, UnixPath::from_text("./rootfs"));
    assert_eq!(cli.hostname.as_deref(), Some("testbox"));
    assert_eq!(cli.config, Some(UnixPath::from_text("resources.json")));
    assert!(cli.init);
    assert_eq!(
        cli.bind_mounts,
        [BindMount {
            source: UnixPath::from_text("/host/data"),
            destination: UnixPath::from_text("/data"),
        }]
    );
    assert_eq!(cli.command_tokens, ["sh", "-c", "printf hello"]);
}

#[test]
fn rootfs_is_parsed_before_the_command_separator() {
    let cli = parse_cli(decoded(&[
        "minictr", "run", "--rootfs", "./rootfs", "--", "/bin/sh",
    ]))
    .unwrap();

    assert_eq!(cli.rootfs, UnixPath::from_text("./rootfs"));
    assert_eq!(cli.hostname, None);
    assert_eq!(cli.config, None);
    assert!(!cli.init);
    assert!(cli.bind_mounts.is_empty());
    assert_eq!(cli.command_tokens, ["/bin/sh"]);
}

#[test]
fn run_is_the_only_operation() {
    let message = parse_cli(decoded(&[
        "minictr", "stop", "--rootfs", "./rootfs", "--", "/bin/sh",
    ]))
    .unwrap_err();
    assert_eq!(message, "only supported operation is run");
}

#[test]
fn a_run_holds_only_what_the_validators_accept() {
    let accepted = || {
        decoded(&[
            "minictr", "run", "--rootfs", "r", "--hostname", "box", "--mount", "/a:b:/x",
            "--mount", "/c:/y", "--", "sh",
        ])
    };
    let cli = parse_cli(accepted()).unwrap();
    assert_eq!(cli.hostname.as_deref(), Some("box"));
    assert_eq!(cli.bind_mounts, accepted().bind_mounts);
    for mount in &cli.bind_mounts {
        let text = format!("{}:{}", display(&mount.source), display(&mount.destination));
        assert_eq!(parse_bind_mount(&text).as_ref(), Ok(mount));
    }

    let mut cli = accepted();
    cli.hostname = Some("-box".to_owned());
    assert_eq!(
        parse_cli(cli).unwrap_err(),
        "hostname labels must not be empty or start/end with '-'"
    );
    let with_mount = |source: &[u8], destination: &[u8]| {
        let mut cli = accepted();
        cli.operation = "stop".to_owned();
        cli.bind_mounts.push(BindMount {
            source: UnixPath::new(source.to_vec()),
            destination: UnixPath::new(destination.to_vec()),
        });
        parse_cli(cli).unwrap_err()
    };
    assert_eq!(
        with_mount(b"/a", b"/"),
        "mount container path must not replace the container root"
    );
    assert_eq!(with_mount(b"", b"/x"), "mount host path must not be empty");
    assert_eq!(
        with_mount(b"/a", b"/x:/y"),
        "mount must use host_path:container_path syntax"
    );
    assert_eq!(with_mount(b"/\xff", b"/x"), "mount must be valid UTF-8");
    assert_eq!(with_mount(b"/a", b"/x"), "only supported operation is run");
}

#[test]
fn bind_mount_parser_requires_an_absolute_container_path() {
    assert_eq!(
        parse_bind_mount("/host/data:/data").unwrap(),
        BindMount {
            source: UnixPath::from_text("/host/data"),
            destination: UnixPath::from_text("/data"),
        }
    );
    assert!(parse_bind_mount("/host/data:data").is_err());
    assert!(parse_bind_mount("/host/data").is_err());
    assert!(parse_bind_mount(":/data").is_err());
    assert!(parse_bind_mount("/host/data:/../outside").is_err());
    assert!(parse_bind_mount("/host/data:/").is_err());
    assert!(parse_bind_mount("/host/data:/oldroot").is_err());
    assert!(parse_bind_mount("/host/data:/oldroot/nested").is_err());
    assert!(parse_bind_mount("/host/data:/oldroot-safe").is_ok());
}

#[test]
fn each_objection_to_a_bind_mount_is_its_own() {
    let message = |value: &str| parse_bind_mount(value).unwrap_err();
    assert_eq!(
        message("/host/data"),
        "mount must use host_path:container_path syntax"
    );
    assert_eq!(message(":/data"), "mount host path must not be empty");
    assert_eq!(message("/a:data"), "mount container path must be absolute");
    assert_eq!(message("/a:"), "mount container path must be absolute");
    assert_eq!(
        message("/a:/b/../c"),
        "mount container path must not contain '..'"
    );
    assert_eq!(
        message("/a://./"),
        "mount container path must not replace the container root"
    );
    assert_eq!(
        message("/a://oldroot//nested"),
        "mount container path must not use reserved path /oldroot"
    );
}

#[test]
fn the_last_colon_separates_a_bind_mount() {
    let mount = parse_bind_mount("/host:with:colons:/data").unwrap();
    assert_eq!(mount.source.as_bytes(), b"/host:with:colons");
    assert_eq!(mount.destination.as_bytes(), b"/data");
    assert_eq!(mount.clone(), mount);
}

#[test]
fn hostname_validation_rejects_invalid_values() {
    assert!(validate_hostname("").is_err());
    assert!(validate_hostname("has space").is_err());
    assert!(validate_hostname("-starts-with-dash").is_err());
    assert!(validate_hostname(&"x".repeat(MAX_HOSTNAME_LEN + 1)).is_err());
    assert_eq!(
        validate_hostname("testbox-1.example").unwrap(),
        "testbox-1.example"
    );
}

#[test]
fn each_objection_to_a_hostname_is_its_own() {
    let message = |value: &str| validate_hostname(value).unwrap_err();
    let labels = "hostname labels must not be empty or start/end with '-'";
    assert_eq!(message(""), "hostname must not be empty");
    assert_eq!(
        message(&"x".repeat(65)),
        "hostname must be at most 64 bytes"
    );
    assert_eq!(
        message("h\u{e9}"),
        "hostname may contain only letters, digits, '-' and '.'"
    );
    assert_eq!(message("a..b"), labels);
    assert_eq!(message(".a"), labels);
    assert_eq!(message("a."), labels);
    assert_eq!(message("a-.b"), labels);
    assert_eq!(message("a.-b"), labels);
    assert_eq!(message("a-"), labels);
    assert_eq!(validate_hostname(&"x".repeat(64)).unwrap(), "x".repeat(64));
}
