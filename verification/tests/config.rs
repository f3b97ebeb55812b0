use minictr::config::{
    ConfigContents, ConfigFile, ConfigSource, PidsConfig, ResourceConfig, RuntimeConfig,
};
use minictr::error::{ErrorKind, IoError};
use minictr::path::UnixPath;
use serde::de::{Deserialize, Deserializer, Error, MapAccess, Visitor};
use std::fmt;

struct Pids(PidsConfig);

struct Resources(ResourceConfig);

struct File(ConfigFile);

struct PidsVisitor;

struct ResourcesVisitor;

struct FileVisitor;

impl<'de> Visitor<'de> for PidsVisitor {
    type Value = Pids;

    fn expecting(&self, formatter: &mut fmt::Formatter) -> fmt::Result {
        formatter.write_str("a limit on processes")
    }

    fn visit_map<A: MapAccess<'de>>(self, mut map: A) -> Result<Pids, A::Error> {
        let mut max: Option<u64> = None;
        while let Some(key) = map.next_key::<String>()? {
            if key != "max" {
                return Err(A::Error::unknown_field(&key, &["max"]));
            }
            max = Some(map.next_value()?);
        }
        match max {
            Some(max) => Ok(Pids(PidsConfig { max })),
            None => Err(A::Error::missing_field("max")),
        }
    }
}

impl<'de> Deserialize<'de> for Pids {
    fn deserialize<D: Deserializer<'de>>(deserializer: D) -> Result<Pids, D::Error> {
        deserializer.deserialize_map(PidsVisitor)
    }
}

impl<'de> Visitor<'de> for ResourcesVisitor {
    type Value = Resources;

    fn expecting(&self, formatter: &mut fmt::Formatter) -> fmt::Result {
        formatter.write_str("resources")
    }

    fn visit_map<A: MapAccess<'de>>(self, mut map: A) -> Result<Resources, A::Error> {
        let mut resources = ResourceConfig::default();
        while let Some(key) = map.next_key::<String>()? {
            if key != "pids" {
                return Err(A::Error::unknown_field(&key, &["pids"]));
            }
            resources.pids = map.next_value::<Option<Pids>>()?.map(|pids| pids.0);
        }
        Ok(Resources(resources))
    }
}

impl<'de> Deserialize<'de> for Resources {
    fn deserialize<D: Deserializer<'de>>(deserializer: D) -> Result<Resources, D::Error> {
        deserializer.deserialize_map(ResourcesVisitor)
    }
}

impl<'de> Visitor<'de> for FileVisitor {
    type Value = File;

    fn expecting(&self, formatter: &mut fmt::Formatter) -> fmt::Result {
        formatter.write_str("a configuration")
    }

    fn visit_map<A: MapAccess<'de>>(self, mut map: A) -> Result<File, A::Error> {
        let mut file = ConfigFile::default();
        while let Some(key) = map.next_key::<String>()? {
            if key != "resources" {
                return Err(A::Error::unknown_field(&key, &["resources"]));
            }
            file.resources = map.next_value::<Resources>()?.0;
        }
        Ok(File(file))
    }
}

impl<'de> Deserialize<'de> for File {
    fn deserialize<D: Deserializer<'de>>(deserializer: D) -> Result<File, D::Error> {
        deserializer.deserialize_map(FileVisitor)
    }
}

fn decode(contents: &str) -> Result<ConfigFile, String> {
    serde_json::from_str::<File>(contents)
        .map(|file| file.0)
        .map_err(|error| error.to_string())
}

fn config_path() -> UnixPath {
    UnixPath::from_text("test-config.json")
}

#[test]
fn missing_config_means_no_resource_limits() {
    let config = RuntimeConfig::load(None).unwrap();

    assert!(config.resources.is_empty());
}

#[test]
fn parses_pid_limit() {
    let config =
        RuntimeConfig::parse(decode(r#"{"resources":{"pids":{"max":16}}}"#), &config_path())
            .unwrap();

    assert_eq!(config.resources.pids.unwrap().max, 16);
}

#[test]
fn rejects_unknown_fields() {
    let error =
        RuntimeConfig::parse(decode(r#"{"resources":{"pid":{"max":16}}}"#), &config_path())
            .unwrap_err();

    assert_eq!(error.kind, ErrorKind::InvalidData);
    assert!(error.message.contains("unknown field `pid`"));
}

#[test]
fn rejects_zero_pid_limit() {
    let error =
        RuntimeConfig::parse(decode(r#"{"resources":{"pids":{"max":0}}}"#), &config_path())
            .unwrap_err();

    assert_eq!(error.kind, ErrorKind::InvalidData);
    assert!(error.message.contains("must be greater than zero"));
}

#[test]
fn a_zero_limit_is_named_with_its_file() {
    let file = ConfigFile {
        resources: ResourceConfig {
            pids: Some(PidsConfig { max: 0 }),
        },
    };
    let error = file.validate(&config_path()).unwrap_err();
    assert_eq!(error.kind, ErrorKind::InvalidData);
    assert_eq!(
        error.message,
        "invalid config test-config.json: resources.pids.max must be greater than zero"
    );
    assert_eq!(error.raw_os_error, None);
}

#[test]
fn an_empty_configuration_limits_nothing() {
    let config = RuntimeConfig::parse(decode("{}"), &config_path()).unwrap();
    assert!(config.resources.is_empty());
    assert_eq!(config, RuntimeConfig::default());
}

#[test]
fn an_unreadable_file_keeps_the_kind_of_its_failure() {
    let source = ConfigSource {
        path: config_path(),
        contents: ConfigContents::Unreadable(IoError {
            kind: ErrorKind::NotFound,
            raw_os_error: Some(2),
            message: "No such file or directory (os error 2)".to_owned(),
        }),
    };
    let error = RuntimeConfig::load(Some(source)).unwrap_err();
    assert_eq!(error.kind, ErrorKind::NotFound);
    assert_eq!(error.raw_os_error, None);
    assert_eq!(
        error.message,
        "failed to read config test-config.json: No such file or directory (os error 2)"
    );
}

#[test]
fn a_malformed_file_is_invalid_data() {
    let source = ConfigSource {
        path: config_path(),
        contents: ConfigContents::Undecodable(decode("{").unwrap_err()),
    };
    let error = RuntimeConfig::load(Some(source)).unwrap_err();
    assert_eq!(error.kind, ErrorKind::InvalidData);
    assert!(error
        .message
        .starts_with("failed to parse config test-config.json: EOF while parsing"));
}

#[test]
fn a_good_file_is_the_policy() {
    let source = ConfigSource {
        path: config_path(),
        contents: ConfigContents::Decoded(
            decode(r#"{"resources":{"pids":{"max":18446744073709551615}}}"#).unwrap(),
        ),
    };
    let config = RuntimeConfig::load(Some(source)).unwrap();
    assert_eq!(config.resources.pids, Some(PidsConfig { max: u64::MAX }));
}
