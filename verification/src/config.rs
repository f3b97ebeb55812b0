//! The resource policy of a run.

use crate::error::{reported, ErrorKind, IoError, IoErrorView};
use crate::path::UnixPath;
use crate::text::{
    differ_only_in_reason, display, lemma_differ_only_in_reason, lossy_text, tells, text_of_two,
};
use vstd::prelude::*;

verus! {

/// How many processes a container may have.
#[derive(Clone, Copy, Debug, PartialEq, Eq, Structural)]
pub struct PidsConfig {
    pub max: u64,
}

/// The resources that are limited.
#[derive(Clone, Copy, Debug, PartialEq, Eq, Structural)]
pub struct ResourceConfig {
    pub pids: Option<PidsConfig>,
}

/// What a configuration file says.
#[derive(Clone, Copy, Debug, PartialEq, Eq, Structural)]
pub struct ConfigFile {
    pub resources: ResourceConfig,
}

/// The policy that a run follows.
#[derive(Clone, Copy, Debug, PartialEq, Eq, Structural)]
pub struct RuntimeConfig {
    pub resources: ResourceConfig,
}

/// What came of reading a configuration file.
#[derive(Debug)]
pub enum ConfigContents {
    /// The file could not be read.
    Unreadable(IoError),
    /// The file is not a configuration; the text says why.
    Undecodable(String),
    /// What the file says.
    Decoded(ConfigFile),
}

/// A configuration file: where it stands and what came of reading it.
#[derive(Debug)]
pub struct ConfigSource {
    pub path: UnixPath,
    pub contents: ConfigContents,
}

impl Default for ResourceConfig {
    fn default() -> (resources: Self)
        ensures
            resources.pids is None,
    {
        ResourceConfig { pids: None }
    }
}

impl Default for ConfigFile {
    fn default() -> (file: Self)
        ensures
            file.resources.pids is None,
    {
        ConfigFile { resources: ResourceConfig::default() }
    }
}

impl Default for RuntimeConfig {
    fn default() -> (config: Self)
        ensures
            config.resources.pids is None,
    {
        RuntimeConfig { resources: ResourceConfig::default() }
    }
}

impl ResourceConfig {
    /// Whether nothing is limited.
    pub open spec fn spec_is_empty(&self) -> bool {
        self.pids is None
    }

    /// Whether every limit leaves room for something.
    pub open spec fn is_satisfiable(&self) -> bool {
        self.pids matches Some(pids) ==> pids.max > 0
    }

    /// Whether nothing is limited.
    pub fn is_empty(&self) -> (empty: bool)
        ensures
            empty == self.spec_is_empty(),
    {
        self.pids.is_none()
    }
}

/// The complaint about the configuration at `path` whose limit leaves no room.
pub open spec fn zero_limit(path: Seq<u8>) -> IoErrorView {
    reported(
        ErrorKind::InvalidData,
        "invalid config "@ + lossy_text(path)
            + ": resources.pids.max must be greater than zero"@,
    )
}

/// The complaint about the configuration at `path` that cannot be decoded.
pub open spec fn undecodable(path: Seq<u8>, text: Seq<char>) -> IoErrorView {
    reported(
        ErrorKind::InvalidData,
        "failed to parse config "@ + lossy_text(path) + ": "@ + text,
    )
}

/// The complaint about the configuration at `path` that cannot be read.
pub open spec fn unreadable(path: Seq<u8>, error: IoErrorView) -> IoErrorView {
    reported(error.kind, "failed to read config "@ + lossy_text(path) + ": "@ + error.message)
}

/// The policy that a file's contents give, or the complaint about them.
pub open spec fn policy_of(path: Seq<u8>, file: ConfigFile) -> Result<RuntimeConfig, IoErrorView> {
    if file.resources.is_satisfiable() {
        Ok(RuntimeConfig { resources: file.resources })
    } else {
        Err(zero_limit(path))
    }
}

/// The policy of a run whose configuration file stands at `path` and was read so.
pub open spec fn policy_at(path: Seq<u8>, contents: ConfigContents) -> Result<
    RuntimeConfig,
    IoErrorView,
> {
    match contents {
        ConfigContents::Unreadable(error) => Err(unreadable(path, error@)),
        ConfigContents::Undecodable(text) => Err(undecodable(path, text@)),
        ConfigContents::Decoded(file) => policy_of(path, file),
    }
}

/// The policy of a run with the given configuration file, if it has one.
pub open spec fn policy(source: Option<ConfigSource>) -> Result<RuntimeConfig, IoErrorView> {
    match source {
        None => Ok(RuntimeConfig { resources: ResourceConfig { pids: None } }),
        Some(source) => policy_at(source.path@, source.contents),
    }
}

/// Whether a result is the given policy or the given complaint.
pub open spec fn is_policy(
    result: Result<RuntimeConfig, IoError>,
    wanted: Result<RuntimeConfig, IoErrorView>,
) -> bool {
    match wanted {
        Ok(config) => result == Ok::<RuntimeConfig, IoError>(config),
        Err(complaint) => result matches Err(error) && error@ == complaint,
    }
}

impl ConfigFile {
    /// Accepts a file whose limits all leave room for something.
    pub fn validate(&self, path: &UnixPath) -> (result: Result<(), IoError>)
        ensures
            self.resources.is_satisfiable() ==> result is Ok,
            !self.resources.is_satisfiable() ==> (result matches Err(error) && error@
                == zero_limit(path@)),
    {
        match self.resources.pids {
            Some(pids) if pids.max == 0 => {
                let mut message = text_of_two("invalid config ", display(path).as_str());
                message.append(": resources.pids.max must be greater than zero");
                Err(IoError::new(ErrorKind::InvalidData, message))
            },
            _ => Ok(()),
        }
    }
}

impl RuntimeConfig {
    /// The policy of a run with the given configuration file. Without a file
    /// nothing is limited.
    pub fn load(source: Option<ConfigSource>) -> (result: Result<RuntimeConfig, IoError>)
        ensures
            is_policy(result, policy(source)),
    {
        let source = match source {
            None => return Ok(RuntimeConfig::default()),
            Some(source) => source,
        };
        match source.contents {
            ConfigContents::Unreadable(error) => {
                let mut message = text_of_two(
                    "failed to read config ",
                    display(&source.path).as_str(),
                );
                message.append(": ");
                message.append(error.message.as_str());
                Err(IoError::new(error.kind, message))
            },
            ConfigContents::Undecodable(text) => Self::parse(Err(text), &source.path),
            ConfigContents::Decoded(file) => Self::parse(Ok(file), &source.path),
        }
    }

    /// The policy that a decoded file gives.
    pub fn parse(decoded: Result<ConfigFile, String>, path: &UnixPath) -> (result: Result<
        RuntimeConfig,
        IoError,
    >)
        ensures
            match decoded {
                Ok(file) => is_policy(result, policy_of(path@, file)),
                Err(text) => is_policy(result, Err(undecodable(path@, text@))),
            },
    {
        let config = match decoded {
            Ok(config) => config,
            Err(text) => {
                let mut message = text_of_two("failed to parse config ", display(path).as_str());
                message.append(": ");
                message.append(text.as_str());
                return Err(IoError::new(ErrorKind::InvalidData, message));
            },
        };
        match config.validate(path) {
            Ok(_) => Ok(RuntimeConfig { resources: config.resources }),
            Err(error) => Err(error),
        }
    }
}

/// Limits are opt-in and never zero: a run without a configuration file is not
/// limited at all, and a policy that is accepted leaves room for a process.
pub proof fn law_policies_are_opt_in_and_satisfiable(source: Option<ConfigSource>)
    ensures
        source is None ==> (policy(source) matches Ok(config)
            && config.resources.spec_is_empty()),
        policy(source) matches Ok(config) ==> config.resources.is_satisfiable(),
{
}

/// A limit is refused exactly if it is zero, as invalid data. Otherwise the policy limits
/// what the file limits, by the same number, and nothing else.
pub proof fn law_exactly_a_limit_of_zero_is_refused(path: Seq<u8>, file: ConfigFile)
    ensures
        match file.resources.pids {
            Some(pids) => if pids.max == 0 {
                policy_at(path, ConfigContents::Decoded(file)) matches Err(error) && error.kind
                    == ErrorKind::InvalidData && error.raw_os_error is None
            } else {
                policy_at(path, ConfigContents::Decoded(file)) matches Ok(config)
                    && config.resources.pids == Some(PidsConfig { max: pids.max })
            },
            None => policy_at(path, ConfigContents::Decoded(file)) matches Ok(config)
                && config.resources.pids is None,
        },
{
}

/// A file that cannot be read is never a policy: the complaint has the kind of the failure,
/// names the file and ends with the reason, and is otherwise always the same. So it is with
/// a file that cannot be decoded, which is invalid data.
pub proof fn law_a_bad_file_is_refused_with_its_reason(
    path: Seq<u8>,
    error: IoError,
    other_error: IoError,
    text: String,
    other_text: String,
    zero: ConfigFile,
)
    requires
        zero.resources.pids == Some(PidsConfig { max: 0 }),
    ensures
        policy_at(path, ConfigContents::Unreadable(error)) matches Err(complaint) && (policy_at(
            path,
            ConfigContents::Unreadable(other_error),
        ) matches Err(other) && {
            &&& complaint.kind == error.kind
            &&& complaint.raw_os_error is None
            &&& tells(complaint.message, lossy_text(path))
            &&& differ_only_in_reason(
                complaint.message,
                error.message@,
                other.message,
                other_error.message@,
            )
        }),
        policy_at(path, ConfigContents::Undecodable(text)) matches Err(complaint) && (policy_at(
            path,
            ConfigContents::Undecodable(other_text),
        ) matches Err(other) && {
            &&& complaint.kind == ErrorKind::InvalidData
            &&& complaint.raw_os_error is None
            &&& tells(complaint.message, lossy_text(path))
            &&& differ_only_in_reason(complaint.message, text@, other.message, other_text@)
        }),
        policy_at(path, ConfigContents::Decoded(zero)) matches Err(complaint) && tells(
            complaint.message,
            lossy_text(path),
        ),
{
    let shown = lossy_text(path);
    let unread = "failed to read config "@;
    let unparsed = "failed to parse config "@;
    lemma_differ_only_in_reason(unread + shown + ": "@, error.message@, other_error.message@);
    lemma_differ_only_in_reason(unparsed + shown + ": "@, text@, other_text@);
    assert(unread + shown + ": "@ + error.message@ =~= unread + shown + (": "@ + error.message@));
    assert(unparsed + shown + ": "@ + text@ =~= unparsed + shown + (": "@ + text@));
    assert(zero_limit(path).message == "invalid config "@ + shown
        + ": resources.pids.max must be greater than zero"@);
}

} // verus!
