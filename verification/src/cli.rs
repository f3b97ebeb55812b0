//! The command line: what a run is asked for, and which hostnames and bind
//! mounts are acceptable.

use crate::path::{
    components, is_absolute, is_within, lemma_names_single, lemma_names_split, names, parent_name,
    same_bytes, UnixPath, SLASH,
};
use crate::text::{ends_with, lemma_ends_with, lemma_tells, read_lossily, tells};
use vstd::prelude::*;
use vstd::slice::{slice_subrange, slice_to_vec};

verus! {

pub const MAX_HOSTNAME_LEN: usize = 64;

/// Where the old root stands while the container's root is put in place. Nothing
/// can be mounted there.
pub const OLD_ROOT_PATH: &'static str = "/oldroot";

pub const COLON: u8 = 0x3a;

pub const HYPHEN: u8 = 0x2d;

pub const FULL_STOP: u8 = 0x2e;

/// One run of the runtime, as the command line asks for it.
#[derive(Debug)]
pub struct Cli {
    pub operation: String,
    pub rootfs: UnixPath,
    pub hostname: Option<String>,
    pub bind_mounts: Vec<BindMount>,
    pub config: Option<UnixPath>,
    pub init: bool,
    pub command_tokens: Vec<String>,
}

/// A path of the host and the place in the container where it appears.
#[derive(Debug, PartialEq)]
pub struct BindMount {
    pub source: UnixPath,
    pub destination: UnixPath,
}

#[verifier::ext_equal]
pub struct BindMountView {
    pub source: Seq<u8>,
    pub destination: Seq<u8>,
}

impl View for BindMount {
    type V = BindMountView;

    open spec fn view(&self) -> BindMountView {
        BindMountView { source: self.source@, destination: self.destination@ }
    }
}

impl Clone for BindMount {
    fn clone(&self) -> (bind_mount: Self)
        ensures
            bind_mount@ == self@,
    {
        BindMount { source: self.source.clone(), destination: self.destination.clone() }
    }
}

/// The view of a hostname that may not be there.
pub open spec fn hostname_view(hostname: Option<String>) -> Option<Seq<char>> {
    match hostname {
        Some(hostname) => Some(hostname@),
        None => None,
    }
}

#[verifier::ext_equal]
pub struct CliView {
    pub operation: Seq<char>,
    pub rootfs: Seq<u8>,
    pub hostname: Option<Seq<char>>,
    pub bind_mounts: Seq<BindMountView>,
    pub config: Option<Seq<u8>>,
    pub init: bool,
    pub command_tokens: Seq<Seq<char>>,
}

impl View for Cli {
    type V = CliView;

    open spec fn view(&self) -> CliView {
        CliView {
            operation: self.operation@,
            rootfs: self.rootfs@,
            hostname: hostname_view(self.hostname),
            bind_mounts: self.bind_mounts@.map_values(|bind_mount: BindMount| bind_mount@),
            config: match self.config {
                Some(config) => Some(config@),
                None => None,
            },
            init: self.init,
            command_tokens: self.command_tokens@.map_values(|token: String| token@),
        }
    }
}

/// Whether the last colon of `value` stands at `colon`.
pub open spec fn is_last_colon(value: Seq<u8>, colon: int) -> bool {
    &&& 0 <= colon < value.len()
    &&& value[colon] == COLON
    &&& forall|i: int| colon < i < value.len() ==> value[i] != COLON
}

pub open spec fn old_root() -> Seq<u8> {
    vstd::utf8::encode_utf8(OLD_ROOT_PATH@)
}

/// What is wrong with the place in the container where something is to be
/// mounted: the first objection that applies.
pub open spec fn destination_objection(destination: Seq<u8>) -> Option<Seq<char>> {
    if !is_absolute(destination) {
        Some("mount container path must be absolute"@)
    } else if components(destination).contains(parent_name()) {
        Some("mount container path must not contain '..'"@)
    } else if components(destination) == seq![seq![SLASH]] {
        Some("mount container path must not replace the container root"@)
    } else if is_within(destination, old_root()) {
        Some("mount container path must not use reserved path "@ + OLD_ROOT_PATH@)
    } else {
        None
    }
}

/// The bind mount that a text asks for, or what is wrong with the text.
pub open spec fn bind_mount_of(value: Seq<u8>) -> Result<BindMountView, Seq<char>> {
    let colon = choose|colon: int| is_last_colon(value, colon);
    let source = value.take(colon);
    let destination = value.skip(colon + 1);
    if !value.contains(COLON) {
        Err("mount must use host_path:container_path syntax"@)
    } else if source.len() == 0 {
        Err("mount host path must not be empty"@)
    } else {
        match destination_objection(destination) {
            Some(message) => Err(message),
            None => Ok(BindMountView { source, destination }),
        }
    }
}

/// Where the last colon stands.
fn last_colon(value: &[u8]) -> (position: Option<usize>)
    ensures
        match position {
            Some(colon) => is_last_colon(value@, colon as int) && value@.contains(COLON),
            None => !value@.contains(COLON),
        },
{
    let mut end = value.len();
    while end > 0
        invariant
            end <= value@.len(),
            forall|i: int| end <= i < value@.len() ==> value@[i] != COLON,
        decreases end,
    {
        end = end - 1;
        if value[end] == COLON {
            return Some(end);
        }
    }
    None
}

/// Reads a bind mount, written `host_path:container_path`. The last colon
/// separates the two.
pub fn parse_bind_mount(value: &str) -> (result: Result<BindMount, String>)
    ensures
        match bind_mount_of(vstd::utf8::encode_utf8(value@)) {
            Ok(mount) => result matches Ok(bind_mount) && bind_mount@ == mount,
            Err(text) => result matches Err(message) && message@ == text,
        },
{
    let bytes = value.as_bytes();
    let colon = match last_colon(bytes) {
        Some(colon) => colon,
        None => return Err("mount must use host_path:container_path syntax".to_owned()),
    };
    proof {
        let chosen = choose|colon: int| is_last_colon(bytes@, colon);
        assert(is_last_colon(bytes@, colon as int));
        assert(is_last_colon(bytes@, chosen));
        assert(chosen == colon);
    }
    let source = slice_subrange(bytes, 0, colon);
    assert(source@ =~= bytes@.take(colon as int));
    if source.is_empty() {
        return Err("mount host path must not be empty".to_owned());
    }
    let total = bytes.len();
    let rest = slice_subrange(bytes, colon + 1, total);
    assert(rest@ =~= bytes@.skip(colon + 1));
    let destination = UnixPath::new(slice_to_vec(rest));
    if !destination.is_absolute() {
        return Err("mount container path must be absolute".to_owned());
    }
    if destination.has_parent_component() {
        return Err("mount container path must not contain '..'".to_owned());
    }
    if destination.is_root() {
        return Err("mount container path must not replace the container root".to_owned());
    }
    if destination.starts_with(&UnixPath::from_text(OLD_ROOT_PATH)) {
        return Err(
            crate::text::text_of_two(
                "mount container path must not use reserved path ",
                OLD_ROOT_PATH,
            ),
        );
    }
    Ok(BindMount { source: UnixPath::new(slice_to_vec(source)), destination })
}

/// Whether a byte may stand in a hostname.
pub open spec fn is_hostname_byte(byte: u8) -> bool {
    ||| 0x30 <= byte <= 0x39
    ||| 0x41 <= byte <= 0x5a
    ||| 0x61 <= byte <= 0x7a
    ||| byte == HYPHEN
    ||| byte == FULL_STOP
}

/// Whether a label of the hostname begins at `start`.
pub open spec fn label_begins(name: Seq<u8>, start: int) -> bool {
    start == 0 || name[start - 1] == FULL_STOP
}

/// Whether a label of the hostname ends just before `end`.
pub open spec fn label_ends(name: Seq<u8>, end: int) -> bool {
    end == name.len() || name[end] == FULL_STOP
}

/// Whether no label, that is no text between full stops, is empty or begins or
/// ends with a hyphen.
pub open spec fn has_good_labels(name: Seq<u8>) -> bool {
    forall|i: int|
        #![trigger label_begins(name, i)]
        #![trigger label_ends(name, i)]
        0 <= i <= name.len() ==> {
            &&& label_begins(name, i) ==> !label_ends(name, i) && name[i] != HYPHEN
            &&& label_ends(name, i) ==> !label_begins(name, i) && name[i - 1] != HYPHEN
        }
}

/// What is wrong with a hostname: the first objection that applies.
pub open spec fn hostname_objection(name: Seq<u8>) -> Option<Seq<char>> {
    if name.len() == 0 {
        Some("hostname must not be empty"@)
    } else if name.len() > MAX_HOSTNAME_LEN {
        Some("hostname must be at most "@ + crate::text::decimal(MAX_HOSTNAME_LEN as nat) + " bytes"@)
    } else if exists|i: int| 0 <= i < name.len() && !is_hostname_byte(#[trigger] name[i]) {
        Some("hostname may contain only letters, digits, '-' and '.'"@)
    } else if !has_good_labels(name) {
        Some("hostname labels must not be empty or start/end with '-'"@)
    } else {
        None
    }
}

fn hostname_byte(byte: u8) -> (good: bool)
    ensures
        good == is_hostname_byte(byte),
{
    (0x30 <= byte && byte <= 0x39) || (0x41 <= byte && byte <= 0x5a) || (0x61 <= byte && byte
        <= 0x7a) || byte == HYPHEN || byte == FULL_STOP
}

fn good_labels(name: &[u8]) -> (good: bool)
    ensures
        good == has_good_labels(name@),
{
    let mut i: usize = 0;
    loop
        invariant
            i <= name@.len(),
            forall|j: int|
                #![trigger label_begins(name@, j)]
                #![trigger label_ends(name@, j)]
                0 <= j < i ==> {
                    &&& label_begins(name@, j) ==> !label_ends(name@, j) && name@[j] != HYPHEN
                    &&& label_ends(name@, j) ==> !label_begins(name@, j) && name@[j - 1] != HYPHEN
                },
        decreases name@.len() - i,
    {
        let begins = i == 0 || name[i - 1] == FULL_STOP;
        let ends = i == name.len() || name[i] == FULL_STOP;
        assert(begins == label_begins(name@, i as int));
        assert(ends == label_ends(name@, i as int));
        if begins && (ends || name[i] == HYPHEN) {
            return false;
        }
        if ends && name[i - 1] == HYPHEN {
            return false;
        }
        if i == name.len() {
            return true;
        }
        i = i + 1;
    }
}

/// The hostname that is kept, or what is wrong with it.
pub open spec fn validated_hostname(hostname: Seq<char>) -> Result<Seq<char>, Seq<char>> {
    match hostname_objection(vstd::utf8::encode_utf8(hostname)) {
        None => Ok(hostname),
        Some(text) => Err(text),
    }
}

/// Accepts a hostname as it is, or says what is wrong with it.
pub fn validate_hostname(value: &str) -> (result: Result<String, String>)
    ensures
        match hostname_objection(vstd::utf8::encode_utf8(value@)) {
            None => result matches Ok(hostname) && hostname@ == value@,
            Some(text) => result matches Err(message) && message@ == text,
        },
        match validated_hostname(value@) {
            Ok(kept) => result matches Ok(hostname) && hostname@ == kept,
            Err(text) => result matches Err(message) && message@ == text,
        },
{
    let bytes = value.as_bytes();
    if bytes.is_empty() {
        return Err("hostname must not be empty".to_owned());
    }
    if bytes.len() > MAX_HOSTNAME_LEN {
        let mut message = crate::text::text_of_two(
            "hostname must be at most ",
            crate::text::decimal_text(MAX_HOSTNAME_LEN as u128).as_str(),
        );
        message.append(" bytes");
        return Err(message);
    }
    let mut i: usize = 0;
    while i < bytes.len()
        invariant
            i <= bytes@.len(),
            0 < bytes@.len() <= MAX_HOSTNAME_LEN,
            bytes@ == vstd::utf8::encode_utf8(value@),
            forall|j: int| 0 <= j < i ==> is_hostname_byte(#[trigger] bytes@[j]),
        decreases bytes@.len() - i,
    {
        if !hostname_byte(bytes[i]) {
            return Err("hostname may contain only letters, digits, '-' and '.'".to_owned());
        }
        i = i + 1;
    }
    if !good_labels(bytes) {
        return Err("hostname labels must not be empty or start/end with '-'".to_owned());
    }
    Ok(value.to_owned())
}

/// The name of the directory that holds the old root.
pub open spec fn old_root_name() -> Seq<u8> {
    seq![0x6f, 0x6c, 0x64, 0x72, 0x6f, 0x6f, 0x74]
}

/// `/oldroot` is the root and one name.
pub(crate) proof fn lemma_old_root()
    ensures
        old_root() == seq![SLASH] + old_root_name(),
        components(old_root()) == seq![seq![SLASH], old_root_name()],
{
    reveal_strlit("/oldroot");
    let text = OLD_ROOT_PATH@;
    assert(vstd::utf8::is_ascii_chars(text));
    vstd::utf8::is_ascii_chars_encode_utf8(text);
    assert(old_root() =~= seq![SLASH] + old_root_name());
    assert(old_root() =~= Seq::<u8>::empty() + seq![SLASH] + old_root_name());
    lemma_names_split(Seq::empty(), old_root_name());
    lemma_names_single(old_root_name());
    assert(components(old_root()) =~= seq![seq![SLASH], old_root_name()]);
}

/// A bind mount that is accepted has a source, and a destination that is an
/// absolute path without `..` which is neither the container's root nor
/// `/oldroot` nor anything below it. Source and destination are what stands on
/// either side of a colon, and the destination holds no colon.
pub proof fn law_accepted_bind_mount(value: Seq<u8>)
    ensures
        bind_mount_of(value) matches Ok(mount) ==> {
            &&& value == mount.source + seq![COLON] + mount.destination
            &&& !mount.destination.contains(COLON)
            &&& mount.source.len() > 0
            &&& is_absolute(mount.destination)
            &&& !names(mount.destination).contains(parent_name())
            &&& names(mount.destination).len() > 0
            &&& names(mount.destination)[0] != old_root_name()
        },
{
    if let Ok(mount) = bind_mount_of(value) {
        let colon = choose|colon: int| is_last_colon(value, colon);
        assert(exists|colon: int| is_last_colon(value, colon)) by {
            value.index_of_last_ensures(COLON);
            let last = value.index_of_last(COLON)->0;
            assert(is_last_colon(value, last));
        }
        let destination = mount.destination;
        assert(value =~= mount.source + seq![COLON] + destination);
        assert(!destination.contains(COLON)) by {
            assert(forall|i: int|
                0 <= i < destination.len() ==> destination[i] == value[colon + 1 + i]);
        }
        let all = components(destination);
        assert(all == seq![seq![SLASH]] + names(destination));
        if names(destination).contains(parent_name()) {
            let i = choose|i: int|
                0 <= i < names(destination).len() && names(destination)[i] == parent_name();
            assert(all[i + 1] == parent_name());
        }
        if names(destination).len() == 0 {
            assert(all =~= seq![seq![SLASH]]);
        }
        lemma_old_root();
        if names(destination)[0] == old_root_name() {
            assert(all.subrange(0, 2) =~= components(old_root()));
        }
    }
}

/// A hostname that is accepted is at most 64 bytes of letters, digits, hyphens
/// and full stops, begins and ends with a letter or a digit, and nowhere has two
/// full stops in a row or a hyphen beside a full stop.
pub proof fn law_accepted_hostname(name: Seq<u8>)
    ensures
        hostname_objection(name) is None <==> {
            &&& 0 < name.len() <= 64
            &&& forall|i: int| 0 <= i < name.len() ==> is_hostname_byte(#[trigger] name[i])
            &&& name[0] != HYPHEN && name[0] != FULL_STOP
            &&& name.last() != HYPHEN && name.last() != FULL_STOP
            &&& forall|i: int|
                0 < i < name.len() && #[trigger] name[i] == FULL_STOP ==> name[i - 1] != FULL_STOP
                    && name[i - 1] != HYPHEN && name[i + 1] != HYPHEN
        },
{
    if 0 < name.len() {
        if has_good_labels(name) {
            assert(label_begins(name, 0));
            assert(label_ends(name, name.len() as int));
            assert forall|i: int|
                0 < i < name.len() && #[trigger] name[i] == FULL_STOP implies name[i - 1]
                != FULL_STOP && name[i - 1] != HYPHEN && name[i + 1] != HYPHEN by {
                assert(label_ends(name, i));
                assert(label_begins(name, i + 1));
            }
        }
    }
}

/// A bind mount as it is written on the command line.
pub open spec fn mount_value(mount: BindMountView) -> Seq<u8> {
    mount.source + seq![COLON] + mount.destination
}

/// What is wrong with a bind mount: it cannot be written, or what is written for it is
/// refused or is another bind mount.
pub open spec fn mount_objection(mount: BindMountView) -> Option<Seq<char>> {
    if !vstd::utf8::valid_utf8(mount_value(mount)) {
        Some("mount must be valid UTF-8"@)
    } else {
        match bind_mount_of(mount_value(mount)) {
            Err(text) => Some(text),
            Ok(read) => if read == mount {
                None
            } else {
                Some("mount must use host_path:container_path syntax"@)
            },
        }
    }
}

/// What is wrong with bind mounts: the objection to the first that is not good.
pub open spec fn mounts_objection(mounts: Seq<BindMountView>) -> Option<Seq<char>>
    decreases mounts.len(),
{
    if mounts.len() == 0 {
        None
    } else {
        match mount_objection(mounts[0]) {
            Some(text) => Some(text),
            None => mounts_objection(mounts.drop_first()),
        }
    }
}

/// What is wrong with a run: its hostname, then its bind mounts, then its operation.
pub open spec fn run_objection(run: CliView) -> Option<Seq<char>> {
    let about_hostname = match run.hostname {
        Some(hostname) => hostname_objection(vstd::utf8::encode_utf8(hostname)),
        None => None,
    };
    match (about_hostname, mounts_objection(run.bind_mounts)) {
        (Some(text), _) => Some(text),
        (None, Some(text)) => Some(text),
        (None, None) => if run.operation != "run"@ {
            Some("only supported operation is run"@)
        } else {
            None
        },
    }
}

fn same_mount(left: &BindMount, right: &BindMount) -> (same: bool)
    ensures
        same == (left@ == right@),
{
    let same = same_bytes(left.source.as_bytes(), right.source.as_bytes()) && same_bytes(
        left.destination.as_bytes(),
        right.destination.as_bytes(),
    );
    assert(same ==> left@ =~= right@);
    same
}

/// Accepts a bind mount that reads back as itself.
fn check_mount(bind_mount: &BindMount) -> (result: Result<(), String>)
    ensures
        match mount_objection(bind_mount@) {
            None => result is Ok,
            Some(text) => result matches Err(message) && message@ == text,
        },
{
    let mut value: Vec<u8> = Vec::new();
    value.extend_from_slice(bind_mount.source.as_bytes());
    assert(value@ =~= bind_mount.source@);
    value.push(COLON);
    let ghost front = value@;
    value.extend_from_slice(bind_mount.destination.as_bytes());
    assert(value@ =~= front + bind_mount.destination@);
    assert(value@ =~= mount_value(bind_mount@));
    let text = read_lossily(value.as_slice());
    let readable = same_bytes(text.as_str().as_bytes(), value.as_slice());
    proof {
        vstd::utf8::encode_utf8_valid_utf8(text@);
        if vstd::utf8::valid_utf8(value@) {
            vstd::utf8::decode_utf8_encode_utf8(value@);
        }
    }
    if !readable {
        return Err("mount must be valid UTF-8".to_owned());
    }
    match parse_bind_mount(text.as_str()) {
        Err(message) => Err(message),
        Ok(read) => {
            if same_mount(&read, bind_mount) {
                Ok(())
            } else {
                Err("mount must use host_path:container_path syntax".to_owned())
            }
        },
    }
}

/// The run that is kept, or what is wrong with it.
pub open spec fn parsed_run(run: CliView) -> Result<CliView, Seq<char>> {
    match run_objection(run) {
        None => Ok(run),
        Some(text) => Err(text),
    }
}

/// Accepts a run as it is, or says what is wrong with it. A run that is read from a
/// command line has its hostname and its bind mounts from [`validate_hostname`] and
/// [`parse_bind_mount`], and then only the operation, which must be `run`, is in question.
pub fn parse_cli(cli: Cli) -> (result: Result<Cli, String>)
    ensures
        match run_objection(cli@) {
            None => result == Ok::<Cli, String>(cli),
            Some(text) => result matches Err(message) && message@ == text,
        },
        match parsed_run(cli@) {
            Ok(kept) => result matches Ok(parsed) && parsed@ == kept,
            Err(text) => result matches Err(message) && message@ == text,
        },
{
    if let Some(hostname) = &cli.hostname {
        if let Err(message) = validate_hostname(hostname.as_str()) {
            return Err(message);
        }
    }
    let ghost mounts = cli@.bind_mounts;
    let mut i: usize = 0;
    assert(mounts.skip(0) =~= mounts);
    while i < cli.bind_mounts.len()
        invariant
            i <= cli.bind_mounts@.len(),
            mounts == cli@.bind_mounts,
            mounts_objection(mounts.skip(i as int)) == mounts_objection(mounts),
            cli@.hostname matches Some(hostname) ==> hostname_objection(
                vstd::utf8::encode_utf8(hostname),
            ) is None,
        decreases cli.bind_mounts@.len() - i,
    {
        assert(mounts.skip(i as int)[0] == cli.bind_mounts@[i as int]@);
        assert(mounts.skip(i as int).drop_first() =~= mounts.skip(i + 1));
        if let Err(message) = check_mount(&cli.bind_mounts[i]) {
            return Err(message);
        }
        i = i + 1;
    }
    if cli.operation == "run".to_owned() {
        Ok(cli)
    } else {
        Err("only supported operation is run".to_owned())
    }
}

/// A run that is accepted has the operation `run`, a hostname, if it has one, that is
/// accepted by itself, and bind mounts each of which is what its own text reads as.
pub proof fn law_an_accepted_run_holds_accepted_parts(run: CliView)
    requires
        run_objection(run) is None,
    ensures
        run.operation == "run"@,
        run.hostname matches Some(hostname) ==> hostname_objection(
            vstd::utf8::encode_utf8(hostname),
        ) is None,
        forall|i: int|
            #![trigger run.bind_mounts[i]]
            0 <= i < run.bind_mounts.len() ==> {
                let mount = run.bind_mounts[i];
                let text = vstd::utf8::decode_utf8(mount_value(mount));
                &&& vstd::utf8::encode_utf8(text) == mount_value(mount)
                &&& bind_mount_of(vstd::utf8::encode_utf8(text)) == Ok::<BindMountView, Seq<char>>(
                    mount,
                )
            },
{
    assert forall|i: int|
        #![trigger run.bind_mounts[i]]
        0 <= i < run.bind_mounts.len() implies {
        let mount = run.bind_mounts[i];
        let text = vstd::utf8::decode_utf8(mount_value(mount));
        &&& vstd::utf8::encode_utf8(text) == mount_value(mount)
        &&& bind_mount_of(vstd::utf8::encode_utf8(text)) == Ok::<BindMountView, Seq<char>>(mount)
    } by {
        lemma_mounts_objection(run.bind_mounts, i);
        vstd::utf8::decode_utf8_encode_utf8(mount_value(run.bind_mounts[i]));
    }
}

proof fn lemma_mounts_objection(mounts: Seq<BindMountView>, i: int)
    requires
        mounts_objection(mounts) is None,
        0 <= i < mounts.len(),
    ensures
        mount_objection(mounts[i]) is None,
    decreases mounts.len(),
{
    if i > 0 {
        lemma_mounts_objection(mounts.drop_first(), i - 1);
    }
}

proof fn lemma_read_mounts(mounts: Seq<BindMountView>, texts: Seq<Seq<char>>)
    requires
        texts.len() == mounts.len(),
        forall|i: int|
            0 <= i < mounts.len() ==> bind_mount_of(vstd::utf8::encode_utf8(#[trigger] texts[i]))
                == Ok::<BindMountView, Seq<char>>(mounts[i]),
    ensures
        mounts_objection(mounts) is None,
    decreases mounts.len(),
{
    if mounts.len() > 0 {
        let value = vstd::utf8::encode_utf8(texts[0]);
        law_accepted_bind_mount(value);
        vstd::utf8::encode_utf8_valid_utf8(texts[0]);
        assert(value == mount_value(mounts[0]));
        let rest = texts.drop_first();
        assert forall|i: int| 0 <= i < rest.len() implies bind_mount_of(
            vstd::utf8::encode_utf8(#[trigger] rest[i]),
        ) == Ok::<BindMountView, Seq<char>>(mounts.drop_first()[i]) by {
            assert(rest[i] == texts[i + 1]);
        }
        lemma_read_mounts(mounts.drop_first(), rest);
    }
}

/// Of a run whose hostname is accepted by itself and whose bind mounts were each read
/// from a text, only the operation is in question.
pub proof fn law_only_the_operation_of_a_run_that_was_read_is_in_question(
    run: CliView,
    texts: Seq<Seq<char>>,
)
    requires
        run.hostname matches Some(hostname) ==> hostname_objection(
            vstd::utf8::encode_utf8(hostname),
        ) is None,
        texts.len() == run.bind_mounts.len(),
        forall|i: int|
            0 <= i < run.bind_mounts.len() ==> bind_mount_of(
                vstd::utf8::encode_utf8(#[trigger] texts[i]),
            ) == Ok::<BindMountView, Seq<char>>(run.bind_mounts[i]),
    ensures
        run_objection(run) == if run.operation == "run"@ {
            None
        } else {
            Some("only supported operation is run"@)
        },
{
    lemma_read_mounts(run.bind_mounts, texts);
}

proof fn lemma_bind_mount_of(source: Seq<u8>, destination: Seq<u8>)
    requires
        !destination.contains(COLON),
    ensures
        bind_mount_of(source + seq![COLON] + destination) == if source.len() == 0 {
            Err("mount host path must not be empty"@)
        } else {
            match destination_objection(destination) {
                Some(message) => Err(message),
                None => Ok(BindMountView { source, destination }),
            }
        },
{
    let value = source + seq![COLON] + destination;
    let at = source.len() as int;
    assert(value[at] == COLON);
    assert(is_last_colon(value, at)) by {
        assert forall|i: int| at < i < value.len() implies value[i] != COLON by {
            assert(value[i] == destination[i - at - 1]);
        }
    }
    let colon = choose|colon: int| is_last_colon(value, colon);
    assert(colon == at);
    assert(value.take(at) =~= source);
    assert(value.skip(at + 1) =~= destination);
}

proof fn lemma_destination(destination: Seq<u8>)
    requires
        is_absolute(destination),
    ensures
        components(destination).contains(parent_name()) <==> names(destination).contains(
            parent_name(),
        ),
        components(destination) == seq![seq![SLASH]] <==> names(destination).len() == 0,
        is_within(destination, old_root()) <==> names(destination).len() > 0
            && names(destination)[0] == old_root_name(),
{
    let all = components(destination);
    let rest = names(destination);
    assert(all == seq![seq![SLASH]] + rest);
    assert(seq![SLASH].len() != parent_name().len());
    if rest.contains(parent_name()) {
        let i = choose|i: int| 0 <= i < rest.len() && rest[i] == parent_name();
        assert(all[i + 1] == parent_name());
    }
    if all.contains(parent_name()) {
        let i = choose|i: int| 0 <= i < all.len() && all[i] == parent_name();
        assert(i > 0);
        assert(rest[i - 1] == parent_name());
    }
    if rest.len() == 0 {
        assert(all =~= seq![seq![SLASH]]);
    } else {
        assert(all.len() > 1);
    }
    lemma_old_root();
    if rest.len() > 0 && rest[0] == old_root_name() {
        assert(all.subrange(0, 2) =~= components(old_root()));
    }
    if is_within(destination, old_root()) {
        assert(all.subrange(0, 2)[1] == components(old_root())[1]);
    }
}

/// Everything that can be mounted is: a source that is not empty, and a destination without
/// colon that is absolute, has no `..`, and names something whose first name is not that of
/// the directory for the old root, make a bind mount of exactly these two.
pub proof fn law_every_good_bind_mount_is_accepted(source: Seq<u8>, destination: Seq<u8>)
    requires
        source.len() > 0,
        !destination.contains(0x3a),
        destination.len() > 0 && destination[0] == 0x2f,
        !names(destination).contains(seq![0x2eu8, 0x2e]),
        names(destination).len() > 0,
        names(destination)[0] != seq![0x6fu8, 0x6c, 0x64, 0x72, 0x6f, 0x6f, 0x74],
    ensures
        bind_mount_of(source + seq![0x3au8] + destination) == Ok::<BindMountView, Seq<char>>(
            BindMountView { source, destination },
        ),
{
    lemma_bind_mount_of(source, destination);
    lemma_destination(destination);
}

/// Why a bind mount is refused: the first of these that applies.
pub proof fn law_a_refused_bind_mount_is_told_why(source: Seq<u8>, destination: Seq<u8>)
    requires
        !destination.contains(0x3a),
    ensures
        !source.contains(0x3a) ==> bind_mount_of(source) == Err::<BindMountView, Seq<char>>(
            "mount must use host_path:container_path syntax"@,
        ),
        ({
            let result = bind_mount_of(source + seq![0x3au8] + destination);
            let rooted = destination.len() > 0 && destination[0] == 0x2f;
            let climbs = names(destination).contains(seq![0x2eu8, 0x2e]);
            if source.len() == 0 {
                result == Err::<BindMountView, Seq<char>>("mount host path must not be empty"@)
            } else if !rooted {
                result == Err::<BindMountView, Seq<char>>("mount container path must be absolute"@)
            } else if climbs {
                result == Err::<BindMountView, Seq<char>>(
                    "mount container path must not contain '..'"@,
                )
            } else if names(destination).len() == 0 {
                result == Err::<BindMountView, Seq<char>>(
                    "mount container path must not replace the container root"@,
                )
            } else if names(destination)[0] == seq![0x6fu8, 0x6c, 0x64, 0x72, 0x6f, 0x6f, 0x74] {
                result matches Err(message) && ends_with(message, "/oldroot"@)
            } else {
                result is Ok
            }
        }),
{
    lemma_bind_mount_of(source, destination);
    if is_absolute(destination) {
        lemma_destination(destination);
    }
    lemma_ends_with("mount container path must not use reserved path "@, OLD_ROOT_PATH@);
}

/// Whether some label is empty or begins or ends with a hyphen: a hyphen or a full stop
/// stands at either end of the name, or beside a full stop.
pub open spec fn has_bad_label(name: Seq<u8>) -> bool {
    ||| name[0] == 0x2d || name[0] == 0x2e
    ||| name.last() == 0x2d || name.last() == 0x2e
    ||| exists|i: int|
        0 < i < name.len() - 1 && #[trigger] name[i] == 0x2e && (name[i - 1] == 0x2d || name[i - 1]
            == 0x2e || name[i + 1] == 0x2d || name[i + 1] == 0x2e)
}

/// Whether a byte is an ASCII letter or digit, a hyphen or a full stop.
pub open spec fn is_letter_digit_or_mark(byte: u8) -> bool {
    ||| 48 <= byte <= 57
    ||| 65 <= byte <= 90
    ||| 97 <= byte <= 122
    ||| byte == 45
    ||| byte == 46
}

/// Why a hostname is refused: the first of these that applies. A hostname to which none
/// applies is accepted.
pub proof fn law_a_refused_hostname_is_told_why(name: Seq<u8>)
    ensures
        if name.len() == 0 {
            hostname_objection(name) == Some("hostname must not be empty"@)
        } else if name.len() > 64 {
            hostname_objection(name) == Some(
                "hostname must be at most "@ + crate::text::decimal(64) + " bytes"@,
            )
        } else if exists|i: int|
            0 <= i < name.len() && !is_letter_digit_or_mark(#[trigger] name[i]) {
            hostname_objection(name) == Some(
                "hostname may contain only letters, digits, '-' and '.'"@,
            )
        } else if has_bad_label(name) {
            hostname_objection(name) == Some(
                "hostname labels must not be empty or start/end with '-'"@,
            )
        } else {
            hostname_objection(name) is None
        },
{
    law_accepted_hostname(name);
    assert(forall|byte: u8| is_hostname_byte(byte) == is_letter_digit_or_mark(byte));
    if 0 < name.len() <= 64 {
        if exists|i: int| 0 <= i < name.len() && !is_letter_digit_or_mark(#[trigger] name[i]) {
            let i = choose|i: int|
                0 <= i < name.len() && !is_letter_digit_or_mark(#[trigger] name[i]);
            assert(!is_hostname_byte(name[i]));
        } else {
            assert forall|i: int| 0 <= i < name.len() implies is_hostname_byte(
                #[trigger] name[i],
            ) by {
                assert(is_letter_digit_or_mark(name[i]));
            }
            if has_good_labels(name) {
                assert(hostname_objection(name) is None);
                assert forall|i: int|
                    0 < i < name.len() - 1 && #[trigger] name[i] == 0x2e implies name[i + 1]
                    != 0x2e by {
                    assert(label_begins(name, i + 1));
                }
                assert(!has_bad_label(name));
            } else {
                assert(hostname_objection(name) is Some);
            }
        }
    }
}

/// A run is accepted exactly if its operation is `run`, its hostname, if it has one, is
/// accepted by itself, and every bind mount is what its own text reads as.
pub proof fn law_exactly_good_runs_are_accepted(run: CliView)
    ensures
        run_objection(run) is None <==> {
            &&& run.operation == "run"@
            &&& run.hostname matches Some(hostname) ==> hostname_objection(
                vstd::utf8::encode_utf8(hostname),
            ) is None
            &&& forall|i: int|
                0 <= i < run.bind_mounts.len() ==> reads_back(#[trigger] run.bind_mounts[i])
        },
{
    if run_objection(run) is None {
        assert forall|i: int| 0 <= i < run.bind_mounts.len() implies reads_back(
            #[trigger] run.bind_mounts[i],
        ) by {
            lemma_mounts_objection(run.bind_mounts, i);
        }
    }
    if forall|i: int| 0 <= i < run.bind_mounts.len() ==> reads_back(#[trigger] run.bind_mounts[i]) {
        lemma_reading_back(run.bind_mounts);
    }
}

/// Whether the text of a bind mount reads as that bind mount.
pub open spec fn reads_back(mount: BindMountView) -> bool {
    &&& vstd::utf8::valid_utf8(mount.source + seq![0x3au8] + mount.destination)
    &&& bind_mount_of(mount.source + seq![0x3au8] + mount.destination) == Ok::<
        BindMountView,
        Seq<char>,
    >(mount)
}

proof fn lemma_reading_back(mounts: Seq<BindMountView>)
    requires
        forall|i: int| 0 <= i < mounts.len() ==> reads_back(#[trigger] mounts[i]),
    ensures
        mounts_objection(mounts) is None,
    decreases mounts.len(),
{
    if mounts.len() > 0 {
        assert(reads_back(mounts[0]));
        let rest = mounts.drop_first();
        assert forall|i: int| 0 <= i < rest.len() implies reads_back(#[trigger] rest[i]) by {
            assert(rest[i] == mounts[i + 1]);
        }
        lemma_reading_back(rest);
    }
}

/// A hostname that is accepted is kept as it is, and so is a run.
pub proof fn law_what_is_accepted_is_kept_as_it_is(hostname: Seq<char>, run: CliView)
    ensures
        validated_hostname(hostname) matches Ok(kept) ==> kept == hostname,
        validated_hostname(hostname) is Ok <==> hostname_objection(
            vstd::utf8::encode_utf8(hostname),
        ) is None,
        parsed_run(run) matches Ok(kept) ==> kept == run,
        parsed_run(run) is Ok <==> run_objection(run) is None,
{
}

/// What a refused run is told is the first that is wrong with it: its hostname, then the
/// first of its bind mounts that is refused, then its operation.
pub proof fn law_the_first_thing_that_is_wrong_is_told(run: CliView, first: int)
    ensures
        run.hostname matches Some(hostname) ==> (hostname_objection(
            vstd::utf8::encode_utf8(hostname),
        ) matches Some(text) ==> run_objection(run) == Some(text)),
        ({
            let is_named_well = run.hostname matches Some(hostname) ==> hostname_objection(
                vstd::utf8::encode_utf8(hostname),
            ) is None;
            &&& is_named_well && 0 <= first < run.bind_mounts.len() && !reads_back(
                run.bind_mounts[first],
            ) && (forall|i: int| 0 <= i < first ==> reads_back(#[trigger] run.bind_mounts[i]))
                ==> run_objection(run) == mount_objection(run.bind_mounts[first])
            &&& is_named_well && (forall|i: int|
                0 <= i < run.bind_mounts.len() ==> reads_back(#[trigger] run.bind_mounts[i]))
                && run.operation != "run"@ ==> (run_objection(run) matches Some(text) && tells(
                text,
                "operation"@,
            ))
        }),
{
    if 0 <= first < run.bind_mounts.len() && !reads_back(run.bind_mounts[first]) && (forall|i: int|
        0 <= i < first ==> reads_back(#[trigger] run.bind_mounts[i])) {
        lemma_first_refused_mount(run.bind_mounts, first);
    }
    if forall|i: int| 0 <= i < run.bind_mounts.len() ==> reads_back(#[trigger] run.bind_mounts[i]) {
        lemma_reading_back(run.bind_mounts);
    }
    reveal_strlit("only supported operation is run");
    reveal_strlit("operation");
    lemma_tells("only supported operation is run"@, "operation"@, 15);
}

proof fn lemma_first_refused_mount(mounts: Seq<BindMountView>, first: int)
    requires
        0 <= first < mounts.len(),
        !reads_back(mounts[first]),
        forall|i: int| 0 <= i < first ==> reads_back(#[trigger] mounts[i]),
    ensures
        mount_objection(mounts[first]) is Some,
        mounts_objection(mounts) == mount_objection(mounts[first]),
    decreases mounts.len(),
{
    if first > 0 {
        let rest = mounts.drop_first();
        assert(reads_back(mounts[0]));
        assert(rest[first - 1] == mounts[first]);
        assert forall|i: int| 0 <= i < first - 1 implies reads_back(#[trigger] rest[i]) by {
            assert(rest[i] == mounts[i + 1]);
        }
        lemma_first_refused_mount(rest, first - 1);
    }
}

/// A bind mount that has no text is refused for that, one whose text is refused is told what
/// is wrong with the text, and one whose text reads as another is told how it is written.
pub proof fn law_a_bind_mount_that_does_not_read_back_is_told_why(mount: BindMountView)
    ensures
        ({
            let value = mount.source + seq![0x3au8] + mount.destination;
            match mount_objection(mount) {
                None => reads_back(mount),
                Some(text) => if !vstd::utf8::valid_utf8(value) {
                    tells(text, "UTF-8"@)
                } else {
                    match bind_mount_of(value) {
                        Err(message) => text == message,
                        Ok(read) => read != mount && tells(text, "host_path:container_path"@),
                    }
                },
            }
        }),
{
    reveal_strlit("mount must be valid UTF-8");
    reveal_strlit("UTF-8");
    lemma_tells("mount must be valid UTF-8"@, "UTF-8"@, 20);
    reveal_strlit("mount must use host_path:container_path syntax");
    reveal_strlit("host_path:container_path");
    lemma_tells("mount must use host_path:container_path syntax"@, "host_path:container_path"@, 15);
}

} // verus!
