//! Unix paths as byte strings, and the lexical operations on them.
//!
//! A path is read as a list of components: the root, if the path begins with a
//! slash, and then the names between slashes. Repeated slashes, a trailing slash
//! and `.` name nothing; only a `.` that begins a relative path is kept.

use vstd::prelude::*;
use vstd::slice::{slice_subrange, slice_to_vec};

verus! {

pub const SLASH: u8 = 0x2f;

pub const DOT: u8 = 0x2e;

/// A path of the file system: any bytes, read lexically.
#[derive(Debug)]
pub struct UnixPath {
    pub bytes: Vec<u8>,
}

impl Clone for UnixPath {
    fn clone(&self) -> (path: Self)
        ensures
            path@ == self@,
    {
        UnixPath { bytes: slice_to_vec(self.bytes.as_slice()) }
    }
}

impl View for UnixPath {
    type V = Seq<u8>;

    open spec fn view(&self) -> Seq<u8> {
        self.bytes@
    }
}

/// Whether the text between two slashes names something.
pub open spec fn is_name(segment: Seq<u8>) -> bool {
    segment.len() > 0 && segment != seq![DOT]
}

/// The position of the first slash, or the length if there is none.
pub open spec fn first_slash(path: Seq<u8>) -> nat
    decreases path.len(),
{
    if path.len() == 0 || path[0] == SLASH {
        0
    } else {
        1 + first_slash(path.skip(1))
    }
}

/// The names of a path, in order.
pub open spec fn names(path: Seq<u8>) -> Seq<Seq<u8>>
    decreases path.len(),
{
    if path.len() == 0 {
        Seq::empty()
    } else {
        let end = first_slash(path) as int;
        let segment = path.take(end);
        let rest = if end < path.len() {
            names(path.skip(end + 1))
        } else {
            Seq::empty()
        };
        if is_name(segment) {
            seq![segment] + rest
        } else {
            rest
        }
    }
}

pub open spec fn is_absolute(path: Seq<u8>) -> bool {
    path.len() > 0 && path[0] == SLASH
}

/// Whether a path begins with a `.` that stands for the current directory.
pub open spec fn starts_at_current(path: Seq<u8>) -> bool {
    path.len() > 0 && path[0] == DOT && (path.len() == 1 || path[1] == SLASH)
}

/// What comes before the names of a path: the root, a leading `.`, or nothing.
pub open spec fn anchor(path: Seq<u8>) -> Seq<Seq<u8>> {
    if is_absolute(path) {
        seq![seq![SLASH]]
    } else if starts_at_current(path) {
        seq![seq![DOT]]
    } else {
        Seq::empty()
    }
}

/// The components of a path. The root is the component `/`.
pub open spec fn components(path: Seq<u8>) -> Seq<Seq<u8>> {
    anchor(path) + names(path)
}

/// Whether `path` is `base` or lies below it, component by component.
pub open spec fn is_within(path: Seq<u8>, base: Seq<u8>) -> bool {
    components(base).is_prefix_of(components(path))
}

/// The component `..`.
pub open spec fn parent_name() -> Seq<u8> {
    seq![DOT, DOT]
}

/// `base` followed by `other`; an absolute `other` replaces `base`.
pub open spec fn joined(base: Seq<u8>, other: Seq<u8>) -> Seq<u8> {
    if is_absolute(other) {
        other
    } else if base.len() == 0 || base.last() == SLASH {
        base + other
    } else {
        base + seq![SLASH] + other
    }
}

/// Where the text after the last slash begins.
pub open spec fn last_segment(path: Seq<u8>) -> nat
    decreases path.len(),
{
    if path.len() == 0 || path.last() == SLASH {
        path.len()
    } else {
        last_segment(path.drop_last())
    }
}

/// The length of a path without what names nothing at its end.
pub open spec fn trimmed_len(path: Seq<u8>) -> nat
    decreases path.len(),
    via trimmed_len_decreases
{
    let start = last_segment(path) as int;
    if is_name(path.skip(start)) {
        path.len()
    } else if start > 0 {
        trimmed_len(path.take(start - 1))
    } else {
        0
    }
}

#[via_fn]
proof fn trimmed_len_decreases(path: Seq<u8>) {
    lemma_last_segment(path);
}

/// The number of bytes at the start of a path that name nothing.
pub open spec fn leading_len(path: Seq<u8>) -> nat
    decreases path.len(),
    via leading_len_decreases
{
    let end = first_slash(path) as int;
    if is_name(path.take(end)) {
        0
    } else if end < path.len() {
        (end + 1) as nat + leading_len(path.skip(end + 1))
    } else {
        path.len()
    }
}

#[via_fn]
proof fn leading_len_decreases(path: Seq<u8>) {
    lemma_first_slash(path);
}

/// From the first name of a path to its last, as they stand there.
pub open spec fn named_part(path: Seq<u8>) -> Seq<u8> {
    let tail = path.skip(leading_len(path) as int);
    tail.take(trimmed_len(tail) as int)
}

/// How many bytes the anchor of a path takes.
pub open spec fn anchor_len(path: Seq<u8>) -> int {
    if is_absolute(path) || starts_at_current(path) {
        1
    } else {
        0
    }
}

/// A path without its last component, where it has one that is not the root.
pub open spec fn parent_of(path: Seq<u8>) -> Option<Seq<u8>> {
    let body = path.skip(anchor_len(path));
    let kept = body.take(trimmed_len(body) as int);
    if kept.len() > 0 {
        let start = last_segment(kept) as int;
        let above = kept.take(if start > 0 { start - 1 } else { 0 });
        Some(path.take(anchor_len(path) + trimmed_len(above)))
    } else if starts_at_current(path) {
        Some(Seq::empty())
    } else {
        None
    }
}

pub(crate) proof fn lemma_first_slash(path: Seq<u8>)
    ensures
        first_slash(path) <= path.len(),
        forall|i: int| 0 <= i < first_slash(path) ==> path[i] != SLASH,
        first_slash(path) < path.len() ==> path[first_slash(path) as int] == SLASH,
    decreases path.len(),
{
    if path.len() > 0 && path[0] != SLASH {
        let rest = path.skip(1);
        lemma_first_slash(rest);
        assert forall|i: int| 0 <= i < first_slash(path) implies path[i] != SLASH by {
            if i > 0 {
                assert(path[i] == rest[i - 1]);
            }
        }
    }
}

proof fn lemma_first_slash_is(path: Seq<u8>, end: int)
    requires
        0 <= end <= path.len(),
        forall|i: int| 0 <= i < end ==> path[i] != SLASH,
        end < path.len() ==> path[end] == SLASH,
    ensures
        first_slash(path) == end,
{
    lemma_first_slash(path);
    if first_slash(path) < end {
        assert(path[first_slash(path) as int] == SLASH);
    } else if end < first_slash(path) {
        assert(path[end] != SLASH);
    }
}

proof fn lemma_last_segment(path: Seq<u8>)
    ensures
        last_segment(path) <= path.len(),
        forall|i: int| last_segment(path) <= i < path.len() ==> path[i] != SLASH,
        last_segment(path) > 0 ==> path[last_segment(path) - 1] == SLASH,
    decreases path.len(),
{
    if path.len() > 0 && path.last() != SLASH {
        let rest = path.drop_last();
        lemma_last_segment(rest);
        assert forall|i: int| last_segment(path) <= i < path.len() implies path[i] != SLASH by {
            if i < path.len() - 1 {
                assert(path[i] == rest[i]);
            }
        }
    }
}

proof fn lemma_last_segment_is(path: Seq<u8>, start: int)
    requires
        0 <= start <= path.len(),
        forall|i: int| start <= i < path.len() ==> path[i] != SLASH,
        start > 0 ==> path[start - 1] == SLASH,
    ensures
        last_segment(path) == start,
{
    lemma_last_segment(path);
    if last_segment(path) < start {
        assert(path[start - 1] != SLASH);
    } else if start < last_segment(path) {
        assert(path[last_segment(path) - 1] == SLASH);
    }
}

/// Names on either side of a slash are read independently.
pub(crate) proof fn lemma_names_split(left: Seq<u8>, right: Seq<u8>)
    ensures
        names(left + seq![SLASH] + right) == names(left) + names(right),
    decreases left.len(),
{
    let path = left + seq![SLASH] + right;
    lemma_first_slash(left);
    let end = first_slash(left) as int;
    if end < left.len() {
        lemma_first_slash_is(path, end);
        let rest = left.skip(end + 1);
        lemma_names_split(rest, right);
        assert(path.take(end) =~= left.take(end));
        assert(path.skip(end + 1) =~= rest + seq![SLASH] + right);
    } else {
        lemma_first_slash_is(path, end);
        assert(path.take(end) =~= left);
        assert(left.take(end) =~= left);
        assert(path.skip(end + 1) =~= right);
    }
    assert(names(path) =~= names(left) + names(right));
}

/// A path without slashes has at most one name: itself.
pub(crate) proof fn lemma_names_single(path: Seq<u8>)
    requires
        forall|i: int| 0 <= i < path.len() ==> path[i] != SLASH,
    ensures
        names(path) == if is_name(path) {
            seq![path]
        } else {
            Seq::<Seq<u8>>::empty()
        },
{
    if path.len() > 0 {
        lemma_first_slash_is(path, path.len() as int);
        assert(path.take(path.len() as int) =~= path);
        assert(seq![path] + Seq::<Seq<u8>>::empty() =~= seq![path]);
    }
}

/// The names of a path are those before its last slash and what follows it.
proof fn lemma_names_last(path: Seq<u8>)
    ensures
        ({
            let start = last_segment(path) as int;
            let segment = path.skip(start);
            &&& 0 <= start <= path.len()
            &&& names(path) == names(path.take(if start > 0 { start - 1 } else { 0 })) + (
            if is_name(segment) {
                seq![segment]
            } else {
                Seq::<Seq<u8>>::empty()
            })
        }),
{
    lemma_last_segment(path);
    let start = last_segment(path) as int;
    let segment = path.skip(start);
    lemma_names_single(segment);
    if start > 0 {
        assert(path =~= path.take(start - 1) + seq![SLASH] + segment);
        lemma_names_split(path.take(start - 1), segment);
    } else {
        assert(segment =~= path);
        assert(path.take(0) =~= Seq::<u8>::empty());
        assert(names(path) =~= names(path.take(0)) + names(segment));
    }
}

proof fn lemma_trimmed(path: Seq<u8>)
    ensures
        trimmed_len(path) <= path.len(),
        names(path.take(trimmed_len(path) as int)) == names(path),
        trimmed_len(path) > 0 ==> {
            let kept = path.take(trimmed_len(path) as int);
            is_name(kept.skip(last_segment(kept) as int))
        },
        trimmed_len(path) == 0 <==> names(path).len() == 0,
    decreases path.len(),
{
    lemma_last_segment(path);
    lemma_names_last(path);
    let start = last_segment(path) as int;
    let segment = path.skip(start);
    if is_name(segment) {
        assert(path.take(path.len() as int) =~= path);
    } else if start > 0 {
        let above = path.take(start - 1);
        lemma_trimmed(above);
        assert(path.take(trimmed_len(path) as int) =~= above.take(trimmed_len(path) as int));
        assert(names(above) + Seq::<Seq<u8>>::empty() =~= names(above));
    } else {
        assert(path.take(0) =~= Seq::<u8>::empty());
        assert(names(path) =~= Seq::<Seq<u8>>::empty());
    }
}

proof fn lemma_leading(path: Seq<u8>)
    ensures
        leading_len(path) <= path.len(),
        names(path.skip(leading_len(path) as int)) == names(path),
        leading_len(path) < path.len() ==> {
            let tail = path.skip(leading_len(path) as int);
            is_name(tail.take(first_slash(tail) as int))
        },
    decreases path.len(),
{
    lemma_first_slash(path);
    let end = first_slash(path) as int;
    let segment = path.take(end);
    if is_name(segment) {
        assert(path.skip(0) =~= path);
    } else if end < path.len() {
        let rest = path.skip(end + 1);
        lemma_leading(rest);
        assert(path.skip(leading_len(path) as int) =~= rest.skip(leading_len(rest) as int));
    } else {
        assert(path.skip(path.len() as int) =~= Seq::<u8>::empty());
    }
}

/// The named part of a path has the names of the whole.
pub(crate) proof fn lemma_named_part(path: Seq<u8>)
    ensures
        names(named_part(path)) == names(path),
        anchor(named_part(path)) == Seq::<Seq<u8>>::empty(),
{
    lemma_leading(path);
    let tail = path.skip(leading_len(path) as int);
    lemma_trimmed(tail);
    let part = named_part(path);
    if part.len() > 0 {
        lemma_first_slash(tail);
        let first = tail.take(first_slash(tail) as int);
        assert(part[0] == tail[0]);
        assert(first_slash(tail) > 0);
        assert(tail[0] != SLASH);
        if starts_at_current(part) {
            if part.len() > 1 {
                assert(tail[1] == SLASH);
                lemma_first_slash_is(tail, 1);
                assert(first =~= seq![DOT]);
            } else {
                assert(names(part) =~= Seq::<Seq<u8>>::empty()) by {
                    assert(part =~= seq![DOT]);
                    lemma_names_single(part);
                }
                assert(names(tail).len() == 0);
                assert(false);
            }
        }
    }
}

/// Joining a path that begins with a name appends its names.
pub(crate) proof fn lemma_joined(base: Seq<u8>, other: Seq<u8>)
    requires
        anchor(other) == Seq::<Seq<u8>>::empty(),
    ensures
        components(joined(base, other)) == components(base) + names(other),
{
    let path = joined(base, other);
    assert(!is_absolute(other) && !starts_at_current(other)) by {
        assert(is_absolute(other) ==> anchor(other).len() == 1);
        assert(starts_at_current(other) ==> anchor(other).len() == 1);
    }
    if base.len() == 0 {
        assert(path =~= other);
        assert(components(path) =~= components(base) + names(other));
    } else if base.last() == SLASH {
        let front = base.drop_last();
        assert(base =~= front + seq![SLASH] + Seq::<u8>::empty());
        assert(path =~= front + seq![SLASH] + other);
        lemma_names_split(front, Seq::empty());
        lemma_names_split(front, other);
        assert(names(base) =~= names(front));
        assert(anchor(path) == anchor(base));
        assert(components(path) =~= components(base) + names(other));
    } else {
        lemma_names_split(base, other);
        assert(anchor(path) == anchor(base));
        assert(components(path) =~= components(base) + names(other));
    }
}

/// No name holds a slash.
pub(crate) proof fn lemma_names_hold_no_slash(path: Seq<u8>)
    ensures
        forall|i: int, j: int|
            0 <= i < names(path).len() && 0 <= j < names(path)[i].len() ==> #[trigger] names(
                path,
            )[i][j] != SLASH,
        forall|i: int| 0 <= i < names(path).len() ==> is_name(#[trigger] names(path)[i]),
    decreases path.len(),
{
    if path.len() > 0 {
        lemma_first_slash(path);
        let end = first_slash(path) as int;
        let segment = path.take(end);
        if end < path.len() {
            lemma_names_hold_no_slash(path.skip(end + 1));
        }
        assert forall|i: int| 0 <= i < names(path).len() implies is_name(
            #[trigger] names(path)[i],
        ) && forall|j: int| 0 <= j < names(path)[i].len() ==> names(path)[i][j] != SLASH by {
            if is_name(segment) {
                if i == 0 {
                    assert(names(path)[i] == segment);
                } else {
                    assert(names(path)[i] == names(path.skip(end + 1))[i - 1]);
                }
            } else {
                assert(names(path)[i] == names(path.skip(end + 1))[i]);
            }
        }
    }
}

/// A path that begins with the component `/` is absolute.
pub(crate) proof fn lemma_only_the_root_is_a_slash(path: Seq<u8>)
    requires
        components(path).len() > 0,
        components(path)[0] == seq![SLASH],
    ensures
        is_absolute(path),
{
    if !is_absolute(path) {
        lemma_names_hold_no_slash(path);
        if starts_at_current(path) {
            assert(components(path)[0] == seq![DOT]);
            assert(seq![DOT][0] != seq![SLASH][0]);
        } else {
            assert(components(path)[0] == names(path)[0]);
            assert(names(path)[0][0] != SLASH);
        }
    }
}

/// The bytes of each of several byte strings.
pub open spec fn contents(parts: Seq<Vec<u8>>) -> Seq<Seq<u8>> {
    parts.map_values(|part: Vec<u8>| part@)
}

/// Whether two byte strings are equal.
pub fn same_bytes(left: &[u8], right: &[u8]) -> (same: bool)
    ensures
        same == (left@ == right@),
{
    if left.len() != right.len() {
        return false;
    }
    let mut i: usize = 0;
    while i < left.len()
        invariant
            i <= left@.len(),
            left@.len() == right@.len(),
            forall|j: int| 0 <= j < i ==> left@[j] == right@[j],
        decreases left@.len() - i,
    {
        if left[i] != right[i] {
            return false;
        }
        i = i + 1;
    }
    assert(left@ =~= right@);
    true
}

/// Where the segment that begins at `start` ends.
fn segment_end(bytes: &[u8], start: usize) -> (end: usize)
    requires
        start <= bytes@.len(),
    ensures
        start <= end <= bytes@.len(),
        end == start + first_slash(bytes@.skip(start as int)),
{
    let mut end = start;
    while end < bytes.len() && bytes[end] != SLASH
        invariant
            start <= end <= bytes@.len(),
            forall|i: int| start <= i < end ==> bytes@[i] != SLASH,
        decreases bytes@.len() - end,
    {
        end = end + 1;
    }
    proof {
        let rest = bytes@.skip(start as int);
        assert forall|i: int| 0 <= i < end - start implies rest[i] != SLASH by {
            assert(rest[i] == bytes@[start + i]);
        }
        lemma_first_slash_is(rest, end - start);
    }
    end
}

/// Where the segment that ends at `end` begins.
fn segment_start(bytes: &[u8], end: usize) -> (start: usize)
    requires
        end <= bytes@.len(),
    ensures
        start <= end,
        start == last_segment(bytes@.take(end as int)),
{
    let mut start = end;
    while start > 0 && bytes[start - 1] != SLASH
        invariant
            start <= end <= bytes@.len(),
            forall|i: int| start <= i < end ==> bytes@[i] != SLASH,
        decreases start,
    {
        start = start - 1;
    }
    proof {
        lemma_last_segment_is(bytes@.take(end as int), start as int);
    }
    start
}

/// Whether the segment between two positions names something.
fn names_something(bytes: &[u8], start: usize, end: usize) -> (named: bool)
    requires
        start <= end <= bytes@.len(),
    ensures
        named == is_name(bytes@.subrange(start as int, end as int)),
{
    let ghost segment = bytes@.subrange(start as int, end as int);
    if start == end {
        return false;
    }
    if end - start == 1 && bytes[start] == DOT {
        assert(segment =~= seq![DOT]);
        return false;
    }
    assert(segment != seq![DOT]) by {
        assert(segment[0] == bytes@[start as int]);
        assert(segment.len() != 1 || segment[0] != seq![DOT][0]);
    }
    true
}

/// The length of a path without what names nothing at its end.
fn trimmed(bytes: &[u8]) -> (len: usize)
    ensures
        len == trimmed_len(bytes@),
        len <= bytes@.len(),
{
    let mut end = bytes.len();
    assert(bytes@.take(end as int) =~= bytes@);
    loop
        invariant
            end <= bytes@.len(),
            trimmed_len(bytes@.take(end as int)) == trimmed_len(bytes@),
        decreases end,
    {
        let start = segment_start(bytes, end);
        let ghost path = bytes@.take(end as int);
        assert(path.skip(start as int) =~= bytes@.subrange(start as int, end as int));
        if names_something(bytes, start, end) {
            return end;
        }
        if start == 0 {
            return 0;
        }
        assert(path.take(start - 1) =~= bytes@.take(start - 1));
        end = start - 1;
    }
}

/// The number of bytes at the start of a path that name nothing.
fn leading(bytes: &[u8]) -> (len: usize)
    ensures
        len == leading_len(bytes@),
        len <= bytes@.len(),
{
    let mut start: usize = 0;
    assert(bytes@.skip(0) =~= bytes@);
    loop
        invariant
            start <= bytes@.len(),
            leading_len(bytes@) == start + leading_len(bytes@.skip(start as int)),
        decreases bytes@.len() - start,
    {
        let end = segment_end(bytes, start);
        let ghost path = bytes@.skip(start as int);
        assert(path.take(end - start) =~= bytes@.subrange(start as int, end as int));
        if names_something(bytes, start, end) {
            return start;
        }
        if end == bytes.len() {
            return end;
        }
        assert(path.skip(end - start + 1) =~= bytes@.skip(end + 1));
        start = end + 1;
    }
}

/// The path that a text spells: its bytes in UTF-8.
pub open spec fn path_of(text: Seq<char>) -> Seq<u8> {
    vstd::utf8::encode_utf8(text)
}

impl UnixPath {
    /// The path that the given bytes spell.
    pub fn new(bytes: Vec<u8>) -> (path: UnixPath)
        ensures
            path@ == bytes@,
    {
        UnixPath { bytes }
    }

    /// The path that the given text spells.
    pub fn from_text(text: &str) -> (path: UnixPath)
        ensures
            path@ == path_of(text@),
    {
        UnixPath { bytes: slice_to_vec(text.as_bytes()) }
    }

    pub fn as_bytes(&self) -> (bytes: &[u8])
        ensures
            bytes@ == self@,
    {
        self.bytes.as_slice()
    }

    pub fn is_absolute(&self) -> (absolute: bool)
        ensures
            absolute == is_absolute(self@),
    {
        self.bytes.len() > 0 && self.bytes[0] == SLASH
    }

    fn starts_at_current(&self) -> (current: bool)
        ensures
            current == starts_at_current(self@),
    {
        self.bytes.len() > 0 && self.bytes[0] == DOT && (self.bytes.len() == 1 || self.bytes[1]
            == SLASH)
    }

    /// The components of the path, in order.
    pub fn components(&self) -> (parts: Vec<Vec<u8>>)
        ensures
            contents(parts@) == components(self@),
    {
        let bytes = self.bytes.as_slice();
        let mut parts: Vec<Vec<u8>> = Vec::new();
        if self.is_absolute() {
            parts.push(vec![SLASH]);
            assert(contents(parts@)[0] =~= seq![SLASH]);
        } else if self.starts_at_current() {
            parts.push(vec![DOT]);
            assert(contents(parts@)[0] =~= seq![DOT]);
        }
        assert(contents(parts@) =~= anchor(self@));
        assert(bytes@.skip(0) =~= self@);
        assert(contents(parts@) + names(self@) =~= components(self@));
        let mut start: usize = 0;
        while start < bytes.len()
            invariant
                start <= bytes@.len(),
                bytes@ == self@,
                contents(parts@) + names(bytes@.skip(start as int)) == components(self@),
            decreases bytes@.len() - start,
        {
            let end = segment_end(bytes, start);
            let ghost before = contents(parts@);
            let ghost rest = bytes@.skip(start as int);
            let ghost segment = bytes@.subrange(start as int, end as int);
            assert(rest.take(end - start) =~= segment);
            if names_something(bytes, start, end) {
                parts.push(slice_to_vec(slice_subrange(bytes, start, end)));
                assert(contents(parts@) =~= before.push(segment));
            }
            if end == bytes.len() {
                assert(contents(parts@) =~= before + names(rest));
                return parts;
            }
            assert(rest.skip(end - start + 1) =~= bytes@.skip(end + 1));
            assert(contents(parts@) + names(bytes@.skip(end + 1)) =~= before + names(rest));
            start = end + 1;
        }
        assert(contents(parts@) + names(bytes@.skip(start as int)) =~= contents(parts@));
        parts
    }

    /// Whether the path is `base` or lies below it, component by component.
    pub fn starts_with(&self, base: &UnixPath) -> (within: bool)
        ensures
            within == is_within(self@, base@),
    {
        let parts = self.components();
        let base_parts = base.components();
        if base_parts.len() > parts.len() {
            assert(contents(base_parts@).len() > contents(parts@).len());
            return false;
        }
        let mut i: usize = 0;
        while i < base_parts.len()
            invariant
                i <= base_parts@.len() <= parts@.len(),
                contents(parts@) == components(self@),
                contents(base_parts@) == components(base@),
                forall|j: int| 0 <= j < i ==> contents(parts@)[j] == contents(base_parts@)[j],
            decreases base_parts@.len() - i,
        {
            if !same_bytes(parts[i].as_slice(), base_parts[i].as_slice()) {
                assert(contents(parts@)[i as int] != contents(base_parts@)[i as int]);
                return false;
            }
            i = i + 1;
        }
        assert(components(base@) =~= components(self@).subrange(
            0,
            components(base@).len() as int,
        ));
        true
    }

    /// Whether the path is the root.
    pub fn is_root(&self) -> (root: bool)
        ensures
            root == (components(self@) == seq![seq![SLASH]]),
    {
        let parts = self.components();
        let root = self.is_absolute() && parts.len() == 1;
        proof {
            if root {
                assert(components(self@)[0] == anchor(self@)[0]);
                assert(components(self@) =~= seq![seq![SLASH]]);
            } else if components(self@) == seq![seq![SLASH]] {
                assert(contents(parts@).len() == 1);
                assert(!is_absolute(self@));
                lemma_only_the_root_is_a_slash(self@);
            }
        }
        root
    }

    /// Whether `..` is among the components of the path.
    pub fn has_parent_component(&self) -> (found: bool)
        ensures
            found == components(self@).contains(parent_name()),
    {
        let parts = self.components();
        let parent = vec![DOT, DOT];
        assert(parent@ =~= parent_name());
        let mut i: usize = 0;
        while i < parts.len()
            invariant
                i <= parts@.len(),
                parent@ == parent_name(),
                contents(parts@) == components(self@),
                forall|j: int| 0 <= j < i ==> contents(parts@)[j] != parent_name(),
            decreases parts@.len() - i,
        {
            if same_bytes(parts[i].as_slice(), parent.as_slice()) {
                assert(contents(parts@)[i as int] == parent_name());
                return true;
            }
            i = i + 1;
        }
        false
    }

    /// The path followed by `other`; an absolute `other` replaces it.
    pub fn join(&self, other: &UnixPath) -> (path: UnixPath)
        ensures
            path@ == joined(self@, other@),
    {
        let mut bytes: Vec<u8> = Vec::new();
        if !other.is_absolute() {
            bytes.extend_from_slice(self.bytes.as_slice());
            assert(bytes@ =~= self@);
            if bytes.len() > 0 && bytes[bytes.len() - 1] != SLASH {
                bytes.push(SLASH);
            }
        }
        let ghost front = bytes@;
        bytes.extend_from_slice(other.bytes.as_slice());
        assert(bytes@ =~= front + other@);
        assert(bytes@ =~= joined(self@, other@));
        UnixPath { bytes }
    }

    /// The path relative to the root, if it is absolute.
    pub fn strip_root(&self) -> (relative: Option<UnixPath>)
        ensures
            match relative {
                Some(path) => is_absolute(self@) && path@ == named_part(self@),
                None => !is_absolute(self@),
            },
    {
        if !self.is_absolute() {
            return None;
        }
        let bytes = self.bytes.as_slice();
        let start = leading(bytes);
        let tail = slice_subrange(bytes, start, bytes.len());
        assert(tail@ =~= self@.skip(start as int));
        let len = trimmed(tail);
        let part = slice_subrange(tail, 0, len);
        assert(part@ =~= tail@.take(len as int));
        Some(UnixPath { bytes: slice_to_vec(part) })
    }

    /// The path without its last component, where it has one that is not the root.
    pub fn parent(&self) -> (parent: Option<UnixPath>)
        ensures
            match parent {
                Some(path) => parent_of(self@) == Some(path@),
                None => parent_of(self@) is None,
            },
    {
        let bytes = self.bytes.as_slice();
        let size: usize = if self.is_absolute() || self.starts_at_current() {
            1
        } else {
            0
        };
        let body = slice_subrange(bytes, size, bytes.len());
        assert(body@ =~= self@.skip(anchor_len(self@)));
        let kept_len = trimmed(body);
        let kept = slice_subrange(body, 0, kept_len);
        assert(kept@ =~= body@.take(kept_len as int));
        if kept_len > 0 {
            let start = segment_start(kept, kept_len);
            assert(kept@.take(kept_len as int) =~= kept@);
            let cut: usize = if start > 0 {
                start - 1
            } else {
                0
            };
            let above = slice_subrange(kept, 0, cut);
            assert(above@ =~= kept@.take(cut as int));
            let len = trimmed(above);
            let parent = slice_subrange(bytes, 0, size + len);
            assert(parent@ =~= self@.take(size + len));
            Some(UnixPath { bytes: slice_to_vec(parent) })
        } else if self.starts_at_current() {
            Some(UnixPath { bytes: Vec::new() })
        } else {
            None
        }
    }
}

impl PartialEq for UnixPath {
    fn eq(&self, other: &Self) -> (same: bool) {
        let same = self.starts_with(other) && other.starts_with(self);
        assert(same ==> components(self@) =~= components(other@));
        same
    }
}

impl vstd::std_specs::cmp::PartialEqSpecImpl for UnixPath {
    open spec fn obeys_eq_spec() -> bool {
        true
    }

    open spec fn eq_spec(&self, other: &Self) -> bool {
        components(self@) == components(other@)
    }
}

/// What an anchor leaves of a path has the names of the whole.
proof fn lemma_body(path: Seq<u8>)
    ensures
        0 <= anchor_len(path) <= path.len(),
        names(path.skip(anchor_len(path))) == names(path),
        anchor(path).len() == anchor_len(path),
{
    let body = path.skip(anchor_len(path));
    if is_absolute(path) {
        assert(path =~= Seq::<u8>::empty() + seq![SLASH] + body);
        lemma_names_split(Seq::empty(), body);
        assert(names(path) =~= names(body));
    } else if starts_at_current(path) {
        if path.len() == 1 {
            assert(path =~= seq![DOT]);
            lemma_names_single(path);
            assert(body =~= Seq::<u8>::empty());
        } else {
            let rest = path.skip(2);
            assert(path =~= seq![DOT] + seq![SLASH] + rest);
            assert(body =~= Seq::<u8>::empty() + seq![SLASH] + rest);
            lemma_names_split(seq![DOT], rest);
            lemma_names_split(Seq::empty(), rest);
            lemma_names_single(seq![DOT]);
            assert(names(path) =~= names(body));
        }
    } else {
        assert(body =~= path);
    }
}

/// A path has a parent unless it is empty or the root; the parent's components
/// are those of the path without the last, and the parent is a shorter path with which
/// it begins.
pub proof fn law_parent_drops_the_last_component(path: Seq<u8>)
    ensures
        match parent_of(path) {
            Some(parent) => {
                &&& components(path).len() > 0
                &&& components(parent) == components(path).drop_last()
                &&& parent.is_prefix_of(path)
                &&& parent.len() < path.len()
            },
            None => components(path) == anchor(path) && !starts_at_current(path),
        },
{
    let size = anchor_len(path);
    let body = path.skip(size);
    lemma_body(path);
    lemma_trimmed(body);
    let kept = body.take(trimmed_len(body) as int);
    if kept.len() > 0 {
        lemma_last_segment(kept);
        lemma_names_last(kept);
        let start = last_segment(kept) as int;
        let above = kept.take(if start > 0 {
            start - 1
        } else {
            0
        });
        lemma_trimmed(above);
        let parent = path.take(size + trimmed_len(above));
        assert(parent.skip(size) =~= above.take(trimmed_len(above) as int));
        assert(anchor(parent) == anchor(path) && anchor_len(parent) == size) by {
            if size == 0 && parent.len() > 0 {
                assert(parent[0] == path[0]);
                if starts_at_current(parent) {
                    assert(parent.len() == 1 || parent[1] == path[1]);
                    if parent.len() == 1 && path.len() > 1 && path[1] != SLASH {
                        lemma_first_component_kept(path, above);
                    }
                }
            }
        }
        lemma_body(parent);
        let last = kept.skip(start);
        assert(names(path) == names(above) + seq![last]);
        assert(names(parent) == names(above));
        assert(components(parent) =~= components(path).drop_last());
    } else {
        assert(names(path) =~= Seq::<Seq<u8>>::empty());
        if starts_at_current(path) {
            assert(components(Seq::<u8>::empty()) =~= components(path).drop_last());
        }
        assert(components(path) =~= anchor(path));
    }
}

/// A relative path cut at the end of one of its names keeps its first name.
proof fn lemma_first_component_kept(path: Seq<u8>, above: Seq<u8>)
    requires
        above.is_prefix_of(path),
        path.len() > 1,
        path[0] == DOT,
        path[1] != SLASH,
    ensures
        trimmed_len(above) != 1,
{
    lemma_trimmed(above);
    if trimmed_len(above) == 1 {
        let kept = above.take(1);
        assert(kept[0] == path[0]);
        assert(kept =~= seq![DOT]);
        lemma_last_segment_is(kept, 0);
        assert(kept.skip(0) =~= seq![DOT]);
    }
}

/// A path is absolute exactly if its first component is the root, and begins at the current
/// directory exactly if its first component is `.`, which is so exactly if `.` stands
/// before its first slash.
pub proof fn law_the_first_component_tells_where_a_path_begins(path: Seq<u8>)
    ensures
        is_absolute(path) <==> components(path).len() > 0 && components(path)[0] == seq![0x2fu8],
        is_absolute(path) <==> path.len() > 0 && path[0] == 0x2f,
        components(path).len() > 0 && components(path)[0] == seq![0x2eu8] <==> path.len() > 0
            && path.take(first_slash(path) as int) == seq![0x2eu8],
{
    lemma_first_slash(path);
    lemma_names_hold_no_slash(path);
    assert(SLASH == 0x2f && DOT == 0x2e);
    if is_absolute(path) {
        assert(components(path)[0] == seq![SLASH]);
        assert(seq![SLASH][0] != seq![DOT][0]);
    } else if components(path).len() > 0 && components(path)[0] == seq![SLASH] {
        lemma_only_the_root_is_a_slash(path);
    }
    let first = path.take(first_slash(path) as int);
    if starts_at_current(path) {
        lemma_first_slash_is(path, 1);
        assert(first =~= seq![DOT]);
        assert(components(path)[0] == seq![DOT]);
    } else if path.len() > 0 && first == seq![DOT] {
        assert(first.len() == 1);
        assert(first[0] == path[0]);
        assert(starts_at_current(path));
    }
    if !is_absolute(path) && !starts_at_current(path) && components(path).len() > 0 {
        assert(components(path)[0] == names(path)[0]);
        assert(is_name(names(path)[0]));
    }
}

/// A path lies within another exactly if it goes on where the other ends, component by
/// component: every path lies within itself, and within what anything above it lies within.
pub proof fn law_within_means_going_on_from(path: Seq<u8>, base: Seq<u8>, above: Seq<u8>)
    ensures
        is_within(path, base) <==> exists|rest: Seq<Seq<u8>>|
            components(path) == #[trigger] (components(base) + rest),
        is_within(path, path),
        is_within(path, base) && is_within(base, above) ==> is_within(path, above),
{
    let (all, some, few) = (components(path), components(base), components(above));
    assert(all.subrange(0, all.len() as int) =~= all);
    if is_within(path, base) {
        assert(all =~= some + all.skip(some.len() as int));
        if is_within(base, above) {
            assert(all.subrange(0, few.len() as int) =~= few) by {
                assert(some =~= all.subrange(0, some.len() as int));
                assert(few =~= some.subrange(0, few.len() as int));
            }
        }
    }
    if exists|rest: Seq<Seq<u8>>| all == #[trigger] (some + rest) {
        let rest = choose|rest: Seq<Seq<u8>>| all == #[trigger] (some + rest);
        assert((some + rest).subrange(0, some.len() as int) =~= some);
    }
}

/// An absolute path replaces what it is joined to. Any other is appended, name by name, so
/// that the whole lies within what it was joined to.
pub proof fn law_joining_appends_the_names(base: Seq<u8>, other: Seq<u8>)
    ensures
        is_absolute(other) ==> joined(base, other) == other,
        !is_absolute(other) && base.len() > 0 ==> {
            &&& components(joined(base, other)) == components(base) + names(other)
            &&& is_within(joined(base, other), base)
            &&& base.is_prefix_of(joined(base, other))
        },
        !is_absolute(other) && base.len() == 0 ==> joined(base, other) == other,
{
    let path = joined(base, other);
    if !is_absolute(other) {
        if base.len() == 0 {
            assert(path =~= other);
        } else {
            if base.last() == SLASH {
                let front = base.drop_last();
                assert(base =~= front + seq![SLASH] + Seq::<u8>::empty());
                assert(path =~= front + seq![SLASH] + other);
                lemma_names_split(front, Seq::empty());
                lemma_names_split(front, other);
                assert(names(base) =~= names(front));
            } else {
                lemma_names_split(base, other);
            }
            assert(anchor(path) == anchor(base)) by {
                assert(path[0] == base[0]);
                if base.len() > 1 {
                    assert(path[1] == base[1]);
                } else if path.len() > 1 && base[0] == DOT {
                    assert(path[1] == SLASH);
                }
            }
            assert(components(path) =~= components(base) + names(other));
            law_within_means_going_on_from(path, base, base);
            assert(base =~= path.subrange(0, base.len() as int));
        }
    }
}

/// What is left of an absolute path without the root is relative and has the same names,
/// and it is a part of the path as it stands there.
pub proof fn law_without_the_root_the_names_stay(path: Seq<u8>)
    ensures
        !is_absolute(named_part(path)),
        names(named_part(path)) == names(path),
        is_absolute(path) ==> components(path) == seq![seq![0x2fu8]] + components(named_part(path)),
        exists|start: int, end: int|
            0 <= start <= end <= path.len() && named_part(path) == #[trigger] path.subrange(
                start,
                end,
            ),
{
    lemma_named_part(path);
    lemma_leading(path);
    let start = leading_len(path) as int;
    let tail = path.skip(start);
    lemma_trimmed(tail);
    let end = start + trimmed_len(tail);
    assert(named_part(path) =~= path.subrange(start, end));
    assert(is_absolute(named_part(path)) ==> anchor(named_part(path)).len() == 1);
    assert(components(named_part(path)) =~= names(path));
}

/// Whether a text can stand in a path as one name, and is ASCII.
pub(crate) open spec fn is_plain_name(text: Seq<char>) -> bool {
    &&& text.len() > 0
    &&& text[0] != '.'
    &&& forall|i: int|
        0 <= i < text.len() ==> vstd::utf8::is_ascii_chars(seq![#[trigger] text[i]]) && text[i]
            != '/'
}

/// Joining a plain name adds one component.
pub(crate) proof fn lemma_joined_name(base: Seq<u8>, text: Seq<char>)
    requires
        is_plain_name(text),
    ensures
        components(joined(base, path_of(text))) == components(base).push(path_of(text)),
{
    assert(vstd::utf8::is_ascii_chars(text)) by {
        assert forall|i: int| 0 <= i < text.len() implies '\0' <= #[trigger] text[i] <= '\u{7f}' by {
            assert(vstd::utf8::is_ascii_chars(seq![text[i]]));
            assert(seq![text[i]][0] == text[i]);
        }
    }
    vstd::utf8::is_ascii_chars_encode_utf8(text);
    let name = path_of(text);
    assert(forall|i: int| 0 <= i < name.len() ==> name[i] == #[trigger] text[i] as u8);
    assert forall|i: int| 0 <= i < name.len() implies name[i] != SLASH by {
        assert(text[i] != '/');
    }
    assert(name[0] == text[0] as u8);
    assert(name[0] != DOT);
    assert(name != seq![DOT]) by {
        assert(seq![DOT][0] == DOT);
    }
    lemma_names_single(name);
    assert(anchor(name) =~= Seq::<Seq<u8>>::empty());
    lemma_joined(base, name);
    assert(components(joined(base, name)) =~= components(base).push(name));
}

} // verus!
