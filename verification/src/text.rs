//! The texts that the runtime writes and reads: messages, decimal numbers and
//! lists of words.

use crate::path::UnixPath;
use vstd::prelude::*;

verus! {

/// `first` followed by `second`.
pub fn text_of_two(first: &str, second: &str) -> (text: String)
    ensures
        text@ == first@ + second@,
{
    let mut text = first.to_owned();
    text.append(second);
    text
}

/// Whether a text ends with another.
pub open spec fn ends_with(text: Seq<char>, end: Seq<char>) -> bool {
    &&& end.len() <= text.len()
    &&& text.skip(text.len() - end.len()) == end
}

/// Whether a text tells another somewhere.
pub open spec fn tells(text: Seq<char>, told: Seq<char>) -> bool {
    exists|front: Seq<char>, back: Seq<char>| text == #[trigger] (front + told + back)
}

pub(crate) proof fn lemma_tells(text: Seq<char>, told: Seq<char>, at: int)
    requires
        0 <= at <= text.len() - told.len(),
        forall|i: int| 0 <= i < told.len() ==> text[at + i] == #[trigger] told[i],
    ensures
        tells(text, told),
{
    assert(text =~= text.take(at) + told + text.skip(at + told.len()));
}

/// Whether two messages differ in the reasons that end them and in nothing else.
pub open spec fn differ_only_in_reason(
    message: Seq<char>,
    reason: Seq<char>,
    other_message: Seq<char>,
    other_reason: Seq<char>,
) -> bool {
    &&& ends_with(message, reason)
    &&& ends_with(other_message, other_reason)
    &&& message.take(message.len() - reason.len()) == other_message.take(
        other_message.len() - other_reason.len(),
    )
}

pub(crate) proof fn lemma_differ_only_in_reason(
    front: Seq<char>,
    reason: Seq<char>,
    other_reason: Seq<char>,
)
    ensures
        differ_only_in_reason(front + reason, reason, front + other_reason, other_reason),
{
    lemma_ends_with(front, reason);
    lemma_ends_with(front, other_reason);
    assert((front + reason).take((front + reason).len() - reason.len()) =~= front);
    assert((front + other_reason).take((front + other_reason).len() - other_reason.len())
        =~= front);
}

pub(crate) proof fn lemma_ends_with(front: Seq<char>, end: Seq<char>)
    ensures
        ends_with(front + end, end),
{
    assert((front + end).skip((front + end).len() - end.len()) =~= end);
}

/// The decimal digit of a number below ten.
pub open spec fn digit(value: nat) -> char {
    ('0' as nat + value) as char
}

/// A number in decimal, without leading zeros.
pub open spec fn decimal(value: nat) -> Seq<char>
    decreases value,
{
    if value < 10 {
        seq![digit(value)]
    } else {
        decimal(value / 10).push(digit(value % 10))
    }
}

/// The number that a text of decimal digits spells.
pub open spec fn decimal_value(text: Seq<char>) -> int
    decreases text.len(),
{
    if text.len() == 0 {
        0
    } else {
        decimal_value(text.drop_last()) * 10 + (text.last() as int - '0' as int)
    }
}

fn digit_text(value: u8) -> (text: &'static str)
    requires
        value < 10,
    ensures
        text@ == seq![digit(value as nat)],
{
    proof {
        reveal_strlit("0");
        reveal_strlit("1");
        reveal_strlit("2");
        reveal_strlit("3");
        reveal_strlit("4");
        reveal_strlit("5");
        reveal_strlit("6");
        reveal_strlit("7");
        reveal_strlit("8");
        reveal_strlit("9");
    }
    let text = match value {
        0 => "0",
        1 => "1",
        2 => "2",
        3 => "3",
        4 => "4",
        5 => "5",
        6 => "6",
        7 => "7",
        8 => "8",
        _ => "9",
    };
    assert(text@ =~= seq![digit(value as nat)]);
    text
}

/// A number in decimal.
pub fn decimal_text(value: u128) -> (text: String)
    ensures
        text@ == decimal(value as nat),
    decreases value,
{
    if value < 10 {
        digit_text(value as u8).to_owned()
    } else {
        let mut text = decimal_text(value / 10);
        let ghost front = text@;
        text.append(digit_text((value % 10) as u8));
        assert(text@ =~= front.push(digit((value % 10) as nat)));
        text
    }
}

/// A number can be read back from its decimal form, which holds digits alone.
pub proof fn law_decimal_reads_back(value: nat)
    ensures
        decimal_value(decimal(value)) == value,
        decimal(value).len() > 0,
        forall|i: int|
            0 <= i < decimal(value).len() ==> '0' <= #[trigger] decimal(value)[i] <= '9',
    decreases value,
{
    if value < 10 {
        assert(decimal(value).drop_last() =~= Seq::<char>::empty());
        assert(decimal_value(Seq::<char>::empty()) == 0);
    } else {
        law_decimal_reads_back(value / 10);
        assert(decimal(value).drop_last() =~= decimal(value / 10));
    }
}

/// Whether a character has the Unicode property White_Space.
pub open spec fn is_white_space(c: char) -> bool {
    let point = c as u32;
    ||| 0x09 <= point <= 0x0d
    ||| point == 0x20
    ||| point == 0x85
    ||| point == 0xa0
    ||| point == 0x1680
    ||| 0x2000 <= point <= 0x200a
    ||| point == 0x2028
    ||| point == 0x2029
    ||| point == 0x202f
    ||| point == 0x205f
    ||| point == 0x3000
}

fn white_space(c: char) -> (space: bool)
    ensures
        space == is_white_space(c),
{
    let point = c as u32;
    (0x09 <= point && point <= 0x0d) || point == 0x20 || point == 0x85 || point == 0xa0 || point
        == 0x1680 || (0x2000 <= point && point <= 0x200a) || point == 0x2028 || point == 0x2029
        || point == 0x202f || point == 0x205f || point == 0x3000
}

/// Whether white space or the end of the text stands on both sides of a range.
pub open spec fn stands_alone(text: Seq<char>, start: int, end: int) -> bool {
    &&& start == 0 || is_white_space(text[start - 1])
    &&& end == text.len() || is_white_space(text[end])
}

/// Whether `word` is one of the words of `text`, which white space separates.
pub open spec fn has_word(text: Seq<char>, word: Seq<char>) -> bool {
    &&& word.len() > 0
    &&& forall|i: int| 0 <= i < word.len() ==> !is_white_space(#[trigger] word[i])
    &&& exists|start: int|
        {
            &&& 0 <= start <= text.len() - word.len()
            &&& #[trigger] text.subrange(start, start + word.len()) == word
            &&& stands_alone(text, start, start + word.len())
        }
}

fn char_list(text: &str) -> (chars: Vec<char>)
    ensures
        chars@ == text@,
{
    let mut chars: Vec<char> = Vec::new();
    for c in iter: text.chars()
        invariant
            chars@ == iter.seq().take(iter.index()),
            iter.seq() == text@,
    {
        chars.push(c);
        assert(chars@ =~= iter.seq().take(iter.index() + 1));
    }
    assert(chars@ =~= text@);
    chars
}

/// Whether `word` stands in `text` at `start`, on its own.
fn word_at(text: &Vec<char>, word: &Vec<char>, start: usize) -> (found: bool)
    requires
        start + word@.len() <= text@.len(),
    ensures
        found == (text@.subrange(start as int, start + word@.len()) == word@ && stands_alone(
            text@,
            start as int,
            start + word@.len(),
        )),
{
    let total = text.len();
    let end = start + word.len();
    if start > 0 && !white_space(text[start - 1]) {
        return false;
    }
    if end < total && !white_space(text[end]) {
        return false;
    }
    let mut i: usize = 0;
    while i < word.len()
        invariant
            i <= word@.len(),
            total == text@.len(),
            start + word@.len() <= total,
            forall|j: int| 0 <= j < i ==> text@[start + j] == word@[j],
        decreases word@.len() - i,
    {
        if text[start + i] != word[i] {
            assert(text@.subrange(start as int, start + word@.len())[i as int] != word@[i as int]);
            return false;
        }
        i = i + 1;
    }
    assert(text@.subrange(start as int, start + word@.len()) =~= word@);
    true
}

/// Whether `word` is one of the words of `text`, which white space separates.
pub fn contains_word(text: &str, word: &str) -> (found: bool)
    ensures
        found == has_word(text@, word@),
{
    let letters = char_list(text);
    let wanted = char_list(word);
    let total = letters.len();
    if wanted.len() == 0 || wanted.len() > total {
        return false;
    }
    let mut i: usize = 0;
    while i < wanted.len()
        invariant
            i <= wanted@.len(),
            wanted@ == word@,
            forall|j: int| 0 <= j < i ==> !is_white_space(#[trigger] word@[j]),
        decreases wanted@.len() - i,
    {
        if white_space(wanted[i]) {
            assert(is_white_space(word@[i as int]));
            return false;
        }
        i = i + 1;
    }
    let end = total - wanted.len() + 1;
    let mut start: usize = 0;
    while start < end
        invariant
            letters@ == text@,
            wanted@ == word@,
            end == text@.len() - word@.len() + 1,
            start <= end,
            word@.len() > 0,
            forall|j: int| 0 <= j < word@.len() ==> !is_white_space(#[trigger] word@[j]),
            forall|s: int|
                0 <= s < start ==> !(#[trigger] text@.subrange(s, s + word@.len()) == word@
                    && stands_alone(text@, s, s + word@.len())),
        decreases end - start,
    {
        if word_at(&letters, &wanted, start) {
            assert(text@.subrange(start as int, start + word@.len()) == word@);
            return true;
        }
        start = start + 1;
    }
    false
}

/// The text that stands for bytes in a message: the bytes read as UTF-8, each
/// invalid sequence replaced by U+FFFD.
pub uninterp spec fn lossy_text(bytes: Seq<u8>) -> Seq<char>;

/// `String::from_utf8_lossy`. The contract names its result, which depends on the
/// bytes alone, and says that valid UTF-8 is read as it is.
#[verifier::external_body]
pub(crate) fn read_lossily(bytes: &[u8]) -> (text: String)
    ensures
        text@ == lossy_text(bytes@),
        vstd::utf8::valid_utf8(bytes@) ==> text@ == vstd::utf8::decode_utf8(bytes@),
{
    String::from_utf8_lossy(bytes).into_owned()
}

/// A path as a message shows it.
pub fn display(path: &UnixPath) -> (text: String)
    ensures
        text@ == lossy_text(path@),
        vstd::utf8::valid_utf8(path@) ==> text@ == vstd::utf8::decode_utf8(path@),
{
    read_lossily(path.as_bytes())
}

/// A number is written without leading zeros.
pub proof fn law_decimal_has_no_leading_zero(value: nat)
    ensures
        decimal(value).len() > 1 ==> decimal(value)[0] != '0',
        decimal(value).len() == 1 <==> value < 10,
    decreases value,
{
    if value >= 10 {
        law_decimal_has_no_leading_zero(value / 10);
        assert(decimal(value)[0] == decimal(value / 10)[0]);
        if value / 10 < 10 {
            assert(decimal(value / 10)[0] == digit(value / 10));
        }
    }
}

/// Numbers that are written alike are the same.
pub proof fn law_numbers_are_told_apart(value: nat, other: nat)
    ensures
        decimal(value) == decimal(other) <==> value == other,
{
    law_decimal_reads_back(value);
    law_decimal_reads_back(other);
}

/// The code points of the characters that separate words.
pub open spec fn white_space_points() -> Seq<int> {
    seq![
        9,
        10,
        11,
        12,
        13,
        32,
        133,
        160,
        5760,
        8192,
        8193,
        8194,
        8195,
        8196,
        8197,
        8198,
        8199,
        8200,
        8201,
        8202,
        8232,
        8233,
        8239,
        8287,
        12288,
    ]
}

/// Words are separated by exactly the characters with these code points.
pub proof fn law_white_space_is_what_separates_words(c: char)
    ensures
        is_white_space(c) <==> white_space_points().contains(c as int),
{
    let points = white_space_points();
    assert(points.len() == 25);
    assert(points[0] == 9 && points[1] == 10 && points[2] == 11 && points[3] == 12 && points[4]
        == 13 && points[5] == 32 && points[6] == 133 && points[7] == 160 && points[8] == 5760);
    assert(points[9] == 8192 && points[10] == 8193 && points[11] == 8194 && points[12] == 8195
        && points[13] == 8196 && points[14] == 8197 && points[15] == 8198 && points[16] == 8199);
    assert(points[17] == 8200 && points[18] == 8201 && points[19] == 8202 && points[20] == 8232
        && points[21] == 8233 && points[22] == 8239 && points[23] == 8287 && points[24] == 12288);
}

/// Where the word stands in the whole, it stands in one of the parts.
proof fn lemma_word_in_whole(left: Seq<char>, space: char, right: Seq<char>, word: Seq<char>)
    requires
        is_white_space(space),
        has_word(left + seq![space] + right, word),
    ensures
        has_word(left, word) || has_word(right, word),
{
    let text = left + seq![space] + right;
    let n = word.len() as int;
    let start = choose|start: int|
        {
            &&& 0 <= start <= text.len() - word.len()
            &&& #[trigger] text.subrange(start, start + word.len()) == word
            &&& stands_alone(text, start, start + word.len())
        };
    let middle = left.len() as int;
    assert(text[middle] == space);
    if start <= middle < start + n {
        assert(text.subrange(start, start + n)[middle - start] == word[middle - start]);
        assert(false);
    }
    if start + n <= middle {
        assert(left.subrange(start, start + n) =~= text.subrange(start, start + n));
        assert(stands_alone(left, start, start + n));
    } else {
        let at = start - middle - 1;
        assert(right.subrange(at, at + n) =~= text.subrange(start, start + n));
        assert(at > 0 ==> text[start - 1] == right[at - 1]);
        assert(start + n < text.len() ==> text[start + n] == right[at + n]);
        assert(stands_alone(right, at, at + n));
    }
}

/// Where the word stands in a part, it stands in the whole.
proof fn lemma_word_in_part(left: Seq<char>, space: char, right: Seq<char>, word: Seq<char>)
    requires
        is_white_space(space),
        has_word(left, word) || has_word(right, word),
    ensures
        has_word(left + seq![space] + right, word),
{
    let text = left + seq![space] + right;
    let n = word.len() as int;
    let middle = left.len() as int;
    assert(text[middle] == space);
    if has_word(left, word) {
        let start = choose|start: int|
            {
                &&& 0 <= start <= left.len() - word.len()
                &&& #[trigger] left.subrange(start, start + word.len()) == word
                &&& stands_alone(left, start, start + word.len())
            };
        assert(text.subrange(start, start + n) =~= left.subrange(start, start + n));
        assert(start > 0 ==> text[start - 1] == left[start - 1]);
        assert(start + n < left.len() ==> text[start + n] == left[start + n]);
        assert(stands_alone(text, start, start + n));
    } else {
        let at = choose|start: int|
            {
                &&& 0 <= start <= right.len() - word.len()
                &&& #[trigger] right.subrange(start, start + word.len()) == word
                &&& stands_alone(right, start, start + word.len())
            };
        let start = middle + 1 + at;
        assert(text.subrange(start, start + n) =~= right.subrange(at, at + n));
        assert(text[start - 1] == if at > 0 {
            right[at - 1]
        } else {
            space
        });
        assert(at + n < right.len() ==> text[start + n] == right[at + n]);
        assert(stands_alone(text, start, start + n));
    }
}

/// The words of a text that white space divides are those of its two parts, and a text
/// without white space is one word, if it is not empty.
pub proof fn law_words_are_what_white_space_leaves(
    left: Seq<char>,
    space: char,
    right: Seq<char>,
    word: Seq<char>,
)
    ensures
        is_white_space(space) ==> (has_word(left + seq![space] + right, word) <==> has_word(
            left,
            word,
        ) || has_word(right, word)),
        (forall|i: int| 0 <= i < left.len() ==> !is_white_space(#[trigger] left[i])) ==> (has_word(
            left,
            word,
        ) <==> left.len() > 0 && word == left),
{
    if is_white_space(space) {
        if has_word(left + seq![space] + right, word) {
            lemma_word_in_whole(left, space, right, word);
        }
        if has_word(left, word) || has_word(right, word) {
            lemma_word_in_part(left, space, right, word);
        }
    }
    if forall|i: int| 0 <= i < left.len() ==> !is_white_space(#[trigger] left[i]) {
        if has_word(left, word) {
            let start = choose|start: int|
                {
                    &&& 0 <= start <= left.len() - word.len()
                    &&& #[trigger] left.subrange(start, start + word.len()) == word
                    &&& stands_alone(left, start, start + word.len())
                };
            assert(start == 0 && word.len() == left.len());
            assert(left.subrange(0, left.len() as int) =~= left);
        }
        if left.len() > 0 && word == left {
            assert(left.subrange(0, 0int + word.len()) =~= word);
            assert(stands_alone(left, 0, 0int + word.len()));
        }
    }
}

} // verus!
