//! Text as sequences of characters: searching, joining, decimal numbers and order.

use vstd::prelude::*;
use vstd::string::*;

verus! {

/// [`String::push`]: appends one character to the text.
pub assume_specification[ String::push ](text: &mut String, character: char)
    ensures
        final(text)@ == old(text)@.push(character),
;

/// Whether `text` holds exactly the characters of `other`.
pub fn text_is(text: &String, other: &str) -> (same: bool)
    ensures
        same == (text@ == other@),
{
    let owned = other.to_owned();
    *text == owned
}

/// The characters of `text`, in order.
pub fn characters(text: &str) -> (chars: Vec<char>)
    ensures
        chars@ == text@,
{
    let mut chars: Vec<char> = Vec::new();
    for character in iter: text.chars()
        invariant
            iter.seq() == text@,
            chars@ == text@.take(iter.index() as int),
    {
        chars.push(character);
        assert(text@.take(iter.index() + 1) =~= text@.take(iter.index() as int).push(character));
    }
    assert(text@.take(text@.len() as int) =~= text@);
    chars
}

/// The text made of `chars`.
pub fn text_of(chars: &[char]) -> (text: String)
    ensures
        text@ == chars@,
{
    let mut text = String::new();
    let mut index: usize = 0;
    while index < chars.len()
        invariant
            index <= chars.len(),
            text@ == chars@.take(index as int),
        decreases chars.len() - index,
    {
        text.push(chars[index]);
        assert(chars@.take(index + 1) =~= chars@.take(index as int).push(chars@[index as int]));
        index = index + 1;
    }
    assert(chars@.take(chars@.len() as int) =~= chars@);
    text
}

/// The texts of a list, each as its characters.
pub open spec fn text_views(texts: Seq<String>) -> Seq<Seq<char>> {
    texts.map_values(|text: String| text@)
}

/// The characters of a text that may be absent.
pub open spec fn optional_text(text: Option<String>) -> Option<Seq<char>> {
    match text {
        Some(text) => Some(text@),
        None => None,
    }
}

/// The texts of a list of which each may be absent.
pub open spec fn optional_texts(texts: Seq<Option<String>>) -> Seq<Option<Seq<char>>> {
    texts.map_values(|text: Option<String>| optional_text(text))
}

/// A copy of a text that may be absent.
pub fn copy_optional(text: &Option<String>) -> (copy: Option<String>)
    ensures
        copy == *text,
{
    match text {
        Some(text) => Some(text.clone()),
        None => None,
    }
}

/// A copy of a list of texts.
pub fn copy_texts(texts: &Vec<String>) -> (copy: Vec<String>)
    ensures
        copy@ == texts@,
{
    let mut copy: Vec<String> = Vec::new();
    let mut index: usize = 0;
    while index < texts.len()
        invariant
            index <= texts.len(),
            copy@ == texts@.take(index as int),
        decreases texts.len() - index,
    {
        copy.push(texts[index].clone());
        assert(texts@.take(index + 1) =~= texts@.take(index as int).push(texts@[index as int]));
        index = index + 1;
    }
    assert(texts@.take(texts@.len() as int) =~= texts@);
    copy
}

/// Whether `text` is in the list `texts`.
pub fn list_has(texts: &Vec<String>, text: &String) -> (has: bool)
    ensures
        has == text_views(texts@).contains(text@),
{
    let mut index: usize = 0;
    while index < texts.len()
        invariant
            index <= texts.len(),
            forall|at: int| 0 <= at < index ==> text_views(texts@)[at] != text@,
        decreases texts.len() - index,
    {
        if texts[index] == *text {
            assert(text_views(texts@)[index as int] == text@);
            return true;
        }
        index = index + 1;
    }
    false
}

/// `left` followed by `right`.
pub fn join(left: &str, right: &str) -> (joined: String)
    ensures
        joined@ == left@ + right@,
{
    left.to_owned().concat(right)
}

/// `text` without its last character, where it has one.
pub open spec fn shortened(text: Seq<char>) -> Seq<char> {
    if text.len() == 0 {
        text
    } else {
        text.drop_last()
    }
}

/// `text` without its last character.
pub fn without_last(text: &str) -> (shorter: String)
    ensures
        shorter@ == shortened(text@),
{
    let length: usize = text.unicode_len();
    if length == 0 {
        return text.to_owned();
    }
    assert(text@.subrange(0, length - 1) =~= text@.drop_last());
    text.substring_char(0, length - 1).to_owned()
}

/// The decimal digit that stands for `digit`, for `digit < 10`.
pub open spec fn digit_char(digit: nat) -> char {
    (48 + digit) as char
}

/// `number` in decimal, without leading zeros.
pub open spec fn decimal(number: nat) -> Seq<char>
    decreases number,
{
    if number < 10 {
        seq![digit_char(number)]
    } else {
        decimal(number / 10).push(digit_char(number % 10))
    }
}

/// `number` in decimal, with a leading minus sign where it is negative.
pub open spec fn signed_decimal(number: int) -> Seq<char> {
    if number < 0 {
        seq!['-'] + decimal((-number) as nat)
    } else {
        decimal(number as nat)
    }
}

/// The digit character of `digit`.
fn digit_of(digit: u64) -> (character: char)
    requires
        digit < 10,
    ensures
        character == digit_char(digit as nat),
{
    let code: u8 = 48 + digit as u8;
    code as char
}

/// `number` in decimal.
pub fn decimal_text(number: u64) -> (text: String)
    ensures
        text@ == decimal(number as nat),
    decreases number,
{
    let mut text = if number < 10 {
        String::new()
    } else {
        decimal_text(number / 10)
    };
    text.push(digit_of(number % 10));
    assert(text@ =~= decimal(number as nat));
    text
}

/// `number` in decimal, with a minus sign where it is negative.
pub fn signed_decimal_text(number: i32) -> (text: String)
    ensures
        text@ == signed_decimal(number as int),
{
    if number < 0 {
        let magnitude: u64 = (-(number as i64)) as u64;
        let digits = decimal_text(magnitude);
        let mut text = String::new();
        text.push('-');
        text.append(digits.as_str());
        assert(text@ =~= signed_decimal(number as int));
        text
    } else {
        decimal_text(number as u64)
    }
}

/// Whether `character` is one of the ten ASCII digits.
pub open spec fn is_digit(character: char) -> bool {
    '0' <= character && character <= '9'
}

/// Whether every character of `text` is an ASCII digit.
pub open spec fn all_digits(text: Seq<char>) -> bool {
    forall|index: int| 0 <= index < text.len() ==> is_digit(#[trigger] text[index])
}

/// The number that the digits of `text` stand for.
pub open spec fn decimal_value(text: Seq<char>) -> nat
    decreases text.len(),
{
    if text.len() == 0 {
        0
    } else {
        (decimal_value(text.drop_last()) * 10 + (text.last() as nat - 48)) as nat
    }
}

/// The number that a non-empty run of digits stands for.
pub open spec fn digits_value(text: Seq<char>) -> Option<nat> {
    if text.len() > 0 && all_digits(text) {
        Some(decimal_value(text))
    } else {
        None
    }
}

/// The number that `text` is read as: digits, after at most one plus sign.
pub open spec fn unsigned_value(text: Seq<char>) -> Option<nat> {
    if text.len() > 0 && text[0] == '+' {
        digits_value(text.skip(1))
    } else {
        digits_value(text)
    }
}

/// The number that `text` is read as: digits, after at most one sign.
pub open spec fn signed_value(text: Seq<char>) -> Option<int> {
    if text.len() > 0 && text[0] == '-' {
        match digits_value(text.skip(1)) {
            Some(value) => Some(-(value as int)),
            None => None,
        }
    } else {
        match unsigned_value(text) {
            Some(value) => Some(value as int),
            None => None,
        }
    }
}

/// Every decimal numeral is a non-empty run of digits and reads back as its number.
pub proof fn decimal_reads_back(number: nat)
    ensures
        decimal(number).len() > 0,
        all_digits(decimal(number)),
        decimal_value(decimal(number)) == number,
        unsigned_value(decimal(number)) == Some(number),
    decreases number,
{
    if number >= 10 {
        decimal_reads_back(number / 10);
        assert(decimal(number).drop_last() =~= decimal(number / 10));
    } else {
        assert(decimal(number).drop_last() =~= Seq::<char>::empty());
        assert(decimal_value(Seq::<char>::empty()) == 0);
    }
    let text = decimal(number);
    assert(text.last() == digit_char(number % 10));
    assert forall|index: int| 0 <= index < text.len() implies is_digit(#[trigger] text[index]) by {
        if number >= 10 && index < text.len() - 1 {
            assert(text[index] == decimal(number / 10)[index]);
        }
    }
    assert(is_digit(text[0]));
}

/// Every signed decimal numeral reads back as its number.
pub proof fn signed_decimal_reads_back(number: int)
    ensures
        signed_value(signed_decimal(number)) == Some(number),
{
    if number < 0 {
        decimal_reads_back((-number) as nat);
        assert(signed_decimal(number).skip(1) =~= decimal((-number) as nat));
    } else {
        decimal_reads_back(number as nat);
        assert(is_digit(decimal(number as nat)[0]));
    }
}

/// The value of the digits from `start` on, where there are some and it is at most `limit`.
fn read_digits(chars: &[char], start: usize, limit: u64) -> (value: Option<u64>)
    requires
        start <= chars.len(),
        limit <= 0x1_0000_0000,
    ensures
        value == (match digits_value(chars@.skip(start as int)) {
            Some(number) => if number <= limit {
                Some(number as u64)
            } else {
                None
            },
            None => None,
        }),
{
    let ghost digits = chars@.skip(start as int);
    if start == chars.len() {
        return None;
    }
    let mut value: u64 = 0;
    let mut large = false;
    let mut index: usize = start;
    assert(digits.take(0) =~= Seq::<char>::empty());
    while index < chars.len()
        invariant
            start <= index <= chars.len(),
            digits == chars@.skip(start as int),
            all_digits(digits.take(index - start)),
            limit <= 0x1_0000_0000,
            !large ==> value == decimal_value(digits.take(index - start)) && value <= limit,
            large ==> decimal_value(digits.take(index - start)) > limit,
        decreases chars.len() - index,
    {
        let character = chars[index];
        assert(digits[index - start] == character);
        if character < '0' || character > '9' {
            assert(!is_digit(digits[index - start]));
            return None;
        }
        let ghost next = digits.take(index - start + 1);
        assert(next.drop_last() =~= digits.take(index - start));
        assert(next.last() == character);
        assert(all_digits(next)) by {
            assert forall|at: int| 0 <= at < next.len() implies is_digit(#[trigger] next[at]) by {
                if at < index - start {
                    assert(next[at] == digits.take(index - start)[at]);
                }
            }
        }
        if !large {
            value = value * 10 + (character as u64 - 48);
            if value > limit {
                large = true;
            }
        }
        index = index + 1;
    }
    assert(digits.take(index - start) =~= digits);
    if large {
        None
    } else {
        Some(value)
    }
}

/// The number that `chars` is read as, where a `u32` can hold it.
pub fn parse_u32(chars: &[char]) -> (value: Option<u32>)
    ensures
        value == (match unsigned_value(chars@) {
            Some(number) => if number <= u32::MAX {
                Some(number as u32)
            } else {
                None
            },
            None => None,
        }),
{
    let start: usize = if chars.len() > 0 && chars[0] == '+' {
        1
    } else {
        0
    };
    assert(chars@.skip(0) =~= chars@);
    match read_digits(chars, start, u32::MAX as u64) {
        Some(value) => Some(value as u32),
        None => None,
    }
}

/// The number that `chars` is read as, where an `i32` can hold it.
pub fn parse_i32(chars: &[char]) -> (value: Option<i32>)
    ensures
        value == (match signed_value(chars@) {
            Some(number) => if i32::MIN <= number <= i32::MAX {
                Some(number as i32)
            } else {
                None
            },
            None => None,
        }),
{
    assert(chars@.skip(0) =~= chars@);
    if chars.len() > 0 && chars[0] == '-' {
        match read_digits(chars, 1, 0x8000_0000) {
            Some(value) => Some((-(value as i64)) as i32),
            None => None,
        }
    } else {
        let start: usize = if chars.len() > 0 && chars[0] == '+' {
            1
        } else {
            0
        };
        match read_digits(chars, start, i32::MAX as u64) {
            Some(value) => Some(value as i32),
            None => None,
        }
    }
}

/// Whether `text` begins with `prefix`.
pub open spec fn begins_with<T>(text: Seq<T>, prefix: Seq<T>) -> bool {
    prefix.len() <= text.len() && text.take(prefix.len() as int) == prefix
}

/// Whether `text` ends with `suffix`.
pub open spec fn finishes_with<T>(text: Seq<T>, suffix: Seq<T>) -> bool {
    suffix.len() <= text.len() && text.skip(text.len() - suffix.len()) == suffix
}

/// Whether `chars` holds `part` at `start`.
fn holds_at(chars: &[char], start: usize, part: &[char]) -> (holds: bool)
    requires
        start + part.len() <= chars.len(),
    ensures
        holds == (chars@.subrange(start as int, start + part@.len()) == part@),
{
    let mut index: usize = 0;
    while index < part.len()
        invariant
            index <= part.len(),
            start + part.len() <= chars.len(),
            forall|at: int| 0 <= at < index ==> chars@[start + at] == #[trigger] part@[at],
        decreases part.len() - index,
    {
        if chars[start + index] != part[index] {
            assert(chars@.subrange(start as int, start + part@.len())[index as int]
                != part@[index as int]);
            return false;
        }
        index = index + 1;
    }
    assert(chars@.subrange(start as int, start + part@.len()) =~= part@);
    true
}

/// Whether `chars` begins with the characters of `prefix`.
pub fn starts_with(chars: &[char], prefix: &str) -> (starts: bool)
    ensures
        starts == begins_with(chars@, prefix@),
{
    let part = characters(prefix);
    if part.len() > chars.len() {
        return false;
    }
    assert(chars@.subrange(0, part@.len() as int) =~= chars@.take(part@.len() as int));
    holds_at(chars, 0, part.as_slice())
}

/// Whether `chars` ends with the characters of `suffix`.
pub fn ends_with(chars: &[char], suffix: &str) -> (ends: bool)
    ensures
        ends == finishes_with(chars@, suffix@),
{
    let part = characters(suffix);
    if part.len() > chars.len() {
        return false;
    }
    let start: usize = chars.len() - part.len();
    assert(chars@.subrange(start as int, chars@.len() as int) =~= chars@.skip(start as int));
    holds_at(chars, start, part.as_slice())
}

/// The characters of `chars` from `start` on.
pub fn rest_of(chars: &[char], start: usize) -> (rest: Vec<char>)
    requires
        start <= chars.len(),
    ensures
        rest@ == chars@.skip(start as int),
{
    slice_of(chars, start, chars.len())
}

/// The characters of `chars` in `start..end`.
pub fn slice_of(chars: &[char], start: usize, end: usize) -> (part: Vec<char>)
    requires
        start <= end <= chars.len(),
    ensures
        part@ == chars@.subrange(start as int, end as int),
{
    let mut part: Vec<char> = Vec::new();
    let mut index: usize = start;
    while index < end
        invariant
            start <= index <= end <= chars.len(),
            part@ == chars@.subrange(start as int, index as int),
        decreases end - index,
    {
        part.push(chars[index]);
        assert(chars@.subrange(start as int, index + 1) =~= chars@.subrange(
            start as int,
            index as int,
        ).push(chars@[index as int]));
        index = index + 1;
    }
    part
}

/// Whether some position of `text` holds `part`.
pub open spec fn holds_part<T>(text: Seq<T>, part: Seq<T>) -> bool {
    exists|start: int|
        0 <= start <= text.len() - part.len() && #[trigger] text.subrange(
            start,
            start + part.len(),
        ) == part
}

/// Whether `part` occurs in `chars`.
pub fn contains_part(chars: &[char], part: &[char]) -> (found: bool)
    ensures
        found == holds_part(chars@, part@),
{
    if part.len() > chars.len() {
        return false;
    }
    let last: usize = chars.len() - part.len();
    let mut start: usize = 0;
    loop
        invariant
            start <= last,
            last + part.len() == chars.len(),
            forall|at: int|
                0 <= at < start ==> #[trigger] chars@.subrange(at, at + part@.len()) != part@,
        decreases last - start,
    {
        if holds_at(chars, start, part) {
            return true;
        }
        if start == last {
            return false;
        }
        start = start + 1;
    }
}

/// Whether `character` has the Unicode `White_Space` property.
pub open spec fn is_white_space(character: char) -> bool {
    let code = character as u32;
    ||| 0x9 <= code <= 0xd
    ||| code == 0x20
    ||| code == 0x85
    ||| code == 0xa0
    ||| code == 0x1680
    ||| 0x2000 <= code <= 0x200a
    ||| code == 0x2028
    ||| code == 0x2029
    ||| code == 0x202f
    ||| code == 0x205f
    ||| code == 0x3000
}

/// Whether `character` is a Unicode control character (general category `Cc`).
pub open spec fn is_control(character: char) -> bool {
    let code = character as u32;
    code <= 0x1f || 0x7f <= code <= 0x9f
}

/// Whether `character` is white space.
pub fn white_space(character: char) -> (white: bool)
    ensures
        white == is_white_space(character),
{
    let code: u32 = character as u32;
    (0x9 <= code && code <= 0xd) || code == 0x20 || code == 0x85 || code == 0xa0 || code == 0x1680
        || (0x2000 <= code && code <= 0x200a) || code == 0x2028 || code == 0x2029 || code == 0x202f
        || code == 0x205f || code == 0x3000
}

/// Whether `character` is a control character.
pub fn control(character: char) -> (is: bool)
    ensures
        is == is_control(character),
{
    let code: u32 = character as u32;
    code <= 0x1f || (0x7f <= code && code <= 0x9f)
}

/// Whether `text` holds a control character.
pub open spec fn has_control(text: Seq<char>) -> bool {
    exists|index: int| 0 <= index < text.len() && is_control(#[trigger] text[index])
}

/// Whether `chars` holds a control character.
pub fn any_control(chars: &[char]) -> (any: bool)
    ensures
        any == has_control(chars@),
{
    let mut index: usize = 0;
    while index < chars.len()
        invariant
            index <= chars.len(),
            forall|at: int| 0 <= at < index ==> !is_control(#[trigger] chars@[at]),
        decreases chars.len() - index,
    {
        if control(chars[index]) {
            return true;
        }
        index = index + 1;
    }
    false
}

/// `text` without the white space at its beginning.
pub open spec fn trim_front(text: Seq<char>) -> Seq<char>
    decreases text.len(),
{
    if text.len() > 0 && is_white_space(text[0]) {
        trim_front(text.skip(1))
    } else {
        text
    }
}

/// `text` without the white space at its end.
pub open spec fn trim_back(text: Seq<char>) -> Seq<char>
    decreases text.len(),
{
    if text.len() > 0 && is_white_space(text.last()) {
        trim_back(text.drop_last())
    } else {
        text
    }
}

/// `text` without the white space at both ends.
pub open spec fn trimmed(text: Seq<char>) -> Seq<char> {
    trim_back(trim_front(text))
}

/// The characters of `chars` without the white space at both ends.
pub fn trim(chars: &[char]) -> (inner: Vec<char>)
    ensures
        inner@ == trimmed(chars@),
{
    let mut start: usize = 0;
    assert(chars@.skip(0) =~= chars@);
    while start < chars.len() && white_space(chars[start])
        invariant
            start <= chars.len(),
            trim_front(chars@) == trim_front(chars@.skip(start as int)),
        decreases chars.len() - start,
    {
        assert(chars@.skip(start as int).skip(1) =~= chars@.skip(start + 1));
        start = start + 1;
    }
    let ghost front = chars@.skip(start as int);
    assert(trim_front(chars@) == front);
    let mut end: usize = chars.len();
    assert(chars@.subrange(start as int, end as int) =~= front);
    while end > start && white_space(chars[end - 1])
        invariant
            start <= end <= chars.len(),
            front == chars@.skip(start as int),
            trim_back(front) == trim_back(chars@.subrange(start as int, end as int)),
        decreases end - start,
    {
        let ghost part = chars@.subrange(start as int, end as int);
        assert(part.last() == chars@[end - 1]);
        assert(part.drop_last() =~= chars@.subrange(start as int, end - 1));
        end = end - 1;
    }
    let ghost part = chars@.subrange(start as int, end as int);
    assert(part.len() > 0 ==> part.last() == chars@[end - 1]);
    slice_of(chars, start, end)
}

/// Whether `left` comes before `right` in the order of their characters.
pub open spec fn text_before(left: Seq<char>, right: Seq<char>) -> bool
    decreases left.len(),
{
    if right.len() == 0 {
        false
    } else if left.len() == 0 {
        true
    } else if left[0] != right[0] {
        left[0] < right[0]
    } else {
        text_before(left.skip(1), right.skip(1))
    }
}

/// Whether `left` comes before `right`.
pub fn comes_before(left: &[char], right: &[char]) -> (before: bool)
    ensures
        before == text_before(left@, right@),
{
    let mut index: usize = 0;
    assert(left@.skip(0) =~= left@);
    assert(right@.skip(0) =~= right@);
    while index < left.len() && index < right.len() && left[index] == right[index]
        invariant
            index <= left.len(),
            index <= right.len(),
            text_before(left@, right@) == text_before(
                left@.skip(index as int),
                right@.skip(index as int),
            ),
        decreases left.len() - index,
    {
        assert(left@.skip(index as int).skip(1) =~= left@.skip(index + 1));
        assert(right@.skip(index as int).skip(1) =~= right@.skip(index + 1));
        index = index + 1;
    }
    let ghost left_rest = left@.skip(index as int);
    let ghost right_rest = right@.skip(index as int);
    if index == right.len() {
        false
    } else if index == left.len() {
        true
    } else {
        assert(left_rest[0] == left@[index as int]);
        assert(right_rest[0] == right@[index as int]);
        left[index] < right[index]
    }
}

/// Of two texts that differ, exactly one comes before the other, and none comes before itself.
pub proof fn text_order_is_total(left: Seq<char>, right: Seq<char>)
    ensures
        left == right ==> !text_before(left, right),
        left != right ==> text_before(left, right) != text_before(right, left),
    decreases left.len(),
{
    if left.len() > 0 && right.len() > 0 {
        if left[0] == right[0] {
            text_order_is_total(left.skip(1), right.skip(1));
            if left.skip(1) == right.skip(1) {
                assert(left =~= seq![left[0]] + left.skip(1));
                assert(right =~= seq![right[0]] + right.skip(1));
            }
        }
    } else if left.len() == 0 && right.len() == 0 {
        assert(left =~= right);
    }
}

/// The order of texts is transitive.
pub proof fn text_order_is_transitive(first: Seq<char>, second: Seq<char>, third: Seq<char>)
    requires
        text_before(first, second),
        text_before(second, third),
    ensures
        text_before(first, third),
    decreases first.len(),
{
    if first.len() > 0 {
        if first[0] == second[0] && second[0] == third[0] {
            text_order_is_transitive(first.skip(1), second.skip(1), third.skip(1));
        }
    }
}

/// What `str::to_lowercase` makes of `text`.
pub uninterp spec fn lowercase(text: Seq<char>) -> Seq<char>;

/// [`str::to_lowercase`]: the lowercase form of `text`, which depends on `text` alone.
#[verifier::external_body]
pub(crate) fn to_lowercase(text: &str) -> (lower: String)
    ensures
        lower@ == lowercase(text@),
{
    text.to_lowercase()
}

/// At most `maximum` characters of `text`: all of them, or the first `maximum - 1` and an ellipsis.
pub open spec fn elided(text: Seq<char>, maximum: nat) -> Seq<char> {
    if text.len() <= maximum {
        text
    } else if maximum == 0 {
        seq!['\u{2026}']
    } else {
        text.take(maximum - 1).push('\u{2026}')
    }
}

/// `text` cut to `maximum` characters, the last of which then is an ellipsis.
pub fn elide(text: &str, maximum: usize) -> (short: String)
    ensures
        short@ == elided(text@, maximum as nat),
{
    if text.unicode_len() <= maximum {
        return text.to_owned();
    }
    let keep: usize = maximum.saturating_sub(1);
    let mut short = text.substring_char(0, keep).to_owned();
    short.push('\u{2026}');
    assert(text@.subrange(0, keep as int) =~= text@.take(keep as int));
    assert(short@ =~= elided(text@, maximum as nat));
    short
}

/// The parts of `text` between separators.
pub open spec fn split_on<T>(text: Seq<T>, separator: T) -> Seq<Seq<T>>
    decreases text.len(),
{
    if text.len() == 0 {
        seq![seq![]]
    } else {
        let before = split_on(text.drop_last(), separator);
        if text.last() == separator {
            before.push(seq![])
        } else {
            before.drop_last().push(before.last().push(text.last()))
        }
    }
}

/// A text without a separator is its only part.
pub proof fn split_whole<T>(text: Seq<T>, separator: T)
    requires
        !text.contains(separator),
    ensures
        split_on(text, separator) == seq![text],
    decreases text.len(),
{
    if text.len() > 0 {
        assert(text.drop_last().contains(separator) ==> text.contains(separator)) by {
            if text.drop_last().contains(separator) {
                let at = choose|at: int|
                    0 <= at < text.drop_last().len() && text.drop_last()[at] == separator;
                assert(text[at] == separator);
            }
        }
        split_whole(text.drop_last(), separator);
        assert(text.last() != separator) by {
            assert(text[text.len() - 1] == text.last());
        }
        assert(text.drop_last().push(text.last()) =~= text);
        assert(split_on(text, separator) =~= seq![text]);
    } else {
        assert(text =~= seq![]);
        assert(split_on(text, separator) =~= seq![text]);
    }
}

/// The first part ends at the first separator.
pub proof fn split_first<T>(first: Seq<T>, rest: Seq<T>, separator: T)
    requires
        !first.contains(separator),
    ensures
        split_on(first.push(separator) + rest, separator) == seq![first] + split_on(
            rest,
            separator,
        ),
        split_on(rest, separator).len() > 0,
    decreases rest.len(),
{
    let text = first.push(separator) + rest;
    if rest.len() == 0 {
        split_whole(first, separator);
        assert(text.drop_last() =~= first);
        assert(split_on(text, separator) =~= seq![first] + split_on(rest, separator));
    } else {
        split_first(first, rest.drop_last(), separator);
        assert(text.drop_last() =~= first.push(separator) + rest.drop_last());
        assert(split_on(text, separator) =~= seq![first] + split_on(rest, separator));
    }
}

/// The parts of a list, each as a sequence.
pub open spec fn part_views(parts: Seq<Vec<char>>) -> Seq<Seq<char>> {
    parts.map_values(|part: Vec<char>| part@)
}

/// The parts of `chars` between separators.
pub fn split_chars(chars: &[char], separator: char) -> (parts: Vec<Vec<char>>)
    ensures
        part_views(parts@) == split_on(chars@, separator),
        parts@.len() > 0,
{
    let mut parts: Vec<Vec<char>> = Vec::new();
    let mut part: Vec<char> = Vec::new();
    let mut at: usize = 0;
    assert(chars@.take(0) =~= seq![]);
    assert(part_views(parts@).push(part@) =~= split_on(chars@.take(0), separator));
    while at < chars.len()
        invariant
            at <= chars.len(),
            part_views(parts@).push(part@) == split_on(chars@.take(at as int), separator),
        decreases chars.len() - at,
    {
        assert(chars@.take(at + 1).drop_last() =~= chars@.take(at as int));
        let ghost done = part_views(parts@);
        let ghost before = done.push(part@);
        assert(before.drop_last() =~= done);
        if chars[at] == separator {
            let ghost whole = part@;
            parts.push(part);
            part = Vec::new();
            assert(part_views(parts@) =~= done.push(whole));
            assert(part_views(parts@).push(part@) =~= split_on(chars@.take(at + 1), separator));
        } else {
            part.push(chars[at]);
            assert(part_views(parts@).push(part@) =~= split_on(chars@.take(at + 1), separator));
        }
        at = at + 1;
    }
    assert(chars@.take(at as int) =~= chars@);
    let ghost done = part_views(parts@);
    let ghost whole = part@;
    parts.push(part);
    assert(part_views(parts@) =~= done.push(whole));
    parts
}

/// The texts one after the other, with `separator` between them.
pub open spec fn joined_with(parts: Seq<Seq<char>>, separator: Seq<char>) -> Seq<char>
    decreases parts.len(),
{
    if parts.len() == 0 {
        seq![]
    } else if parts.len() == 1 {
        parts[0]
    } else {
        joined_with(parts.drop_last(), separator) + separator + parts.last()
    }
}

/// The texts one after the other, with `separator` between them.
pub fn join_texts(parts: &Vec<String>, separator: &str) -> (text: String)
    ensures
        text@ == joined_with(text_views(parts@), separator@),
{
    let ghost views = text_views(parts@);
    let mut text = String::new();
    assert(views.take(0) =~= seq![]);
    let mut at: usize = 0;
    while at < parts.len()
        invariant
            at <= parts.len(),
            views == text_views(parts@),
            text@ == joined_with(views.take(at as int), separator@),
        decreases parts.len() - at,
    {
        assert(views.take(at + 1).drop_last() =~= views.take(at as int));
        assert(views.take(at + 1).last() == parts@[at as int]@);
        if at == 0 {
            text = parts[at].clone();
        } else {
            text = join(join(text.as_str(), separator).as_str(), parts[at].as_str());
        }
        at = at + 1;
    }
    assert(views.take(at as int) =~= views);
    text
}

/// Whether two lists hold the same texts.
pub fn same_texts(left: &Vec<String>, right: &Vec<String>) -> (same: bool)
    ensures
        same == (text_views(left@) == text_views(right@)),
{
    assert(text_views(left@).len() == left@.len());
    assert(text_views(right@).len() == right@.len());
    if left.len() != right.len() {
        return false;
    }
    let mut at: usize = 0;
    while at < left.len()
        invariant
            at <= left.len(),
            left.len() == right.len(),
            forall|earlier: int|
                0 <= earlier < at ==> #[trigger] text_views(left@)[earlier] == text_views(
                    right@,
                )[earlier],
        decreases left.len() - at,
    {
        assert(text_views(left@)[at as int] == left@[at as int]@);
        assert(text_views(right@)[at as int] == right@[at as int]@);
        if !text_is(&left[at], right[at].as_str()) {
            return false;
        }
        at = at + 1;
    }
    assert(text_views(left@) =~= text_views(right@));
    true
}

/// Whether two texts that may be absent are the same.
pub fn same_optional(left: &Option<String>, right: &Option<String>) -> (same: bool)
    ensures
        same == (optional_text(*left) == optional_text(*right)),
{
    match (left, right) {
        (Some(left), Some(right)) => text_is(left, right.as_str()),
        (None, None) => true,
        _ => false,
    }
}

/// Trimming takes away the white space round a text and nothing of the text itself.
pub proof fn trimming_takes_away_white_space(front: Seq<char>, inner: Seq<char>, back: Seq<char>)
    requires
        forall|at: int| 0 <= at < front.len() ==> is_white_space(#[trigger] front[at]),
        forall|at: int| 0 <= at < back.len() ==> is_white_space(#[trigger] back[at]),
        inner.len() > 0 ==> !is_white_space(inner[0]) && !is_white_space(inner.last()),
    ensures
        trimmed(front + inner + back) == inner,
    decreases front.len() + back.len(),
{
    let whole = front + inner + back;
    if front.len() > 0 {
        assert(is_white_space(front[0]));
        assert(whole[0] == front[0]);
        let rest = front.skip(1);
        assert forall|at: int| 0 <= at < rest.len() implies is_white_space(#[trigger] rest[at]) by {
            assert(is_white_space(front[at + 1]));
        }
        assert(whole.skip(1) =~= rest + inner + back);
        trimming_takes_away_white_space(rest, inner, back);
    } else if inner.len() == 0 {
        assert(whole =~= back);
        blank_texts_are_trimmed_away(back);
        assert(trimmed(whole) =~= inner);
    } else {
        assert(whole =~= inner + back);
        assert(whole[0] == inner[0]);
        trimming_the_end(inner, back);
    }
}

/// Of a text that is all white space nothing is left.
proof fn blank_texts_are_trimmed_away(text: Seq<char>)
    requires
        forall|at: int| 0 <= at < text.len() ==> is_white_space(#[trigger] text[at]),
    ensures
        trimmed(text).len() == 0,
    decreases text.len(),
{
    if text.len() > 0 {
        let rest = text.skip(1);
        assert forall|at: int| 0 <= at < rest.len() implies is_white_space(#[trigger] rest[at]) by {
            assert(is_white_space(text[at + 1]));
        }
        assert(is_white_space(text[0]));
        blank_texts_are_trimmed_away(rest);
    }
}

/// Trimming the end of a text leaves what is before the white space.
proof fn trimming_the_end(inner: Seq<char>, back: Seq<char>)
    requires
        inner.len() > 0,
        !is_white_space(inner.last()),
        forall|at: int| 0 <= at < back.len() ==> is_white_space(#[trigger] back[at]),
    ensures
        trim_back(inner + back) == inner,
    decreases back.len(),
{
    let whole = inner + back;
    if back.len() == 0 {
        assert(whole =~= inner);
    } else {
        let rest = back.drop_last();
        assert forall|at: int| 0 <= at < rest.len() implies is_white_space(#[trigger] rest[at]) by {
            assert(is_white_space(back[at]));
        }
        assert(is_white_space(back[back.len() - 1]));
        assert(whole.last() == back[back.len() - 1]);
        assert(whole.drop_last() =~= inner + rest);
        trimming_the_end(inner, rest);
    }
}

/// The parts of a text with the separators between them are the text, and no part holds a separator.
pub proof fn parts_make_up_their_text(text: Seq<char>, separator: char)
    ensures
        joined_with(split_on(text, separator), seq![separator]) == text,
        split_on(text, separator).len() > 0,
        forall|at: int|
            0 <= at < split_on(text, separator).len() ==> !(#[trigger] split_on(
                text,
                separator,
            )[at]).contains(separator),
    decreases text.len(),
{
    let parts = split_on(text, separator);
    if text.len() == 0 {
        assert(parts[0] =~= text);
        assert(joined_with(parts, seq![separator]) =~= text);
    } else {
        let front = text.drop_last();
        let before = split_on(front, separator);
        parts_make_up_their_text(front, separator);
        assert(text =~= front.push(text.last()));
        if text.last() == separator {
            assert(parts.drop_last() =~= before);
            assert(joined_with(parts, seq![separator]) =~= text);
            assert forall|at: int| 0 <= at < parts.len() implies !(#[trigger] parts[at]).contains(
                separator,
            ) by {
                if at < before.len() {
                    assert(!before[at].contains(separator));
                }
            }
        } else {
            assert(parts.drop_last() =~= before.drop_last());
            if before.len() == 1 {
                assert(joined_with(parts, seq![separator]) =~= text);
            } else {
                assert(joined_with(parts, seq![separator]) =~= text);
            }
            assert forall|at: int| 0 <= at < parts.len() implies !(#[trigger] parts[at]).contains(
                separator,
            ) by {
                assert(!before[at].contains(separator));
                if at == parts.len() - 1 {
                    let last = before.last();
                    if parts[at].contains(separator) {
                        let place = choose|place: int|
                            0 <= place < parts[at].len() && parts[at][place] == separator;
                        assert(last[place] == separator);
                    }
                }
            }
        }
    }
}

/// A text that is too long is cut so that an ellipsis still fits, and one that fits is not cut.
pub proof fn long_texts_end_in_an_ellipsis(text: Seq<char>, maximum: nat)
    requires
        maximum > 0,
    ensures
        elided(text, maximum).len() <= maximum,
        text.len() <= maximum ==> elided(text, maximum) == text,
        text.len() > maximum ==> elided(text, maximum).len() == maximum && elided(
            text,
            maximum,
        ).last() == '\u{2026}' && begins_with(text, elided(text, maximum).drop_last()),
{
    if text.len() > maximum {
        assert(elided(text, maximum).drop_last() =~= text.take(maximum - 1));
    }
}

/// Taking the last character away undoes adding one.
pub proof fn shortening_undoes_typing(text: Seq<char>, character: char)
    ensures
        shortened(text.push(character)) == text,
        shortened(Seq::<char>::empty()) == Seq::<char>::empty(),
{
    assert(text.push(character).drop_last() =~= text);
}

/// A text begins with its front, ends with its back, and holds what is between.
pub proof fn texts_hold_their_parts(front: Seq<char>, inner: Seq<char>, back: Seq<char>)
    ensures
        begins_with(front + back, front),
        finishes_with(front + back, back),
        holds_part(front + inner + back, inner),
        front.len() > 0 && begins_with(back, front) ==> back[0] == front[0],
        front.len() > 0 && finishes_with(back, front) ==> back.last() == front.last(),
{
    let whole = front + back;
    assert(whole.take(front.len() as int) =~= front);
    assert(whole.skip(whole.len() - back.len()) =~= back);
    let longer = front + inner + back;
    let start = front.len() as int;
    assert(longer.subrange(start, start + inner.len()) =~= inner);
    if front.len() > 0 && begins_with(back, front) {
        assert(back.take(front.len() as int)[0] == front[0]);
    }
    if front.len() > 0 && finishes_with(back, front) {
        let tail = back.skip(back.len() - front.len());
        assert(tail.last() == front.last());
    }
}

/// Of texts that begin alike, the smaller character comes first where they part, and what ends first
/// comes before what goes on.
pub proof fn texts_are_ordered_where_they_part(
    front: Seq<char>,
    one: char,
    left: Seq<char>,
    other: char,
    right: Seq<char>,
)
    ensures
        one != other ==> text_before(front.push(one) + left, front.push(other) + right) == (one
            < other),
        text_before(front, front.push(one) + left),
        !text_before(front.push(one) + left, front),
    decreases front.len(),
{
    let a = front.push(one) + left;
    let b = front.push(other) + right;
    if front.len() > 0 {
        let rest = front.skip(1);
        texts_are_ordered_where_they_part(rest, one, left, other, right);
        assert(a.skip(1) =~= rest.push(one) + left);
        assert(b.skip(1) =~= rest.push(other) + right);
        assert(a[0] == front[0] && b[0] == front[0]);
    } else {
        assert(a[0] == one && b[0] == other);
    }
}

} // verus!
