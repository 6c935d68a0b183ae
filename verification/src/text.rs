//! Text as sequences of characters: the trimming, comparing, splitting and
//! number writing that the rest of the library does with strings.

use vstd::prelude::*;
use vstd::string::*;

verus! {

/// `String::push` puts one character behind the text that is already there.
pub assume_specification[ String::push ](s: &mut String, c: char)
    ensures
        final(s)@ == old(s)@.push(c),
;

/// What `str::to_lowercase` makes of a text.
pub uninterp spec fn lowercase_of(text: Seq<char>) -> Seq<char>;

/// Lower-cases one ASCII character and keeps any other.
pub open spec fn ascii_lower(c: char) -> char {
    if 'A' <= c && c <= 'Z' {
        ((c as u8) + 32) as char
    } else {
        c
    }
}

/// Upper-cases one ASCII character and keeps any other.
pub open spec fn ascii_upper(c: char) -> char {
    if 'a' <= c && c <= 'z' {
        ((c as u8) - 32) as char
    } else {
        c
    }
}

/// Whether every character of the text is an ASCII character.
pub open spec fn all_ascii(text: Seq<char>) -> bool {
    forall|i: int| 0 <= i < text.len() ==> (#[trigger] text[i] as u32) < 128
}

/// A text with its ASCII letters in lower case.
pub open spec fn ascii_lowered(text: Seq<char>) -> Seq<char> {
    text.map_values(|c: char| ascii_lower(c))
}

/// A text in lower case.
pub open spec fn lowered(text: Seq<char>) -> Seq<char> {
    if all_ascii(text) {
        ascii_lowered(text)
    } else {
        lowercase_of(text)
    }
}

/// Calls `str::to_lowercase`, the Unicode lower-casing of a whole text. Claimed
/// of it: the result depends on the text alone, and a text of ASCII characters
/// has each of them lower-cased in place. The Unicode tables behind the other
/// characters are not written out.
#[verifier::external_body]
pub(crate) fn to_lowercase(text: &str) -> (lower: String)
    ensures
        lower@ == lowercase_of(text@),
        all_ascii(text@) ==> lower@ == ascii_lowered(text@),
{
    text.to_lowercase()
}

/// The characters of a string, one per element.
pub fn chars_of(text: &str) -> (chars: Vec<char>)
    ensures
        chars@ == text@,
{
    let mut chars: Vec<char> = Vec::new();
    for c in it: text.chars()
        invariant
            it.seq() == text@,
            chars@ == text@.take(it.index() as int),
    {
        chars.push(c);
        assert(text@.take(it.index() as int + 1) == text@.take(it.index() as int).push(
            text@[it.index() as int],
        ));
    }
    assert(text@.take(text@.len() as int) == text@);
    chars
}

/// The string that a row of characters spells.
pub fn string_of(chars: &[char]) -> (text: String)
    ensures
        text@ == chars@,
{
    let mut text = String::new();
    for i in 0..chars.len()
        invariant
            text@ == chars@.take(i as int),
    {
        text.push(chars[i]);
        assert(chars@.take(i as int + 1) == chars@.take(i as int).push(chars@[i as int]));
    }
    assert(chars@.take(chars@.len() as int) == chars@);
    text
}

/// Whether two texts are the same, character for character.
pub fn same_text(a: &str, b: &str) -> (same: bool)
    ensures
        same == (a@ == b@),
{
    let left = chars_of(a);
    let right = chars_of(b);
    if left.len() != right.len() {
        return false;
    }
    for i in 0..left.len()
        invariant
            left@ == a@,
            right@ == b@,
            left@.len() == right@.len(),
            forall|j: int| 0 <= j < i ==> left@[j] == right@[j],
    {
        if left[i] != right[i] {
            return false;
        }
    }
    assert(left@ == right@);
    true
}

/// One text behind the other.
pub fn together(a: &str, b: &str) -> (text: String)
    ensures
        text@ == a@ + b@,
{
    let mut text = String::new();
    text.append(a);
    text.append(b);
    assert(text@ == a@ + b@);
    text
}

/// Three texts, one behind the other.
pub fn together3(a: &str, b: &str, c: &str) -> (text: String)
    ensures
        text@ == a@ + b@ + c@,
{
    let front = together(a, b);
    together(&front, c)
}

/// A copy of a text.
pub fn copy_of(text: &str) -> (copy: String)
    ensures
        copy@ == text@,
{
    text.to_owned()
}

/// What an optional text says, if there is one.
pub open spec fn said(text: Option<String>) -> Option<Seq<char>> {
    match text {
        Some(t) => Some(t@),
        None => None,
    }
}

// ---------------------------------------------------------------------
// White space
// ---------------------------------------------------------------------

/// The characters with the Unicode property White_Space.
pub open spec fn white_space(c: char) -> bool {
    let n = c as u32;
    ||| 9 <= n <= 13
    ||| n == 32
    ||| n == 0x85
    ||| n == 0xA0
    ||| n == 0x1680
    ||| 0x2000 <= n <= 0x200A
    ||| n == 0x2028
    ||| n == 0x2029
    ||| n == 0x202F
    ||| n == 0x205F
    ||| n == 0x3000
}

pub fn is_white_space(c: char) -> (yes: bool)
    ensures
        yes == white_space(c),
{
    let n: u32 = c as u32;
    (9 <= n && n <= 13) || n == 32 || n == 0x85 || n == 0xA0 || n == 0x1680 || (0x2000 <= n && n
        <= 0x200A) || n == 0x2028 || n == 0x2029 || n == 0x202F || n == 0x205F || n == 0x3000
}

/// The text without the white space at its front.
pub open spec fn trimmed_front(text: Seq<char>) -> Seq<char>
    decreases text.len(),
{
    if text.len() > 0 && white_space(text[0]) {
        trimmed_front(text.drop_first())
    } else {
        text
    }
}

/// The text without the white space at its back.
pub open spec fn trimmed_back(text: Seq<char>) -> Seq<char>
    decreases text.len(),
{
    if text.len() > 0 && white_space(text.last()) {
        trimmed_back(text.drop_last())
    } else {
        text
    }
}

/// The text without the white space around it.
pub open spec fn trimmed(text: Seq<char>) -> Seq<char> {
    trimmed_back(trimmed_front(text))
}

/// Whether the text holds nothing but white space.
pub open spec fn blank(text: Seq<char>) -> bool {
    forall|i: int| 0 <= i < text.len() ==> white_space(#[trigger] text[i])
}

/// Whether the text neither starts nor ends with white space.
pub open spec fn tight(text: Seq<char>) -> bool {
    text.len() > 0 ==> !white_space(text[0]) && !white_space(text.last())
}

/// A text without white space at either end is its own trimmed form.
pub proof fn trimming_keeps_a_tight_text(text: Seq<char>)
    requires
        tight(text),
    ensures
        trimmed(text) == text,
{
}

/// Trimming leaves no white space at either end, and leaves nothing exactly
/// where the text was blank.
pub proof fn trimming_leaves_a_tight_text(text: Seq<char>)
    ensures
        tight(trimmed(text)),
        trimmed(text).len() == 0 <==> blank(text),
        trimmed(text).len() <= text.len(),
{
    front_is_tight(text);
    back_is_tight(trimmed_front(text));
}

proof fn front_is_tight(text: Seq<char>)
    ensures
        trimmed_front(text).len() <= text.len(),
        trimmed_front(text).len() > 0 ==> !white_space(trimmed_front(text)[0]),
        trimmed_front(text).len() == 0 <==> blank(text),
    decreases text.len(),
{
    if text.len() > 0 && white_space(text[0]) {
        front_is_tight(text.drop_first());
        if blank(text.drop_first()) {
            assert forall|i: int| 0 <= i < text.len() implies white_space(#[trigger] text[i]) by {
                if i > 0 {
                    assert(text[i] == text.drop_first()[i - 1]);
                }
            }
        } else if blank(text) {
            assert forall|i: int| 0 <= i < text.len() - 1 implies white_space(
                #[trigger] text.drop_first()[i],
            ) by {
                assert(text.drop_first()[i] == text[i + 1]);
            }
        }
    } else if text.len() > 0 {
        assert(!white_space(text[0]));
    }
}

proof fn back_is_tight(text: Seq<char>)
    ensures
        trimmed_back(text).len() <= text.len(),
        trimmed_back(text).len() > 0 ==> !white_space(trimmed_back(text).last()),
        trimmed_back(text).len() > 0 ==> trimmed_back(text)[0] == text[0],
        text.len() > 0 && !white_space(text[0]) ==> trimmed_back(text).len() > 0,
    decreases text.len(),
{
    if text.len() > 0 && white_space(text.last()) {
        back_is_tight(text.drop_last());
    }
}

/// The text without the white space around it.
pub fn trim(text: &str) -> (inner: String)
    ensures
        inner@ == trimmed(text@),
{
    let chars = chars_of(text);
    let n: usize = chars.len();
    let mut from: usize = 0;
    assert(chars@.skip(0) == chars@);
    while from < n && is_white_space(chars[from])
        invariant
            n == chars@.len(),
            from <= n,
            trimmed_front(chars@) == trimmed_front(chars@.skip(from as int)),
        decreases n - from,
    {
        assert(chars@.skip(from as int).drop_first() == chars@.skip(from as int + 1));
        from = from + 1;
    }
    let ghost front = chars@.skip(from as int);
    assert(trimmed_front(chars@) == front);
    let mut to: usize = n;
    assert(chars@.subrange(from as int, n as int) == front);
    while from < to && is_white_space(chars[to - 1])
        invariant
            n == chars@.len(),
            from <= to <= n,
            trimmed_back(front) == trimmed_back(chars@.subrange(from as int, to as int)),
        decreases to,
    {
        assert(chars@.subrange(from as int, to as int).drop_last() == chars@.subrange(
            from as int,
            to - 1,
        ));
        to = to - 1;
    }
    assert(trimmed_back(front) == chars@.subrange(from as int, to as int));
    string_of(&chars[from..to])
}

/// Whether the text holds nothing but white space.
pub fn is_blank(text: &str) -> (yes: bool)
    ensures
        yes == blank(text@),
        yes == (trimmed(text@).len() == 0),
{
    proof {
        trimming_leaves_a_tight_text(text@);
    }
    let chars = chars_of(text);
    for i in 0..chars.len()
        invariant
            chars@ == text@,
            forall|j: int| 0 <= j < i ==> white_space(#[trigger] chars@[j]),
            trimmed(text@).len() == 0 <==> blank(text@),
    {
        if !is_white_space(chars[i]) {
            assert(!white_space(text@[i as int]));
            return false;
        }
    }
    true
}

// ---------------------------------------------------------------------
// ASCII letters
// ---------------------------------------------------------------------

pub fn to_ascii_upper(c: char) -> (upper: char)
    ensures
        upper == ascii_upper(c),
{
    if 'a' <= c && c <= 'z' {
        ((c as u8) - 32) as char
    } else {
        c
    }
}

pub fn to_ascii_lower(c: char) -> (lower: char)
    ensures
        lower == ascii_lower(c),
{
    if 'A' <= c && c <= 'Z' {
        ((c as u8) + 32) as char
    } else {
        c
    }
}

/// Whether two texts differ in nothing but the case of ASCII letters.
pub open spec fn same_but_for_case(a: Seq<char>, b: Seq<char>) -> bool {
    &&& a.len() == b.len()
    &&& forall|i: int|
        0 <= i < a.len() ==> ascii_lower(#[trigger] a[i]) == ascii_lower(b[i])
}

/// Texts that differ in the case of ASCII letters alone are the same in lower
/// case. Stated where all of a text is ASCII: behind the other characters stand
/// the Unicode tables.
pub proof fn case_is_lost_in_lower_case(a: Seq<char>, b: Seq<char>)
    requires
        same_but_for_case(a, b),
        all_ascii(a),
    ensures
        all_ascii(b),
        lowered(a) == lowered(b),
{
    assert forall|i: int| 0 <= i < b.len() implies (#[trigger] b[i] as u32) < 128 by {
        assert(ascii_lower(a[i]) == ascii_lower(b[i]));
        assert((a[i] as u32) < 128);
    }
    assert forall|i: int| 0 <= i < a.len() implies ascii_lowered(a)[i] == ascii_lowered(b)[i] by {
        assert(ascii_lower(a[i]) == ascii_lower(b[i]));
    }
    assert(ascii_lowered(a) == ascii_lowered(b));
}

pub fn eq_ignore_ascii_case(a: &str, b: &str) -> (same: bool)
    ensures
        same == same_but_for_case(a@, b@),
{
    let left = chars_of(a);
    let right = chars_of(b);
    if left.len() != right.len() {
        return false;
    }
    for i in 0..left.len()
        invariant
            left@ == a@,
            right@ == b@,
            left@.len() == right@.len(),
            forall|j: int|
                0 <= j < i ==> ascii_lower(#[trigger] left@[j]) == ascii_lower(right@[j]),
    {
        if to_ascii_lower(left[i]) != to_ascii_lower(right[i]) {
            assert(ascii_lower(a@[i as int]) != ascii_lower(b@[i as int]));
            return false;
        }
    }
    true
}

// ---------------------------------------------------------------------
// Decimal numbers
// ---------------------------------------------------------------------

/// The decimal digit that stands for `d`.
pub open spec fn digit(d: int) -> char {
    (48 + d) as char
}

/// A number in decimal digits, without leading zeros.
pub open spec fn decimal(n: nat) -> Seq<char>
    decreases n,
{
    if n < 10 {
        seq![digit(n as int)]
    } else {
        decimal(n / 10).push(digit((n % 10) as int))
    }
}

/// A number below a hundred in two digits, a larger one in all of its digits.
pub open spec fn two_digits(n: nat) -> Seq<char> {
    if n < 10 {
        seq!['0', digit(n as int)]
    } else {
        decimal(n)
    }
}

fn push_decimal(text: &mut String, n: u128)
    ensures
        final(text)@ == old(text)@ + decimal(n as nat),
    decreases n,
{
    if n < 10 {
        text.push((48 + n as u8) as char);
        assert(text@ == old(text)@ + decimal(n as nat));
    } else {
        push_decimal(text, n / 10);
        text.push((48 + (n % 10) as u8) as char);
        assert(text@ == old(text)@ + decimal(n as nat));
    }
}

/// Writes a number in decimal digits.
pub fn decimal_text(n: u128) -> (text: String)
    ensures
        text@ == decimal(n as nat),
{
    let mut text = String::new();
    push_decimal(&mut text, n);
    assert(text@ == decimal(n as nat));
    text
}

/// Writes a number in at least two decimal digits.
pub fn two_digit_text(n: u128) -> (text: String)
    ensures
        text@ == two_digits(n as nat),
{
    if n < 10 {
        let mut text = String::new();
        text.push('0');
        text.push((48 + n as u8) as char);
        assert(text@ == two_digits(n as nat));
        text
    } else {
        decimal_text(n)
    }
}

pub open spec fn is_digit(c: char) -> bool {
    '0' <= c && c <= '9'
}

pub open spec fn all_digits(text: Seq<char>) -> bool {
    forall|i: int| 0 <= i < text.len() ==> is_digit(#[trigger] text[i])
}

/// The number that a row of decimal digits stands for.
pub open spec fn digits_value(text: Seq<char>) -> nat
    decreases text.len(),
{
    if text.len() == 0 {
        0
    } else {
        10 * digits_value(text.drop_last()) + (text.last() as nat - 48) as nat
    }
}

/// The number that a text spells: decimal digits, at least one, with or
/// without a plus sign in front, and no more than `most`.
pub open spec fn number_within(text: Seq<char>, most: nat) -> Option<nat> {
    let digits = if text.len() > 0 && text[0] == '+' {
        text.drop_first()
    } else {
        text
    };
    if digits.len() > 0 && all_digits(digits) && digits_value(digits) <= most {
        Some(digits_value(digits))
    } else {
        None
    }
}

/// The 32-bit number that a text spells.
pub open spec fn number_of(text: Seq<char>) -> Option<u32> {
    match number_within(text, u32::MAX as nat) {
        Some(n) => Some(n as u32),
        None => None,
    }
}

proof fn longer_digits_are_no_less(text: Seq<char>, n: int)
    requires
        0 <= n <= text.len(),
        all_digits(text),
    ensures
        digits_value(text.take(n)) <= digits_value(text),
    decreases text.len(),
{
    if n < text.len() {
        assert(all_digits(text.drop_last())) by {
            assert forall|i: int| 0 <= i < text.len() - 1 implies is_digit(
                #[trigger] text.drop_last()[i],
            ) by {
                assert(text.drop_last()[i] == text[i]);
            }
        }
        longer_digits_are_no_less(text.drop_last(), n);
        assert(text.drop_last().take(n) == text.take(n));
        assert(is_digit(text[text.len() - 1]));
    } else {
        assert(text.take(n) == text);
    }
}

/// Reads an unsigned number that is no more than `most`.
pub fn parse_within(text: &str, most: u64) -> (n: Option<u64>)
    ensures
        match n {
            Some(v) => number_within(text@, most as nat) == Some(v as nat),
            None => number_within(text@, most as nat) is None,
        },
{
    let chars = chars_of(text);
    let start: usize = if chars.len() > 0 && chars[0] == '+' {
        1
    } else {
        0
    };
    let ghost digits = text@.skip(start as int);
    assert(start == 0 ==> digits == text@);
    assert(start == 1 ==> digits == text@.drop_first());
    if start == chars.len() {
        return None;
    }
    let mut value: u128 = 0;
    let mut i: usize = start;
    assert(digits.take(0) == Seq::<char>::empty());
    while i < chars.len()
        invariant
            chars@ == text@,
            start <= i <= chars@.len(),
            digits == text@.skip(start as int),
            number_within(text@, most as nat) == (if digits.len() > 0 && all_digits(digits)
                && digits_value(digits) <= most {
                Some(digits_value(digits))
            } else {
                None
            }),
            forall|j: int| 0 <= j < i - start ==> is_digit(#[trigger] digits[j]),
            value == digits_value(digits.take(i - start)),
            value <= most,
        decreases chars@.len() - i,
    {
        let c = chars[i];
        assert(digits[i - start] == c);
        if !('0' <= c && c <= '9') {
            return None;
        }
        assert(digits.take(i - start + 1).drop_last() == digits.take(i - start));
        value = 10 * value + (c as u128 - 48);
        if value > most as u128 {
            proof {
                if all_digits(digits) {
                    longer_digits_are_no_less(digits, i - start + 1);
                }
            }
            return None;
        }
        i = i + 1;
    }
    assert(digits.take(digits.len() as int) == digits);
    Some(value as u64)
}

/// Reads an unsigned 32-bit number.
pub fn parse_number(text: &str) -> (n: Option<u32>)
    ensures
        n == number_of(text@),
{
    match parse_within(text, u32::MAX as u64) {
        Some(v) => Some(v as u32),
        None => None,
    }
}

/// What `decimal` writes, `number_of` reads back.
pub proof fn written_numbers_are_read_back(n: u32)
    ensures
        number_of(decimal(n as nat)) == Some(n),
        tight(decimal(n as nat)),
        !decimal(n as nat).contains('\n'),
        !decimal(n as nat).contains('\r'),
{
    decimal_digits(n as nat);
    let text = decimal(n as nat);
    assert(is_digit(text[0]));
    assert(is_digit(text[text.len() - 1]));
    if text.contains('\n') {
        let i = choose|i: int| 0 <= i < text.len() && text[i] == '\n';
        assert(is_digit(text[i]));
    }
    if text.contains('\r') {
        let i = choose|i: int| 0 <= i < text.len() && text[i] == '\r';
        assert(is_digit(text[i]));
    }
}

proof fn decimal_digits(n: nat)
    ensures
        decimal(n).len() > 0,
        all_digits(decimal(n)),
        digits_value(decimal(n)) == n,
    decreases n,
{
    let text = decimal(n);
    if n < 10 {
        assert(text.drop_last() == Seq::<char>::empty());
        assert(digits_value(text.drop_last()) == 0);
    } else {
        decimal_digits(n / 10);
        assert(text.drop_last() == decimal(n / 10));
        assert forall|i: int| 0 <= i < text.len() implies is_digit(#[trigger] text[i]) by {
            if i < text.len() - 1 {
                assert(text[i] == decimal(n / 10)[i]);
            }
        }
    }
}

// ---------------------------------------------------------------------
// Searching
// ---------------------------------------------------------------------

/// Whether `part` stands in `text` at position `at`.
pub open spec fn stands_at(text: Seq<char>, part: Seq<char>, at: int) -> bool {
    0 <= at && at + part.len() <= text.len() && text.subrange(at, at + part.len()) == part
}

/// Whether `part` stands anywhere in `text`.
pub open spec fn holds_text(text: Seq<char>, part: Seq<char>) -> bool {
    exists|at: int| stands_at(text, part, at)
}

fn found_at(text: &[char], part: &[char], at: usize) -> (yes: bool)
    requires
        at <= text@.len(),
    ensures
        yes == stands_at(text@, part@, at as int),
{
    let n: usize = text.len();
    if part.len() > n - at {
        return false;
    }
    for k in 0..part.len()
        invariant
            n == text@.len(),
            at + part@.len() <= n,
            forall|j: int| 0 <= j < k ==> text@[at + j] == part@[j],
    {
        if text[at + k] != part[k] {
            assert(text@.subrange(at as int, at + part@.len())[k as int] != part@[k as int]);
            return false;
        }
    }
    assert(text@.subrange(at as int, at + part@.len()) == part@);
    true
}

/// Whether the text starts with `prefix`.
pub fn starts_with(text: &str, prefix: &str) -> (yes: bool)
    ensures
        yes == prefix@.is_prefix_of(text@),
{
    let text_chars = chars_of(text);
    let prefix_chars = chars_of(prefix);
    let yes = found_at(&text_chars, &prefix_chars, 0);
    assert(yes == prefix@.is_prefix_of(text@)) by {
        if prefix@.len() <= text@.len() {
            assert(text@.subrange(0, 0 + prefix@.len() as int) == text@.subrange(
                0,
                prefix@.len() as int,
            ));
        }
    }
    yes
}

/// The text without the prefix in front, if that is what it starts with.
pub open spec fn without_prefix(text: Seq<char>, prefix: Seq<char>) -> Seq<char> {
    if prefix.is_prefix_of(text) {
        text.skip(prefix.len() as int)
    } else {
        text
    }
}

/// The text without the prefix in front, if that is what it starts with.
pub fn strip_prefix(text: &str, prefix: &str) -> (rest: String)
    ensures
        rest@ == without_prefix(text@, prefix@),
{
    if starts_with(text, prefix) {
        let text_chars = chars_of(text);
        let prefix_chars = chars_of(prefix);
        let n: usize = text_chars.len();
        let rest = string_of(&text_chars[prefix_chars.len()..n]);
        assert(rest@ == text@.skip(prefix@.len() as int));
        rest
    } else {
        copy_of(text)
    }
}

/// The words with a space between each two.
pub open spec fn spaced(words: Seq<Seq<char>>) -> Seq<char>
    decreases words.len(),
{
    if words.len() == 0 {
        Seq::empty()
    } else if words.len() == 1 {
        words[0]
    } else {
        spaced(words.drop_last()) + seq![' '] + words.last()
    }
}

/// Joins words with a space between each two.
pub fn join_words(words: &Vec<String>) -> (text: String)
    ensures
        text@ == spaced(words@.map_values(|w: String| w@)),
{
    let ghost all = words@.map_values(|w: String| w@);
    let mut text = String::new();
    assert(text@ == spaced(all.take(0)));
    for i in 0..words.len()
        invariant
            all == words@.map_values(|w: String| w@),
            text@ == spaced(all.take(i as int)),
    {
        assert(all.take(i + 1).drop_last() == all.take(i as int));
        assert(all.take(i + 1).last() == words@[i as int]@);
        if i > 0 {
            text.push(' ');
        }
        let ghost before = text@;
        text.append(&words[i]);
        assert(text@ == spaced(all.take(i + 1))) by {
            if i > 0 {
                assert(before == spaced(all.take(i as int)) + seq![' ']);
            } else {
                assert(before.len() == 0);
                assert(text@ == all.take(1)[0]);
            }
        }
    }
    assert(all.take(all.len() as int) == all);
    text
}

/// Whether `part` stands anywhere in `text`.
pub fn contains_text(text: &str, part: &str) -> (yes: bool)
    ensures
        yes == holds_text(text@, part@),
{
    let text_chars = chars_of(text);
    let part_chars = chars_of(part);
    let mut at: usize = 0;
    loop
        invariant
            text_chars@ == text@,
            part_chars@ == part@,
            at <= text@.len(),
            forall|k: int| 0 <= k < at ==> !stands_at(text@, part@, k),
        decreases text@.len() - at,
    {
        if found_at(&text_chars, &part_chars, at) {
            assert(stands_at(text@, part@, at as int));
            return true;
        }
        if at == text_chars.len() {
            return false;
        }
        at = at + 1;
    }
}

// ---------------------------------------------------------------------
// Lines
// ---------------------------------------------------------------------

/// Where the first line feed stands, or the text's length without one.
pub open spec fn line_end(text: Seq<char>) -> int
    decreases text.len(),
{
    if text.len() == 0 || text[0] == '\n' {
        0
    } else {
        1 + line_end(text.drop_first())
    }
}

/// A line without the carriage return that stood before its line feed.
pub open spec fn without_return(line: Seq<char>) -> Seq<char> {
    if line.len() > 0 && line.last() == '\r' {
        line.drop_last()
    } else {
        line
    }
}

/// The lines of a text, without their line endings; the last line may lack one.
pub open spec fn lines_of(text: Seq<char>) -> Seq<Seq<char>>
    decreases text.len(),
    via lines_of_ends
{
    let end = line_end(text);
    if text.len() == 0 {
        Seq::empty()
    } else if end >= text.len() {
        seq![text]
    } else {
        seq![without_return(text.take(end))] + lines_of(text.skip(end + 1))
    }
}

#[via_fn]
proof fn lines_of_ends(text: Seq<char>) {
    line_end_bounds(text);
}

pub proof fn line_end_bounds(text: Seq<char>)
    ensures
        0 <= line_end(text) <= text.len(),
        line_end(text) < text.len() ==> text[line_end(text)] == '\n',
        forall|i: int| 0 <= i < line_end(text) ==> text[i] != '\n',
    decreases text.len(),
{
    if text.len() > 0 && text[0] != '\n' {
        let rest = text.drop_first();
        line_end_bounds(rest);
        assert forall|i: int| 0 <= i < line_end(text) implies text[i] != '\n' by {
            if i > 0 {
                assert(text[i] == rest[i - 1]);
            }
        }
    }
}

/// No line holds a line feed.
pub proof fn lines_hold_no_line_feed(text: Seq<char>, i: int)
    requires
        0 <= i < lines_of(text).len(),
    ensures
        !lines_of(text)[i].contains('\n'),
    decreases text.len(),
{
    line_end_bounds(text);
    let end = line_end(text);
    let line = lines_of(text)[i];
    if end < text.len() && i > 0 {
        let rest = text.skip(end + 1);
        lines_hold_no_line_feed(rest, i - 1);
        assert(line == lines_of(rest)[i - 1]);
    } else if line.contains('\n') {
        let k = choose|k: int| 0 <= k < line.len() && line[k] == '\n';
        assert(text[k] == '\n');
    }
}

/// Trimming adds no character.
pub proof fn trimming_adds_nothing(text: Seq<char>, c: char)
    requires
        trimmed(text).contains(c),
    ensures
        text.contains(c),
{
    back_adds_nothing(trimmed_front(text), c);
    front_adds_nothing(text, c);
}

proof fn front_adds_nothing(text: Seq<char>, c: char)
    requires
        trimmed_front(text).contains(c),
    ensures
        text.contains(c),
    decreases text.len(),
{
    if text.len() > 0 && white_space(text[0]) {
        let rest = text.drop_first();
        front_adds_nothing(rest, c);
        let i = choose|i: int| 0 <= i < rest.len() && rest[i] == c;
        assert(text[i + 1] == c);
    }
}

proof fn back_adds_nothing(text: Seq<char>, c: char)
    requires
        trimmed_back(text).contains(c),
    ensures
        text.contains(c),
    decreases text.len(),
{
    if text.len() > 0 && white_space(text.last()) {
        let rest = text.drop_last();
        back_adds_nothing(rest, c);
        let i = choose|i: int| 0 <= i < rest.len() && rest[i] == c;
        assert(text[i] == c);
    }
}

/// A line without a line feed, put in front of a line feed and more text, is
/// the first line.
pub proof fn first_line_of(line: Seq<char>, rest: Seq<char>)
    requires
        !line.contains('\n'),
    ensures
        lines_of(line + seq!['\n'] + rest) == seq![without_return(line)] + lines_of(rest),
{
    let text = line + seq!['\n'] + rest;
    line_end_bounds(text);
    assert(text[line.len() as int] == '\n');
    assert(line_end(text) <= line.len());
    if line_end(text) < line.len() {
        assert(text[line_end(text)] == line[line_end(text)]);
        assert(line.contains(line[line_end(text)]));
    }
    assert(text.take(line_end(text)) == line);
    assert(text.skip(line_end(text) + 1) == rest);
}

/// Splits a text into its lines.
pub fn lines(text: &str) -> (parts: Vec<String>)
    ensures
        parts@.map_values(|s: String| s@) == lines_of(text@),
{
    let chars = chars_of(text);
    let n: usize = chars.len();
    let mut parts: Vec<String> = Vec::new();
    let mut from: usize = 0;
    assert(chars@.skip(0) == chars@);
    while from < n
        invariant
            chars@ == text@,
            n == chars@.len(),
            from <= n,
            lines_of(text@) == parts@.map_values(|s: String| s@) + lines_of(
                chars@.skip(from as int),
            ),
        decreases n - from,
    {
        let ghost rest = chars@.skip(from as int);
        let mut to: usize = from;
        assert(rest.skip(0) == rest);
        while to < n && chars[to] != '\n'
            invariant
                n == chars@.len(),
                from <= to <= n,
                rest == chars@.skip(from as int),
                line_end(rest) == to - from + line_end(rest.skip(to - from)),
            decreases n - to,
        {
            assert(rest.skip(to - from)[0] == chars@[to as int]);
            assert(rest.skip(to - from).drop_first() == rest.skip(to - from + 1));
            to = to + 1;
        }
        assert(to < n ==> rest.skip(to - from)[0] == chars@[to as int]);
        assert(line_end(rest) == to - from);
        let ghost before = parts@.map_values(|s: String| s@);
        if to == n {
            let line = string_of(&chars[from..n]);
            assert(line@ == rest);
            parts.push(line);
            assert(parts@.map_values(|s: String| s@) == before.push(rest));
            assert(chars@.skip(n as int).len() == 0);
            assert(lines_of(chars@.skip(n as int)) == Seq::<Seq<char>>::empty());
            assert(parts@.map_values(|s: String| s@) + lines_of(chars@.skip(n as int)) == before
                + seq![rest]);
            from = n;
        } else {
            assert(rest.take(to - from) == chars@.subrange(from as int, to as int));
            let end: usize = if to > from && chars[to - 1] == '\r' {
                to - 1
            } else {
                to
            };
            let line = string_of(&chars[from..end]);
            assert(line@ == without_return(rest.take(to - from)));
            parts.push(line);
            assert(parts@.map_values(|s: String| s@) == before.push(line@));
            assert(rest.skip(to - from + 1) == chars@.skip(to + 1));
            assert(before.push(line@) + lines_of(chars@.skip(to + 1)) == before + (seq![line@]
                + lines_of(chars@.skip(to + 1))));
            from = to + 1;
        }
    }
    assert(lines_of(chars@.skip(n as int)) == Seq::<Seq<char>>::empty());
    parts
}

/// Numbers below a hundred are written with two digits, which are read as the
/// number.
pub proof fn two_digits_are_two(n: nat)
    requires
        n < 100,
    ensures
        two_digits(n).len() == 2,
        all_digits(two_digits(n)),
        digits_value(two_digits(n)) == n,
{
    reveal_with_fuel(decimal, 3);
    reveal_with_fuel(digits_value, 3);
    let text = two_digits(n);
    if n < 10 {
        assert(text.drop_last() == seq!['0']);
        assert(text.drop_last().drop_last() == Seq::<char>::empty());
    } else {
        assert(text.drop_last() == seq![digit((n / 10) as int)]);
        assert(text.drop_last().drop_last() == Seq::<char>::empty());
    }
}

// ---------------------------------------------------------------------
// Laws
// ---------------------------------------------------------------------

/// What an optional text says is the text, and none says nothing.
pub proof fn an_option_says_its_text(text: String)
    ensures
        said(Some(text)) == Some(text@),
        said(None) is None,
{
}

/// The characters that count as white space.
pub proof fn these_are_white_space(c: char)
    ensures
        white_space(c) <==> seq![
            '\u{9}',
            '\u{A}',
            '\u{B}',
            '\u{C}',
            '\u{D}',
            '\u{20}',
            '\u{85}',
            '\u{A0}',
            '\u{1680}',
            '\u{2000}',
            '\u{2001}',
            '\u{2002}',
            '\u{2003}',
            '\u{2004}',
            '\u{2005}',
            '\u{2006}',
            '\u{2007}',
            '\u{2008}',
            '\u{2009}',
            '\u{200A}',
            '\u{2028}',
            '\u{2029}',
            '\u{202F}',
            '\u{205F}',
            '\u{3000}',
        ].contains(c),
{
    let all = seq![
        '\u{9}',
        '\u{A}',
        '\u{B}',
        '\u{C}',
        '\u{D}',
        '\u{20}',
        '\u{85}',
        '\u{A0}',
        '\u{1680}',
        '\u{2000}',
        '\u{2001}',
        '\u{2002}',
        '\u{2003}',
        '\u{2004}',
        '\u{2005}',
        '\u{2006}',
        '\u{2007}',
        '\u{2008}',
        '\u{2009}',
        '\u{200A}',
        '\u{2028}',
        '\u{2029}',
        '\u{202F}',
        '\u{205F}',
        '\u{3000}',
    ];
    if white_space(c) {
        let n = c as int;
        let i = if n <= 13 {
            n - 9
        } else if n == 32 {
            5
        } else if n == 0x85 {
            6
        } else if n == 0xA0 {
            7
        } else if n == 0x1680 {
            8
        } else if n <= 0x200A {
            n - 0x2000 + 9
        } else if n == 0x2028 {
            20
        } else if n == 0x2029 {
            21
        } else if n == 0x202F {
            22
        } else if n == 0x205F {
            23
        } else {
            24
        };
        assert(all[i] == c);
    }
    if all.contains(c) {
        let i = choose|i: int| 0 <= i < all.len() && all[i] == c;
        assert(white_space(all[i]));
    }
}

proof fn trimming_the_front_takes_white_space(text: Seq<char>)
    ensures
        exists|front: Seq<char>|
            blank(front) && text == #[trigger] (front + trimmed_front(text)),
    decreases text.len(),
{
    if text.len() > 0 && white_space(text[0]) {
        trimming_the_front_takes_white_space(text.drop_first());
        let rest = choose|front: Seq<char>|
            blank(front) && text.drop_first() == #[trigger] (front + trimmed_front(
                text.drop_first(),
            ));
        let front = seq![text[0]] + rest;
        let inner = trimmed_front(text);
        assert(inner == trimmed_front(text.drop_first()));
        assert(text.drop_first() == rest + inner);
        assert(text == seq![text[0]] + (rest + inner)) by {
            assert(text == seq![text[0]] + text.drop_first());
        }
        assert(seq![text[0]] + (rest + inner) == front + inner);
        assert(blank(front));
    } else {
        assert(text == Seq::<char>::empty() + trimmed_front(text));
    }
}

proof fn trimming_the_back_takes_white_space(text: Seq<char>)
    ensures
        exists|back: Seq<char>| blank(back) && text == #[trigger] (trimmed_back(text) + back),
    decreases text.len(),
{
    if text.len() > 0 && white_space(text.last()) {
        trimming_the_back_takes_white_space(text.drop_last());
        let rest = choose|back: Seq<char>|
            blank(back) && text.drop_last() == #[trigger] (trimmed_back(text.drop_last()) + back);
        let back = rest.push(text.last());
        let inner = trimmed_back(text);
        assert(inner == trimmed_back(text.drop_last()));
        assert(text.drop_last() == inner + rest);
        assert(text == (inner + rest).push(text.last())) by {
            assert(text == text.drop_last().push(text.last()));
        }
        assert((inner + rest).push(text.last()) == inner + back);
        assert(blank(back));
    } else {
        assert(text == trimmed_back(text) + Seq::<char>::empty());
    }
}

/// Trimming takes white space away at both ends, as far as it goes, and nothing
/// else.
pub proof fn trimming_takes_white_space_alone(text: Seq<char>)
    ensures
        exists|front: Seq<char>, back: Seq<char>|
            blank(front) && blank(back) && text == #[trigger] (front + trimmed(text) + back),
        tight(trimmed(text)),
{
    trimming_leaves_a_tight_text(text);
    trimming_the_front_takes_white_space(text);
    let inner = trimmed_front(text);
    trimming_the_back_takes_white_space(inner);
    let front = choose|front: Seq<char>| blank(front) && text == #[trigger] (front + inner);
    let back = choose|back: Seq<char>| blank(back) && inner == #[trigger] (trimmed(text) + back);
    assert(text == front + trimmed(text) + back);
}

/// In ASCII, lower case turns the capital letters into small ones and leaves
/// every other character as it is; upper case does it the other way round.
pub proof fn case_is_thirty_two_apart(text: Seq<char>, i: int)
    requires
        0 <= i < text.len(),
        all_ascii(text),
    ensures
        lowered(text).len() == text.len(),
        65 <= text[i] as u32 <= 90 ==> lowered(text)[i] as u32 == text[i] as u32 + 32,
        !(65 <= text[i] as u32 <= 90) ==> lowered(text)[i] == text[i],
        97 <= text[i] as u32 <= 122 ==> ascii_upper(text[i]) as u32 == text[i] as u32 - 32,
        !(97 <= text[i] as u32 <= 122) ==> ascii_upper(text[i]) == text[i],
{
}

/// Two characters are the same but for their case where they are equal or the
/// two cases of one ASCII letter.
pub proof fn same_letters_differ_by_their_case(a: Seq<char>, b: Seq<char>)
    ensures
        same_but_for_case(a, b) <==> a.len() == b.len() && forall|i: int|
            0 <= i < a.len() ==> {
                ||| #[trigger] a[i] == b[i]
                ||| 65 <= a[i] as u32 <= 90 && b[i] as u32 == a[i] as u32 + 32
                ||| 65 <= b[i] as u32 <= 90 && a[i] as u32 == b[i] as u32 + 32
            },
{
    if a.len() == b.len() {
        assert forall|i: int| 0 <= i < a.len() implies ((ascii_lower(#[trigger] a[i])
            == ascii_lower(b[i])) <==> {
            ||| a[i] == b[i]
            ||| 65 <= a[i] as u32 <= 90 && b[i] as u32 == a[i] as u32 + 32
            ||| 65 <= b[i] as u32 <= 90 && a[i] as u32 == b[i] as u32 + 32
        }) by {}
    }
}

/// A number is written in digits that are read as the number, without a zero in
/// front.
pub proof fn decimals_are_read_as_their_number(n: nat)
    ensures
        decimal(n).len() > 0,
        all_digits(decimal(n)),
        digits_value(decimal(n)) == n,
        n > 0 ==> decimal(n)[0] != '0',
        n == 0 ==> decimal(n) == seq!['0'],
    decreases n,
{
    reveal_with_fuel(digits_value, 2);
    if n < 10 {
        assert(decimal(n).drop_last() == Seq::<char>::empty());
    } else {
        decimals_are_read_as_their_number(n / 10);
        assert(decimal(n).drop_last() == decimal(n / 10));
        assert(decimal(n)[0] == decimal(n / 10)[0]);
    }
}

/// Digits are read as a decimal number: each one more counts for ten of the
/// next.
pub proof fn digits_count_in_tens(text: Seq<char>, d: int)
    requires
        0 <= d < 10,
    ensures
        digits_value(text.push((48 + d) as char)) == 10 * digits_value(text) + d,
        digits_value(Seq::<char>::empty()) == 0,
{
    assert(text.push((48 + d) as char).drop_last() == text);
}

/// A text is a number exactly where it is made of digits alone, at least one,
/// perhaps behind a plus, and the number is not too large.
pub proof fn numbers_are_made_of_digits(digits: Seq<char>)
    requires
        digits.len() > 0,
    ensures
        all_digits(digits) && digits_value(digits) <= u32::MAX ==> {
            &&& number_of(digits) == Some(digits_value(digits) as u32)
            &&& number_of(seq!['+'] + digits) == Some(digits_value(digits) as u32)
        },
        digits[0] != '+' && !(all_digits(digits) && digits_value(digits) <= u32::MAX) ==> {
            &&& number_of(digits) is None
            &&& number_of(seq!['+'] + digits) is None
        },
        number_of(Seq::empty()) is None,
        number_of(seq!['+']) is None,
{
    assert((seq!['+'] + digits).drop_first() == digits);
    assert(seq!['+'].drop_first() == Seq::<char>::empty());
    if all_digits(digits) {
        assert(is_digit(digits[0]));
    }
}

/// A text without a line feed is one line, as it is, unless it is empty.
pub proof fn the_last_line_is_kept_as_it_is(line: Seq<char>)
    requires
        !line.contains('\n'),
    ensures
        line.len() > 0 ==> lines_of(line) == seq![line],
        line.len() == 0 ==> lines_of(line) == Seq::<Seq<char>>::empty(),
{
    line_end_bounds(line);
    if line_end(line) < line.len() {
        assert(line[line_end(line)] == '\n');
        assert(line.contains('\n'));
    }
}

/// Words are put together with one space between any two of them.
pub proof fn words_are_one_space_apart(words: Seq<Seq<char>>, more: Seq<Seq<char>>)
    ensures
        words.len() > 0 && more.len() > 0 ==> spaced(words + more) == spaced(words) + seq![' ']
            + spaced(more),
        words.len() == 1 ==> spaced(words) == words[0],
        words.len() == 0 ==> spaced(words) == Seq::<char>::empty(),
    decreases more.len(),
{
    if words.len() > 0 && more.len() > 0 {
        assert((words + more).drop_last() == words + more.drop_last());
        assert((words + more).last() == more.last());
        if more.len() == 1 {
            assert(words + more.drop_last() == words);
        } else {
            words_are_one_space_apart(words, more.drop_last());
            assert(spaced(words + more) == spaced(words) + seq![' '] + spaced(more));
        }
    }
}

/// A prefix is taken off where it stands in front, and nothing is where it does
/// not.
pub proof fn prefixes_are_taken_off(prefix: Seq<char>, rest: Seq<char>, text: Seq<char>)
    ensures
        without_prefix(prefix + rest, prefix) == rest,
        !prefix.is_prefix_of(text) ==> without_prefix(text, prefix) == text,
{
    let whole = prefix + rest;
    assert(whole.subrange(0, prefix.len() as int) == prefix);
    assert(whole.skip(prefix.len() as int) == rest);
}

/// A line ends with a line feed, or with a carriage return and a line feed, and
/// is everything in front of that.
pub proof fn lines_end_in_either_way(line: Seq<char>, rest: Seq<char>)
    requires
        !line.contains('\n'),
    ensures
        lines_of(line + seq!['\r', '\n'] + rest) == seq![line] + lines_of(rest),
        !(line.len() > 0 && line.last() == '\r') ==> lines_of(line + seq!['\n'] + rest) == seq![line]
            + lines_of(rest),
{
    let long = line.push('\r');
    assert(!long.contains('\n')) by {
        if long.contains('\n') {
            let i = choose|i: int| 0 <= i < long.len() && long[i] == '\n';
            assert(line[i] == '\n');
        }
    }
    first_line_of(long, rest);
    first_line_of(line, rest);
    assert(long + seq!['\n'] + rest == line + seq!['\r', '\n'] + rest);
    assert(long.drop_last() == line);
}

} // verus!
