//! Character-level text rules shared by the header, query and URL logic.
//!
//! Every function here works on the characters of a string. The specification
//! functions take `Seq<char>`, the view of `str` and `String`; the executable
//! ones take character slices, which index in constant time.

use vstd::prelude::*;
use vstd::slice::slice_subrange;

verus! {

/// The number of characters that a URL or a JSON text has at most where it is parsed:
/// the parsers count some of them in 32 bits with a sign.
pub const MAX_PARSED_CHARS: usize = 0x7fff_ffff;

/// `String::push`: the string grows by one character at its end.
pub assume_specification[ std::string::String::push ](text: &mut std::string::String, c: char)
    ensures
        final(text)@ == old(text)@.push(c),
;

/// The characters with the Unicode property White_Space.
pub open spec fn is_white_space(c: char) -> bool {
    ||| '\u{9}' <= c <= '\u{d}'
    ||| c == ' '
    ||| c == '\u{85}'
    ||| c == '\u{a0}'
    ||| c == '\u{1680}'
    ||| '\u{2000}' <= c <= '\u{200a}'
    ||| c == '\u{2028}'
    ||| c == '\u{2029}'
    ||| c == '\u{202f}'
    ||| c == '\u{205f}'
    ||| c == '\u{3000}'
}

/// Decides [`is_white_space`].
pub fn white_space(c: char) -> (yes: bool)
    ensures
        yes == is_white_space(c),
{
    ('\u{9}' <= c && c <= '\u{d}') || c == ' ' || c == '\u{85}' || c == '\u{a0}' || c == '\u{1680}'
        || ('\u{2000}' <= c && c <= '\u{200a}') || c == '\u{2028}' || c == '\u{2029}' || c
        == '\u{202f}' || c == '\u{205f}' || c == '\u{3000}'
}

/// `text` without its leading white space.
pub open spec fn trim_start(text: Seq<char>) -> Seq<char>
    decreases text.len(),
{
    if text.len() > 0 && is_white_space(text.first()) {
        trim_start(text.drop_first())
    } else {
        text
    }
}

/// `text` without its trailing white space.
pub open spec fn trim_end(text: Seq<char>) -> Seq<char>
    decreases text.len(),
{
    if text.len() > 0 && is_white_space(text.last()) {
        trim_end(text.drop_last())
    } else {
        text
    }
}

/// `text` without white space at either end.
pub open spec fn trim(text: Seq<char>) -> Seq<char> {
    trim_end(trim_start(text))
}

/// A text without white space has nothing to trim.
pub proof fn lemma_trim_nothing(text: Seq<char>)
    requires
        forall|i: int| 0 <= i < text.len() ==> !is_white_space(#[trigger] text[i]),
    ensures
        trim(text) == text,
{
    if text.len() > 0 {
        assert(!is_white_space(text[0]));
        assert(!is_white_space(text[text.len() - 1]));
    }
}

/// The part of `text` that [`trim`] keeps.
pub fn trimmed(text: &[char]) -> (kept: &[char])
    ensures
        kept@ == trim(text@),
{
    let mut start: usize = 0;
    assert(text@.skip(0) =~= text@);
    while start < text.len() && white_space(text[start])
        invariant
            start <= text@.len(),
            trim_start(text@) == trim_start(text@.skip(start as int)),
        decreases text@.len() - start,
    {
        assert(text@.skip(start as int).drop_first() =~= text@.skip(start + 1));
        start = start + 1;
    }
    let mut end: usize = text.len();
    let ghost front = text@.skip(start as int);
    assert(trim_start(text@) == front);
    assert(front.take(end - start) =~= front);
    while end > start && white_space(text[end - 1])
        invariant
            start <= end <= text@.len(),
            front == text@.skip(start as int),
            trim_end(front) == trim_end(front.take(end - start)),
        decreases end,
    {
        assert(front.take(end - start).drop_last() =~= front.take(end - start - 1));
        end = end - 1;
    }
    assert(text@.subrange(start as int, end as int) =~= front.take(end - start));
    slice_subrange(text, start, end)
}

/// The ASCII lower-case form of one character; other characters stay as they are.
pub open spec fn lower_char(c: char) -> char {
    if 'A' <= c <= 'Z' {
        ((c as u8) + 32) as char
    } else {
        c
    }
}

/// The ASCII lower-case form of `text`.
pub open spec fn lowercase(text: Seq<char>) -> Seq<char> {
    text.map_values(|c: char| lower_char(c))
}

/// A text in lower case stays as it is.
pub proof fn lemma_lowercase_twice(text: Seq<char>)
    ensures
        lowercase(lowercase(text)) == lowercase(text),
{
    assert(lowercase(lowercase(text)) =~= lowercase(text));
}

/// Computes [`lower_char`].
pub fn lowered_char(c: char) -> (lowered: char)
    ensures
        lowered == lower_char(c),
{
    if 'A' <= c && c <= 'Z' {
        ((c as u8) + 32) as char
    } else {
        c
    }
}

/// Computes [`lowercase`].
pub fn lowercased(text: &[char]) -> (lowered: Vec<char>)
    ensures
        lowered@ == lowercase(text@),
{
    let mut lowered: Vec<char> = Vec::new();
    let mut i: usize = 0;
    while i < text.len()
        invariant
            i <= text@.len(),
            lowered@ == lowercase(text@.take(i as int)),
        decreases text@.len() - i,
    {
        lowered.push(lowered_char(text[i]));
        assert(lowercase(text@.take(i + 1)) =~= lowercase(text@.take(i as int)).push(
            lower_char(text@[i as int]),
        ));
        i = i + 1;
    }
    assert(text@.take(i as int) =~= text@);
    lowered
}

/// The characters of `text`, in order.
pub fn chars_of(text: &str) -> (chars: Vec<char>)
    ensures
        chars@ == text@,
{
    let mut chars: Vec<char> = Vec::new();
    for c in iter: text.chars()
        invariant
            chars@ == text@.take(iter.index() as int),
            iter.seq() == text@,
    {
        chars.push(c);
        assert(text@.take(iter.index() + 1) =~= text@.take(iter.index() as int).push(c));
    }
    assert(text@.take(text@.len() as int) =~= text@);
    chars
}

/// The string that holds `chars`, in order.
pub fn text_of(chars: &[char]) -> (text: String)
    ensures
        text@ == chars@,
{
    let mut text = String::new();
    let mut i: usize = 0;
    while i < chars.len()
        invariant
            i <= chars@.len(),
            text@ == chars@.take(i as int),
        decreases chars@.len() - i,
    {
        text.push(chars[i]);
        assert(chars@.take(i + 1) =~= chars@.take(i as int).push(chars@[i as int]));
        i = i + 1;
    }
    assert(chars@.take(i as int) =~= chars@);
    text
}

/// Whether two strings differ at most in the case of ASCII letters.
pub open spec fn eq_ignore_case(a: Seq<char>, b: Seq<char>) -> bool {
    lowercase(a) == lowercase(b)
}

/// Decides whether `chars` are the characters of `text`.
pub fn is_text(chars: &[char], text: &str) -> (same: bool)
    ensures
        same == (chars@ == text@),
{
    let other = chars_of(text);
    same_chars(chars, other.as_slice())
}

/// Decides whether two character slices are equal.
pub fn same_chars(a: &[char], b: &[char]) -> (same: bool)
    ensures
        same == (a@ == b@),
{
    if a.len() != b.len() {
        return false;
    }
    let mut i: usize = 0;
    while i < a.len()
        invariant
            i <= a@.len(),
            a@.len() == b@.len(),
            a@.take(i as int) == b@.take(i as int),
        decreases a@.len() - i,
    {
        if a[i] != b[i] {
            return false;
        }
        assert(a@.take(i + 1) =~= a@.take(i as int).push(a@[i as int]));
        assert(b@.take(i + 1) =~= b@.take(i as int).push(b@[i as int]));
        i = i + 1;
    }
    assert(a@.take(i as int) =~= a@);
    assert(b@.take(i as int) =~= b@);
    true
}

/// Decides whether two strings have the same characters.
pub fn same_text(a: &str, b: &str) -> (same: bool)
    ensures
        same == (a@ == b@),
{
    let chars = chars_of(a);
    is_text(chars.as_slice(), b)
}

/// Decides [`eq_ignore_case`].
pub fn same_ignoring_case(a: &str, b: &str) -> (same: bool)
    ensures
        same == eq_ignore_case(a@, b@),
{
    let left = chars_of(a);
    let right = chars_of(b);
    let lower_left = lowercased(left.as_slice());
    let lower_right = lowercased(right.as_slice());
    same_chars(lower_left.as_slice(), lower_right.as_slice())
}

fn begins_with(chars: &[char], wanted: &[char]) -> (yes: bool)
    ensures
        yes == wanted@.is_prefix_of(chars@),
{
    if chars.len() < wanted.len() {
        return false;
    }
    let head = slice_subrange(chars, 0, wanted.len());
    same_chars(head, wanted)
}

/// Decides whether `chars` start with `prefix`.
pub fn starts_with(chars: &[char], prefix: &str) -> (yes: bool)
    ensures
        yes == prefix@.is_prefix_of(chars@),
{
    let wanted = chars_of(prefix);
    begins_with(chars, wanted.as_slice())
}

/// Decides whether `chars` end with `suffix`.
pub fn ends_with(chars: &[char], suffix: &str) -> (yes: bool)
    ensures
        yes == suffix@.is_suffix_of(chars@),
{
    let wanted = chars_of(suffix);
    if chars.len() < wanted.len() {
        return false;
    }
    let tail = slice_subrange(chars, chars.len() - wanted.len(), chars.len());
    same_chars(tail, wanted.as_slice())
}

/// The place of the first `separator` in `text`, or the length of `text` where
/// there is none.
pub open spec fn char_index(text: Seq<char>, separator: char) -> int
    decreases text.len(),
{
    if text.len() == 0 || text.first() == separator {
        0
    } else {
        1 + char_index(text.drop_first(), separator)
    }
}

/// What [`char_index`] means: no separator stands before it, and one stands
/// there unless it is the end.
pub proof fn lemma_char_index(text: Seq<char>, separator: char)
    ensures
        0 <= char_index(text, separator) <= text.len(),
        forall|i: int|
            0 <= i < char_index(text, separator) ==> #[trigger] text[i] != separator,
        char_index(text, separator) < text.len() ==> text[char_index(text, separator)]
            == separator,
    decreases text.len(),
{
    if text.len() > 0 && text.first() != separator {
        let rest = text.drop_first();
        lemma_char_index(rest, separator);
        assert forall|i: int| 0 <= i < char_index(text, separator) implies #[trigger] text[i]
            != separator by {
            if i > 0 {
                assert(text[i] == rest[i - 1]);
            }
        }
        if char_index(text, separator) < text.len() {
            assert(text[char_index(text, separator)] == rest[char_index(rest, separator)]);
        }
    }
}

/// The characters of `text` before the first `separator`: all of them where
/// there is none.
pub open spec fn before(text: Seq<char>, separator: char) -> Seq<char> {
    text.take(char_index(text, separator))
}

/// Computes [`char_index`].
pub fn find_char(text: &[char], separator: char) -> (place: usize)
    ensures
        place == char_index(text@, separator),
        place <= text@.len(),
{
    let mut i: usize = 0;
    while i < text.len() && text[i] != separator
        invariant
            i <= text@.len(),
            forall|j: int| 0 <= j < i ==> #[trigger] text@[j] != separator,
        decreases text@.len() - i,
    {
        i = i + 1;
    }
    proof {
        lemma_char_index(text@, separator);
        let found = char_index(text@, separator);
        if found < i {
            assert(text@[found] != separator);
        } else if i < found {
            assert(text@[i as int] != separator);
        }
    }
    i
}

/// Computes [`before`].
pub fn part_before(text: &[char], separator: char) -> (part: &[char])
    ensures
        part@ == before(text@, separator),
{
    let end = find_char(text, separator);
    assert(text@.subrange(0, end as int) =~= text@.take(end as int));
    slice_subrange(text, 0, end)
}

/// The place where `pattern` first occurs in `text`, where it occurs.
pub open spec fn find(text: Seq<char>, pattern: Seq<char>) -> Option<int>
    decreases text.len(),
{
    if pattern.is_prefix_of(text) {
        Some(0)
    } else if text.len() == 0 {
        None
    } else {
        match find(text.drop_first(), pattern) {
            Some(place) => Some(place + 1),
            None => None,
        }
    }
}

/// Where [`find`] finds a place, the pattern fits in there.
pub proof fn lemma_find_bounds(text: Seq<char>, pattern: Seq<char>)
    ensures
        find(text, pattern) matches Some(place) ==> 0 <= place && place + pattern.len()
            <= text.len(),
    decreases text.len(),
{
    if !pattern.is_prefix_of(text) && text.len() > 0 {
        lemma_find_bounds(text.drop_first(), pattern);
    }
}

/// Computes [`find`].
pub fn find_text(text: &[char], pattern: &str) -> (place: Option<usize>)
    ensures
        match place {
            Some(at) => find(text@, pattern@) == Some(at as int) && at + pattern@.len()
                <= text@.len(),
            None => find(text@, pattern@) is None,
        },
{
    proof {
        lemma_find_bounds(text@, pattern@);
    }
    let wanted = chars_of(pattern);
    let mut i: usize = 0;
    assert(text@.skip(0) =~= text@);
    while i < text.len()
        invariant
            i <= text@.len(),
            wanted@ == pattern@,
            find(text@, pattern@) == (match find(text@.skip(i as int), pattern@) {
                Some(place) => Some(place + i),
                None => None,
            }),
            find(text@, pattern@) matches Some(place) ==> 0 <= place && place + pattern@.len()
                <= text@.len(),
        decreases text@.len() - i,
    {
        let rest = slice_subrange(text, i, text.len());
        assert(rest@ =~= text@.skip(i as int));
        if begins_with(rest, wanted.as_slice()) {
            return Some(i);
        }
        assert(text@.skip(i as int).drop_first() =~= text@.skip(i + 1));
        i = i + 1;
    }
    let rest = slice_subrange(text, i, text.len());
    assert(rest@ =~= text@.skip(i as int));
    if begins_with(rest, wanted.as_slice()) {
        return Some(i);
    }
    None
}

/// The parts of `text` between its `separator`s, in order. There is always at
/// least one.
pub open spec fn split(text: Seq<char>, separator: char) -> Seq<Seq<char>>
    decreases text.len(),
{
    let place = char_index(text, separator);
    if 0 <= place < text.len() {
        seq![text.take(place)] + split(text.skip(place + 1), separator)
    } else {
        seq![text]
    }
}

/// The decimal digits of `n`, without leading zeros.
pub open spec fn decimal(n: nat) -> Seq<char>
    decreases n,
{
    if n < 10 {
        seq![digit_char(n)]
    } else {
        decimal(n / 10).push(digit_char(n % 10))
    }
}

/// The character of one decimal digit.
pub open spec fn digit_char(digit: nat) -> char {
    (48 + digit) as char
}

/// Computes [`decimal`].
pub fn decimal_text(n: u64) -> (text: String)
    ensures
        text@ == decimal(n as nat),
    decreases n,
{
    if n < 10 {
        let mut text = String::new();
        text.push((48 + n as u8) as char);
        assert(text@ =~= decimal(n as nat));
        text
    } else {
        let mut text = decimal_text(n / 10);
        text.push((48 + (n % 10) as u8) as char);
        text
    }
}

/// The number that a run of decimal digits stands for.
pub open spec fn digits_value(digits: Seq<char>) -> nat
    decreases digits.len(),
{
    if digits.len() == 0 {
        0
    } else {
        10 * digits_value(digits.drop_last()) + (digits.last() as nat - 48) as nat
    }
}

/// Whether `c` is a decimal digit.
pub open spec fn is_digit(c: char) -> bool {
    '0' <= c <= '9'
}

/// The unsigned 64-bit number that one or more digits, and nothing else, write.
pub open spec fn digits_number(digits: Seq<char>) -> Option<u64> {
    if digits.len() > 0 && (forall|i: int| 0 <= i < digits.len() ==> is_digit(#[trigger] digits[i]))
        && digits_value(digits) <= u64::MAX {
        Some(digits_value(digits) as u64)
    } else {
        None
    }
}

/// The unsigned 64-bit number that `text` writes in decimal: an optional plus
/// sign, then one or more digits and nothing else. `None` where `text` has
/// another form or the number does not fit.
pub open spec fn unsigned(text: Seq<char>) -> Option<u64> {
    if text.len() > 0 && text.first() == '+' {
        digits_number(text.drop_first())
    } else {
        digits_number(text)
    }
}

proof fn lemma_digits_value_grows(digits: Seq<char>, n: int)
    requires
        0 <= n <= digits.len(),
    ensures
        digits_value(digits.take(n)) <= digits_value(digits),
    decreases digits.len() - n,
{
    if n < digits.len() {
        lemma_digits_value_grows(digits, n + 1);
        assert(digits.take(n + 1).drop_last() =~= digits.take(n));
    } else {
        assert(digits.take(n) =~= digits);
    }
}

fn parse_digits(digits: &[char]) -> (number: Option<u64>)
    ensures
        number == digits_number(digits@),
{
    if digits.len() == 0 {
        return None;
    }
    let mut value: u64 = 0;
    let mut i: usize = 0;
    while i < digits.len()
        invariant
            i <= digits@.len(),
            value == digits_value(digits@.take(i as int)),
            forall|j: int| 0 <= j < i ==> is_digit(#[trigger] digits@[j]),
        decreases digits@.len() - i,
    {
        let c = digits[i];
        if !('0' <= c && c <= '9') {
            assert(!is_digit(digits@[i as int]));
            return None;
        }
        let digit: u64 = (c as u32 - 48) as u64;
        proof {
            assert(digits@.take(i + 1).drop_last() =~= digits@.take(i as int));
            assert(digits@.take(i + 1).last() == c);
            lemma_digits_value_grows(digits@, i + 1);
        }
        assert(digits_value(digits@.take(i + 1)) == 10 * value + digit);
        if value > u64::MAX / 10 {
            return None;
        }
        let scaled: u64 = value * 10;
        if digit > u64::MAX - scaled {
            return None;
        }
        value = scaled + digit;
        i = i + 1;
    }
    assert(digits@.take(i as int) =~= digits@);
    Some(value)
}

/// Computes [`unsigned`].
pub fn parse_unsigned(text: &[char]) -> (number: Option<u64>)
    ensures
        number == unsigned(text@),
{
    if text.len() > 0 && text[0] == '+' {
        let digits = slice_subrange(text, 1, text.len());
        assert(digits@ =~= text@.drop_first());
        parse_digits(digits)
    } else {
        parse_digits(text)
    }
}

/// The view of an optional string.
pub open spec fn optional_text(text: Option<String>) -> Option<Seq<char>> {
    match text {
        Some(text) => Some(text@),
        None => None,
    }
}

/// The view of an optional string slice.
pub open spec fn optional_str(text: Option<&str>) -> Option<Seq<char>> {
    match text {
        Some(text) => Some(text@),
        None => None,
    }
}

/// The views of strings.
pub open spec fn texts(strings: Seq<String>) -> Seq<Seq<char>> {
    strings.map_values(|text: String| text@)
}

/// `parts` one after the other, with `separator` between them.
pub open spec fn joined(parts: Seq<Seq<char>>, separator: Seq<char>) -> Seq<char>
    decreases parts.len(),
{
    if parts.len() == 0 {
        Seq::empty()
    } else if parts.len() == 1 {
        parts[0]
    } else {
        parts[0] + separator + joined(parts.drop_first(), separator)
    }
}

/// Computes [`joined`].
pub fn join_texts(parts: &Vec<String>, separator: &str) -> (text: String)
    ensures
        text@ == joined(texts(parts@), separator@),
{
    let ghost all = texts(parts@);
    let mut text = String::new();
    if parts.len() == 0 {
        assert(text@ =~= Seq::empty());
        return text;
    }
    text.append(parts[0].as_str());
    let mut i: usize = 1;
    assert(all.skip(0) =~= all);
    assert(all.skip(0).drop_first() =~= all.skip(1));
    assert(text@ =~= all[0]);
    assert(all.len() > 1 ==> joined(all, separator@) =~= text@ + (separator@ + joined(
        all.skip(1),
        separator@,
    )));
    while i < parts.len()
        invariant
            1 <= i <= parts@.len(),
            all == texts(parts@),
            i < parts@.len() ==> joined(all, separator@) == text@ + (separator@ + joined(
                all.skip(i as int),
                separator@,
            )),
            i == parts@.len() ==> joined(all, separator@) == text@,
        decreases parts@.len() - i,
    {
        let ghost so_far = text@;
        let ghost rest = all.skip(i as int);
        text.append(separator);
        text.append(parts[i].as_str());
        assert(rest[0] == parts@[i as int]@);
        assert(rest.drop_first() =~= all.skip(i + 1));
        assert(text@ =~= so_far + (separator@ + rest[0]));
        assert(rest.len() > 1 ==> so_far + (separator@ + joined(rest, separator@)) =~= text@ + (
        separator@ + joined(all.skip(i + 1), separator@)));
        i = i + 1;
    }
    text
}

proof fn lemma_no_separator(text: Seq<char>, separator: char)
    requires
        !text.contains(separator),
    ensures
        char_index(text, separator) == text.len(),
{
    lemma_char_index(text, separator);
    if char_index(text, separator) < text.len() {
        assert(text[char_index(text, separator)] == separator);
    }
}

/// In `head`, a separator and `tail`, where `head` has none, the first separator
/// stands behind `head`.
pub proof fn lemma_first_separator(head: Seq<char>, separator: char, tail: Seq<char>)
    requires
        !head.contains(separator),
    ensures
        char_index(head + seq![separator] + tail, separator) == head.len(),
        before(head + seq![separator] + tail, separator) == head,
        (head + seq![separator] + tail).skip(head.len() as int + 1) == tail,
{
    let text = head + seq![separator] + tail;
    lemma_char_index(text, separator);
    let place = char_index(text, separator);
    if place < head.len() {
        assert(head[place] == text[place]);
        assert(head.contains(separator));
    } else if place > head.len() {
        assert(text[head.len() as int] == separator);
    }
    assert(text.take(place) =~= head);
    assert(text.skip(head.len() as int + 1) =~= tail);
}

/// Splitting undoes joining, for one or more parts without the separator.
pub proof fn law_split_undoes_join(parts: Seq<Seq<char>>, separator: char)
    requires
        parts.len() > 0,
        forall|i: int| 0 <= i < parts.len() ==> !(#[trigger] parts[i]).contains(separator),
    ensures
        split(joined(parts, seq![separator]), separator) == parts,
    decreases parts.len(),
{
    let text = joined(parts, seq![separator]);
    assert(!parts[0].contains(separator));
    if parts.len() == 1 {
        lemma_no_separator(text, separator);
        assert(split(text, separator) =~= parts);
    } else {
        let rest = parts.drop_first();
        assert forall|i: int| 0 <= i < rest.len() implies !(#[trigger] rest[i]).contains(
            separator,
        ) by {
            assert(rest[i] == parts[i + 1]);
        }
        law_split_undoes_join(rest, separator);
        lemma_first_separator(parts[0], separator, joined(rest, seq![separator]));
        assert(split(text, separator) =~= parts);
    }
}

/// The white space characters, one by one.
pub open spec fn white_space_characters() -> Seq<char> {
    seq![
        '\t',
        '\n',
        '\u{b}',
        '\u{c}',
        '\r',
        ' ',
        '\u{85}',
        '\u{a0}',
        '\u{1680}',
        '\u{2000}',
        '\u{2001}',
        '\u{2002}',
        '\u{2003}',
        '\u{2004}',
        '\u{2005}',
        '\u{2006}',
        '\u{2007}',
        '\u{2008}',
        '\u{2009}',
        '\u{200a}',
        '\u{2028}',
        '\u{2029}',
        '\u{202f}',
        '\u{205f}',
        '\u{3000}',
    ]
}

/// Exactly the listed characters are white space. In particular nothing that can be
/// seen is, and of the control characters only the tab, the line breaks and the next
/// line are.
pub proof fn law_white_space_is_listed(c: char)
    ensures
        is_white_space(c) <==> white_space_characters().contains(c),
        0x21 <= c as int <= 0x7e ==> !is_white_space(c),
{
    let all = white_space_characters();
    assert(all[0] == '\t');
    assert(all[1] == '\n');
    assert(all[2] == '\u{b}');
    assert(all[3] == '\u{c}');
    assert(all[4] == '\r');
    assert(all[5] == ' ');
    assert(all[6] == '\u{85}');
    assert(all[7] == '\u{a0}');
    assert(all[8] == '\u{1680}');
    assert(all[9] == '\u{2000}');
    assert(all[10] == '\u{2001}');
    assert(all[11] == '\u{2002}');
    assert(all[12] == '\u{2003}');
    assert(all[13] == '\u{2004}');
    assert(all[14] == '\u{2005}');
    assert(all[15] == '\u{2006}');
    assert(all[16] == '\u{2007}');
    assert(all[17] == '\u{2008}');
    assert(all[18] == '\u{2009}');
    assert(all[19] == '\u{200a}');
    assert(all[20] == '\u{2028}');
    assert(all[21] == '\u{2029}');
    assert(all[22] == '\u{202f}');
    assert(all[23] == '\u{205f}');
    assert(all[24] == '\u{3000}');
    if all.contains(c) {
        let i = choose|i: int| 0 <= i < all.len() && all[i] == c;
    }
    if 0x2000 <= c as int <= 0x200a {
        assert(all[9 + c as int - 0x2000] == c);
    }
}

/// Trimming cuts off the white space at both ends and nothing else: what is left
/// neither starts nor ends with white space, and is in the text as it stands there.
pub proof fn law_trim_cuts_white_space_alone(front: Seq<char>, core: Seq<char>, back: Seq<char>)
    requires
        forall|i: int| 0 <= i < front.len() ==> is_white_space(#[trigger] front[i]),
        forall|i: int| 0 <= i < back.len() ==> is_white_space(#[trigger] back[i]),
        core.len() > 0 ==> !is_white_space(core.first()) && !is_white_space(core.last()),
    ensures
        trim(front + core + back) == core,
    decreases front.len() + back.len(),
{
    let text = front + core + back;
    if front.len() > 0 {
        assert(is_white_space(front[0]));
        let rest = front.drop_first();
        assert forall|i: int| 0 <= i < rest.len() implies is_white_space(#[trigger] rest[i]) by {
            assert(rest[i] == front[i + 1]);
        }
        assert(text.drop_first() =~= rest + core + back);
        law_trim_cuts_white_space_alone(rest, core, back);
    } else if core.len() > 0 {
        assert(text =~= core + back);
        assert(text.first() == core.first());
        lemma_trim_end(core, back);
    } else if back.len() > 0 {
        assert(is_white_space(back[0]));
        let rest = back.drop_first();
        assert forall|i: int| 0 <= i < rest.len() implies is_white_space(#[trigger] rest[i]) by {
            assert(rest[i] == back[i + 1]);
        }
        assert(text.drop_first() =~= front + core + rest);
        law_trim_cuts_white_space_alone(front, core, rest);
    } else {
        assert(text =~= core);
    }
}

proof fn lemma_trim_end(core: Seq<char>, back: Seq<char>)
    requires
        forall|i: int| 0 <= i < back.len() ==> is_white_space(#[trigger] back[i]),
        core.len() > 0,
        !is_white_space(core.last()),
    ensures
        trim_end(core + back) == core,
    decreases back.len(),
{
    let text = core + back;
    if back.len() > 0 {
        let rest = back.drop_last();
        assert(is_white_space(back[back.len() - 1]));
        assert forall|i: int| 0 <= i < rest.len() implies is_white_space(#[trigger] rest[i]) by {
            assert(rest[i] == back[i]);
        }
        assert(text.drop_last() =~= core + rest);
        assert(text.last() == back.last());
        lemma_trim_end(core, rest);
    } else {
        assert(text =~= core);
    }
}

/// Lower case changes the letters from `A` to `Z`, each to the one 32 places on, and
/// no other character; the length stays.
pub proof fn law_lowercase_changes_capitals_alone(text: Seq<char>, i: int)
    requires
        0 <= i < text.len(),
    ensures
        lowercase(text).len() == text.len(),
        0x41 <= text[i] as int <= 0x5a ==> lowercase(text)[i] as int == text[i] as int + 32,
        !(0x41 <= text[i] as int <= 0x5a) ==> lowercase(text)[i] == text[i],
{
}

/// Two texts are equal without regard to case exactly where they are as long and
/// differ, place by place, at most in the case of one ASCII letter.
pub proof fn law_equal_ignoring_case(a: Seq<char>, b: Seq<char>)
    ensures
        eq_ignore_case(a, b) <==> a.len() == b.len() && forall|i: int|
            0 <= i < a.len() ==> {
                ||| #[trigger] a[i] == b[i]
                ||| 0x41 <= a[i] as int <= 0x5a && b[i] as int == a[i] as int + 32
                ||| 0x41 <= b[i] as int <= 0x5a && a[i] as int == b[i] as int + 32
            },
{
    let (x, y) = (lowercase(a), lowercase(b));
    if x == y {
        assert(x.len() == a.len() && y.len() == b.len());
        assert forall|i: int| 0 <= i < a.len() implies {
            ||| #[trigger] a[i] == b[i]
            ||| 0x41 <= a[i] as int <= 0x5a && b[i] as int == a[i] as int + 32
            ||| 0x41 <= b[i] as int <= 0x5a && a[i] as int == b[i] as int + 32
        } by {
            assert(x[i] == lower_char(a[i]) && y[i] == lower_char(b[i]));
        }
    }
    if a.len() == b.len() && (forall|i: int|
        0 <= i < a.len() ==> {
            ||| #[trigger] a[i] == b[i]
            ||| 0x41 <= a[i] as int <= 0x5a && b[i] as int == a[i] as int + 32
            ||| 0x41 <= b[i] as int <= 0x5a && a[i] as int == b[i] as int + 32
        }) {
        assert forall|i: int| 0 <= i < x.len() implies #[trigger] x[i] == y[i] by {
            assert(a[i] == b[i] || a[i] != b[i]);
        }
        assert(x =~= y);
    }
}

/// A search finds the first place where the pattern stands: it stands there, it
/// stands nowhere before, and nothing is found exactly where it stands nowhere.
pub proof fn law_find_is_the_first_place(text: Seq<char>, pattern: Seq<char>, at: int)
    requires
        0 <= at,
        at + pattern.len() <= text.len(),
        text.subrange(at, at + pattern.len()) == pattern,
    ensures
        find(text, pattern) is Some,
        find(text, pattern)->Some_0 <= at,
        ({
            let found = find(text, pattern)->Some_0;
            &&& 0 <= found
            &&& found + pattern.len() <= text.len()
            &&& text.subrange(found, found + pattern.len()) == pattern
        }),
    decreases text.len(),
{
    if pattern.is_prefix_of(text) {
        assert(text.subrange(0, pattern.len() as int) =~= pattern);
    } else {
        if at == 0 {
            assert(pattern.is_prefix_of(text)) by {
                assert(text.subrange(0, pattern.len() as int) =~= pattern);
            }
        }
        let rest = text.drop_first();
        assert(rest.subrange(at - 1, at - 1 + pattern.len()) =~= pattern);
        law_find_is_the_first_place(rest, pattern, at - 1);
        let found = find(rest, pattern)->Some_0;
        assert(text.subrange(found + 1, found + 1 + pattern.len()) =~= rest.subrange(
            found,
            found + pattern.len(),
        ));
    }
}

/// Where a search finds something, the pattern stands there.
pub proof fn law_found_pattern_stands_there(text: Seq<char>, pattern: Seq<char>)
    requires
        find(text, pattern) is Some,
    ensures
        ({
            let found = find(text, pattern)->Some_0;
            &&& 0 <= found
            &&& found + pattern.len() <= text.len()
            &&& text.subrange(found, found + pattern.len()) == pattern
        }),
    decreases text.len(),
{
    if pattern.is_prefix_of(text) {
        assert(text.subrange(0, pattern.len() as int) =~= pattern);
    } else {
        let rest = text.drop_first();
        law_found_pattern_stands_there(rest, pattern);
        let found = find(rest, pattern)->Some_0;
        assert(text.subrange(found + 1, found + 1 + pattern.len()) =~= rest.subrange(
            found,
            found + pattern.len(),
        ));
    }
}

/// Joining undoes splitting: the parts of a text, with the separator between them, are
/// the text, and no part holds the separator.
pub proof fn law_join_undoes_split(text: Seq<char>, separator: char)
    ensures
        split(text, separator).len() > 0,
        forall|i: int|
            0 <= i < split(text, separator).len() ==> !(#[trigger] split(
                text,
                separator,
            )[i]).contains(separator),
        joined(split(text, separator), seq![separator]) == text,
    decreases text.len(),
{
    let place = char_index(text, separator);
    lemma_char_index(text, separator);
    let parts = split(text, separator);
    let head = text.take(place);
    assert(!head.contains(separator)) by {
        if head.contains(separator) {
            let i = choose|i: int| 0 <= i < head.len() && head[i] == separator;
            assert(text[i] == head[i]);
        }
    }
    if place < text.len() {
        let tail = text.skip(place + 1);
        law_join_undoes_split(tail, separator);
        let rest = split(tail, separator);
        assert(parts =~= seq![head] + rest);
        assert(parts.drop_first() =~= rest);
        assert(text =~= head + seq![separator] + tail);
        assert forall|i: int| 0 <= i < parts.len() implies !(#[trigger] parts[i]).contains(
            separator,
        ) by {
            if i > 0 {
                assert(parts[i] == rest[i - 1]);
            }
        }
    } else {
        assert(head =~= text);
    }
}

/// What two texts with a separator between them are split into: the parts of the one,
/// then the parts of the other.
pub proof fn law_split_of_two(a: Seq<char>, b: Seq<char>, separator: char)
    ensures
        split(a + seq![separator] + b, separator) == split(a, separator) + split(b, separator),
    decreases a.len(),
{
    let text = a + seq![separator] + b;
    let place = char_index(a, separator);
    lemma_char_index(a, separator);
    let head = a.take(place);
    assert(!head.contains(separator)) by {
        if head.contains(separator) {
            let i = choose|i: int| 0 <= i < head.len() && head[i] == separator;
            assert(a[i] == head[i]);
        }
    }
    if place < a.len() {
        let tail = a.skip(place + 1);
        let rest = tail + seq![separator] + b;
        assert(text =~= head + seq![separator] + rest);
        lemma_first_separator(head, separator, rest);
        law_split_of_two(tail, b, separator);
        assert(split(text, separator) =~= seq![head] + split(rest, separator));
        assert(split(a, separator) =~= seq![head] + split(tail, separator));
    } else {
        assert(head =~= a);
        lemma_first_separator(a, separator, b);
        assert(split(a, separator) =~= seq![a]);
        assert(split(text, separator) =~= seq![a] + split(b, separator));
    }
    assert(split(text, separator) =~= split(a, separator) + split(b, separator));
}

/// Joining puts every part in, in order: with one more part, the text grows by the
/// separator and that part.
pub proof fn law_join_grows(parts: Seq<Seq<char>>, part: Seq<char>, separator: Seq<char>)
    ensures
        joined(parts.push(part), separator) == (if parts.len() == 0 {
            part
        } else {
            joined(parts, separator) + separator + part
        }),
    decreases parts.len(),
{
    let all = parts.push(part);
    if parts.len() > 0 {
        let rest = parts.drop_first();
        assert(all.drop_first() =~= rest.push(part));
        law_join_grows(rest, part, separator);
        if parts.len() == 1 {
            assert(rest.len() == 0);
            assert(joined(all, separator) =~= parts[0] + separator + part);
        } else {
            assert(joined(all, separator) =~= joined(parts, separator) + separator + part);
        }
    }
}

/// A number can be read back from its decimal digits: they are digits, the first is no
/// zero but for the number zero, and each counts ten times the next.
pub proof fn law_decimal_reads_back(n: nat)
    ensures
        digits_value(decimal(n)) == n,
        decimal(n).len() > 0,
        forall|i: int|
            0 <= i < decimal(n).len() ==> 0x30 <= (#[trigger] decimal(n)[i]) as int <= 0x39,
        decimal(n)[0] == '0' ==> n == 0 && decimal(n).len() == 1,
    decreases n,
{
    let digits = decimal(n);
    if n >= 10 {
        law_decimal_reads_back(n / 10);
        let front = decimal(n / 10);
        assert(digits.drop_last() =~= front);
        assert(digits[0] == front[0]);
        assert forall|i: int| 0 <= i < digits.len() implies 0x30 <= (
        #[trigger] digits[i]) as int <= 0x39 by {
            if i < front.len() {
                assert(digits[i] == front[i]);
            }
        }
    } else {
        assert(digits.drop_last().len() == 0);
        assert(digits_value(digits.drop_last()) == 0);
        assert(digits.last() as nat == 48 + n);
        assert(digits_value(digits) == n);
    }
}

/// The last digit counts once and all before it ten times as much.
pub proof fn law_digits_count_in_tens(digits: Seq<char>, digit: char)
    requires
        0x30 <= digit as int <= 0x39,
    ensures
        digits_value(digits.push(digit)) == 10 * digits_value(digits) + (digit as int - 0x30),
{
    assert(digits.push(digit).drop_last() =~= digits);
}

/// A number is read back as it was written, with or without a plus sign.
pub proof fn law_unsigned_reads_decimal(n: u64)
    ensures
        unsigned(decimal(n as nat)) == Some(n),
        unsigned(seq!['+'] + decimal(n as nat)) == Some(n),
{
    let digits = decimal(n as nat);
    law_decimal_reads_back(n as nat);
    assert forall|i: int| 0 <= i < digits.len() implies is_digit(#[trigger] digits[i]) by {}
    let signed = seq!['+'] + digits;
    assert(signed.drop_first() =~= digits);
    assert(0x30 <= digits[0] as int <= 0x39);
}

/// Only digits make a number, with one plus sign before them at most: a text with
/// anything else in it, or with no digit, is read as none.
pub proof fn law_unsigned_takes_digits_alone(text: Seq<char>)
    ensures
        text.len() == 0 ==> unsigned(text) is None,
        text == seq!['+'] ==> unsigned(text) is None,
        (exists|i: int|
            0 <= i < text.len() && !(0x30 <= (#[trigger] text[i]) as int <= 0x39) && !(i == 0
                && text[i] == '+')) ==> unsigned(text) is None,
        unsigned(text) matches Some(n) ==> n == digits_value(
            if text.len() > 0 && text[0] == '+' {
                text.skip(1)
            } else {
                text
            },
        ),
{
    if exists|i: int|
        0 <= i < text.len() && !(0x30 <= (#[trigger] text[i]) as int <= 0x39) && !(i == 0 && text[i]
            == '+') {
        let i = choose|i: int|
            0 <= i < text.len() && !(0x30 <= (#[trigger] text[i]) as int <= 0x39) && !(i == 0
                && text[i] == '+');
        if text.first() == '+' {
            assert(text.drop_first()[i - 1] == text[i]);
            assert(!is_digit(text.drop_first()[i - 1]));
        } else {
            assert(!is_digit(text[i]));
        }
    }
    assert(text.len() > 0 ==> text.drop_first() =~= text.skip(1));
}

/// The view of a list of strings holds each of them, in order.
pub proof fn law_texts_are_the_strings(strings: Seq<String>, i: int)
    requires
        0 <= i < strings.len(),
    ensures
        texts(strings).len() == strings.len(),
        texts(strings)[i] == strings[i]@,
{
}

/// The view of an optional string is there exactly where the string is, and is its text.
pub proof fn law_optional_text_is_the_string(text: Option<String>, slice: Option<&str>)
    ensures
        optional_text(text) is Some <==> text is Some,
        text matches Some(string) ==> optional_text(text) == Some(string@),
        optional_str(slice) is Some <==> slice is Some,
        slice matches Some(string) ==> optional_str(slice) == Some(string@),
{
}

/// The part of a text before a separator is all that stands before the first one, and the whole
/// text where there is none.
pub proof fn law_before_is_the_first_part(head: Seq<char>, separator: char, tail: Seq<char>)
    requires
        !head.contains(separator),
    ensures
        before(head, separator) == head,
        before(head + seq![separator] + tail, separator) == head,
{
    lemma_no_separator(head, separator);
    assert(head.take(head.len() as int) =~= head);
    lemma_first_separator(head, separator, tail);
}

} // verus!
