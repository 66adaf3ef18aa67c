//! Strings as sequences of characters: building, comparing and reading numbers.

use vstd::prelude::*;
use vstd::string::*;
use vstd::utf8::*;

verus! {

/// `String::push` appends one character.
pub assume_specification[ String::push ](s: &mut String, c: char)
    ensures
        final(s)@ == old(s)@.push(c),
;

/// The characters of `text`.
pub fn chars_of(text: &str) -> (chars: Vec<char>)
    ensures
        chars@ == text@,
{
    let mut chars: Vec<char> = Vec::new();
    for c in it: text.chars()
        invariant
            chars@ == it.seq().take(it.index() as int),
            it.seq() == text@,
    {
        chars.push(c);
    }
    assert(text@.take(text@.len() as int) =~= text@);
    chars
}

/// The string that the characters spell.
pub fn string_of(chars: &Vec<char>) -> (text: String)
    ensures
        text@ == chars@,
{
    let mut text: String = String::new();
    let mut i: usize = 0;
    while i < chars.len()
        invariant
            i <= chars@.len(),
            text@ == chars@.take(i as int),
        decreases chars@.len() - i,
    {
        text.push(chars[i]);
        i += 1;
        assert(chars@.take(i as int) =~= chars@.take(i - 1).push(chars@[i - 1]));
    }
    assert(chars@.take(chars@.len() as int) =~= chars@);
    text
}

/// Whether two strings spell the same.
pub fn same_text(a: &str, b: &str) -> (same: bool)
    ensures
        same == (a@ == b@),
{
    let x: Vec<char> = chars_of(a);
    let y: Vec<char> = chars_of(b);
    if x.len() != y.len() {
        return false;
    }
    let mut i: usize = 0;
    while i < x.len()
        invariant
            i <= x@.len(),
            x@.len() == y@.len(),
            x@ == a@,
            y@ == b@,
            forall|j: int| 0 <= j < i ==> x@[j] == y@[j],
        decreases x@.len() - i,
    {
        if x[i] != y[i] {
            return false;
        }
        i += 1;
    }
    assert(x@ =~= y@);
    true
}

/// Whether `text` has no characters.
pub fn is_empty(text: &str) -> (yes: bool)
    ensures
        yes == (text@.len() == 0),
{
    chars_of(text).len() == 0
}

/// The digit character of a number below ten.
pub open spec fn digit(n: int) -> char {
    ('0' as int + n) as char
}

/// The decimal numeral of `n`, without leading zeros.
pub open spec fn decimal(n: nat) -> Seq<char>
    decreases n,
{
    if n < 10 {
        seq![digit(n as int)]
    } else {
        decimal(n / 10).push(digit((n % 10) as int))
    }
}

/// Appends the decimal numeral of `n`.
pub fn push_decimal(out: &mut String, n: u64)
    ensures
        final(out)@ == old(out)@ + decimal(n as nat),
    decreases n,
{
    if n >= 10 {
        push_decimal(out, n / 10);
    }
    let d: u8 = (n % 10) as u8;
    out.push((48u8 + d) as char);
}

/// The value of a digit of the given radix, ten or sixteen, in either case.
pub open spec fn digit_value(c: char, radix: int) -> Option<int> {
    if '0' <= c <= '9' {
        Some(c as int - '0' as int)
    } else if radix == 16 && 'a' <= c <= 'f' {
        Some(c as int - 'a' as int + 10)
    } else if radix == 16 && 'A' <= c <= 'F' {
        Some(c as int - 'A' as int + 10)
    } else {
        None
    }
}

/// The number that a run of digits stands for; `None` where some character is no digit.
pub open spec fn digits_value(s: Seq<char>, radix: int) -> Option<int>
    decreases s.len(),
{
    if s.len() == 0 {
        Some(0)
    } else {
        match (digits_value(s.drop_last(), radix), digit_value(s.last(), radix)) {
            (Some(high), Some(low)) => Some(high * radix + low),
            _ => None,
        }
    }
}

/// The number that `s` spells: an optional plus sign, then at least one digit and nothing else.
/// `None` where `s` is not of that form or the number is above `max`.
pub open spec fn number_value(s: Seq<char>, radix: int, max: int) -> Option<int> {
    let digits = if s.len() > 0 && s[0] == '+' {
        s.skip(1)
    } else {
        s
    };
    if digits.len() == 0 {
        None
    } else {
        match digits_value(digits, radix) {
            Some(n) if n <= max => Some(n),
            _ => None,
        }
    }
}

/// The value of one digit.
fn read_digit(c: char, radix: u64) -> (value: Option<u64>)
    requires
        radix == 10 || radix == 16,
    ensures
        value is Some <==> digit_value(c, radix as int) is Some,
        value matches Some(v) ==> digit_value(c, radix as int) == Some(v as int) && v < radix,
{
    let code: u32 = c as u32;
    if '0' <= c && c <= '9' {
        Some((code - 48) as u64)
    } else if radix == 16 && 'a' <= c && c <= 'f' {
        Some((code - 97 + 10) as u64)
    } else if radix == 16 && 'A' <= c && c <= 'F' {
        Some((code - 65 + 10) as u64)
    } else {
        None
    }
}

/// A run of digits grows in value with every further digit, and stays a number only while every
/// character is a digit.
proof fn lemma_prefix_bounds(s: Seq<char>, radix: int, n: int)
    requires
        radix == 10 || radix == 16,
        0 <= n <= s.len(),
    ensures
        digits_value(s, radix) matches Some(v) ==> {
            &&& digits_value(s.take(n), radix) matches Some(u)
            &&& 0 <= u <= v
        },
    decreases s.len(),
{
    if n == s.len() {
        assert(s.take(n) =~= s);
        if s.len() > 0 {
            lemma_prefix_bounds(s.drop_last(), radix, n - 1);
            assert(s.drop_last().take(n - 1) =~= s.drop_last());
        }
    } else {
        lemma_prefix_bounds(s.drop_last(), radix, n);
        assert(s.drop_last().take(n) =~= s.take(n));
    }
}

/// Reads the number that `text` spells in the given radix, ten or sixteen.
pub fn parse_number(text: &str, radix: u64, max: u64) -> (number: Option<u64>)
    requires
        radix == 10 || radix == 16,
    ensures
        number is Some <==> number_value(text@, radix as int, max as int) is Some,
        number matches Some(n) ==> number_value(text@, radix as int, max as int) == Some(n as int),
{
    let chars: Vec<char> = chars_of(text);
    let start: usize = if chars.len() > 0 && chars[0] == '+' {
        1
    } else {
        0
    };
    let ghost digits = chars@.skip(start as int);
    assert(chars@.skip(0) =~= chars@);
    if start == chars.len() {
        return None;
    }
    let mut value: u64 = 0;
    let mut i: usize = start;
    while i < chars.len()
        invariant
            radix == 10 || radix == 16,
            start <= i <= chars@.len(),
            start < chars@.len(),
            digits == chars@.skip(start as int),
            digits_value(digits.take(i - start), radix as int) == Some(value as int),
            value <= max,
            number_value(text@, radix as int, max as int) == (match digits_value(
                digits,
                radix as int,
            ) {
                Some(n) if n <= max => Some(n),
                _ => None,
            }),
        decreases chars@.len() - i,
    {
        let ghost seen = digits.take(i + 1 - start);
        proof {
            assert(seen.drop_last() =~= digits.take(i - start));
            assert(seen.last() == chars@[i as int]);
            lemma_prefix_bounds(digits, radix as int, i + 1 - start);
        }
        match read_digit(chars[i], radix) {
            None => {
                return None;
            },
            Some(low) => {
                let wide: u128 = value as u128 * radix as u128 + low as u128;
                if wide > max as u128 {
                    return None;
                }
                value = wide as u64;
            },
        }
        i += 1;
    }
    assert(digits.take(i - start) =~= digits);
    Some(value)
}

/// Reading the decimal numeral of a number gives back the number.
pub proof fn law_numeral_is_read_back(n: nat, max: int)
    requires
        n <= max,
    ensures
        number_value(decimal(n), 10, max) == Some(n as int),
{
    lemma_numeral_value(n);
}

pub(crate) proof fn lemma_numeral_value(n: nat)
    ensures
        decimal(n).len() > 0,
        decimal(n)[0] != '+',
        digits_value(decimal(n), 10) == Some(n as int),
    decreases n,
{
    let last = digit((n % 10) as int);
    assert(digit_value(last, 10) == Some((n % 10) as int));
    if n < 10 {
        assert(decimal(n).drop_last() =~= seq![]);
        assert(digits_value(decimal(n).drop_last(), 10) == Some(0int));
    } else {
        lemma_numeral_value(n / 10);
        assert(decimal(n).drop_last() =~= decimal(n / 10));
    }
}

/// The ASCII lowercase of a character; any other character is left alone.
pub open spec fn ascii_lower(c: char) -> char {
    if 'A' <= c <= 'Z' {
        (c as int + 32) as char
    } else {
        c
    }
}

/// Whether two texts are the same up to the case of ASCII letters.
pub open spec fn same_ignoring_case(a: Seq<char>, b: Seq<char>) -> bool {
    a.map_values(|c: char| ascii_lower(c)) == b.map_values(|c: char| ascii_lower(c))
}

fn to_ascii_lower(c: char) -> (lower: char)
    ensures
        lower == ascii_lower(c),
{
    if 'A' <= c && c <= 'Z' {
        let code: u8 = c as u8;
        (code + 32) as char
    } else {
        c
    }
}

/// Whether two strings are the same up to the case of ASCII letters.
pub fn equal_ignoring_case(a: &str, b: &str) -> (same: bool)
    ensures
        same == same_ignoring_case(a@, b@),
{
    let x: Vec<char> = chars_of(a);
    let y: Vec<char> = chars_of(b);
    let ghost p = a@.map_values(|c: char| ascii_lower(c));
    let ghost q = b@.map_values(|c: char| ascii_lower(c));
    if x.len() != y.len() {
        assert(p.len() != q.len());
        return false;
    }
    let mut i: usize = 0;
    while i < x.len()
        invariant
            i <= x@.len(),
            x@.len() == y@.len(),
            x@ == a@,
            y@ == b@,
            p == a@.map_values(|c: char| ascii_lower(c)),
            q == b@.map_values(|c: char| ascii_lower(c)),
            forall|j: int| 0 <= j < i ==> p[j] == q[j],
        decreases x@.len() - i,
    {
        if to_ascii_lower(x[i]) != to_ascii_lower(y[i]) {
            assert(p[i as int] != q[i as int]);
            return false;
        }
        assert(p[i as int] == q[i as int]);
        i += 1;
    }
    assert(p =~= q);
    true
}

/// Whether `text` begins with `prefix`.
pub fn starts_with(text: &str, prefix: &str) -> (yes: bool)
    ensures
        yes == prefix@.is_prefix_of(text@),
{
    let x: Vec<char> = chars_of(text);
    let y: Vec<char> = chars_of(prefix);
    if y.len() > x.len() {
        return false;
    }
    let mut i: usize = 0;
    while i < y.len()
        invariant
            i <= y@.len() <= x@.len(),
            x@ == text@,
            y@ == prefix@,
            forall|j: int| 0 <= j < i ==> x@[j] == y@[j],
        decreases y@.len() - i,
    {
        if x[i] != y[i] {
            assert(text@.subrange(0, prefix@.len() as int)[i as int] != prefix@[i as int]);
            return false;
        }
        i += 1;
    }
    assert(text@.subrange(0, prefix@.len() as int) =~= prefix@);
    true
}

/// Whether `c` occurs in `text`.
pub fn has_char(text: &str, c: char) -> (yes: bool)
    ensures
        yes == text@.contains(c),
{
    let chars: Vec<char> = chars_of(text);
    let mut i: usize = 0;
    while i < chars.len()
        invariant
            i <= chars@.len(),
            chars@ == text@,
            forall|j: int| 0 <= j < i ==> chars@[j] != c,
        decreases chars@.len() - i,
    {
        if chars[i] == c {
            assert(text@[i as int] == c);
            return true;
        }
        i += 1;
    }
    false
}

/// The views of a list of strings.
pub open spec fn texts(list: Seq<String>) -> Seq<Seq<char>> {
    list.map_values(|s: String| s@)
}

/// Appends a copy of `text` to a list of strings.
pub fn push_text(list: &mut Vec<String>, text: &str)
    ensures
        texts(final(list)@) == texts(old(list)@).push(text@),
{
    list.push(text.to_string());
    assert(texts(list@) =~= texts(old(list)@).push(text@));
}

/// A text with its ASCII letters in lower case.
pub open spec fn ascii_lowered(text: Seq<char>) -> Seq<char> {
    text.map_values(|c: char| ascii_lower(c))
}

/// What `str::to_lowercase` makes of a text.
pub uninterp spec fn lowercase(text: Seq<char>) -> Seq<char>;

/// Calls `str::to_lowercase`: the lower case of `text`, as Unicode defines it. On ASCII text that
/// is the ASCII lower case of every character; elsewhere the result has a name only.
#[verifier::external_body]
fn to_lowercase(text: &str) -> (lower: String)
    ensures
        lower@ == lowercase(text@),
        is_ascii_chars(text@) ==> lower@ == ascii_lowered(text@),
{
    text.to_lowercase()
}

/// A text in lower case, as Unicode defines it.
pub open spec fn lowered(text: Seq<char>) -> Seq<char> {
    if is_ascii_chars(text) {
        ascii_lowered(text)
    } else {
        lowercase(text)
    }
}

/// The lower case of `text`.
pub fn lower(text: &str) -> (lower: String)
    ensures
        lower@ == lowered(text@),
{
    to_lowercase(text)
}

/// What `char::is_whitespace` says of a character.
pub uninterp spec fn white_space(c: char) -> bool;

/// Calls `char::is_whitespace`: whether Unicode gives `c` the property `White_Space`. Of the ASCII
/// characters those are the space and the five controls from tab to carriage return.
#[verifier::external_body]
fn is_white_space(c: char) -> (yes: bool)
    ensures
        yes == white_space(c),
        (c as u32) < 128 ==> yes == (c == ' ' || 9 <= c as u32 <= 13),
{
    c.is_whitespace()
}

/// Whether a character is white space.
pub open spec fn blank(c: char) -> bool {
    if (c as u32) < 128 {
        c == ' ' || 9 <= c as u32 <= 13
    } else {
        white_space(c)
    }
}

/// A text without the white space at its start.
pub open spec fn trimmed_start(text: Seq<char>) -> Seq<char>
    decreases text.len(),
{
    if text.len() > 0 && blank(text[0]) {
        trimmed_start(text.skip(1))
    } else {
        text
    }
}

/// A text without the white space at its end.
pub open spec fn trimmed_end(text: Seq<char>) -> Seq<char>
    decreases text.len(),
{
    if text.len() > 0 && blank(text.last()) {
        trimmed_end(text.drop_last())
    } else {
        text
    }
}

/// Copies `text` without the white space at either end.
pub fn trim(text: &str) -> (trimmed: String)
    ensures
        trimmed@ == trimmed_end(trimmed_start(text@)),
{
    let chars: Vec<char> = chars_of(text);
    let mut from: usize = 0;
    assert(text@.skip(0) =~= text@);
    while from < chars.len() && is_white_space(chars[from])
        invariant
            from <= chars@.len(),
            chars@ == text@,
            trimmed_start(text@) == trimmed_start(text@.skip(from as int)),
        decreases chars@.len() - from,
    {
        assert(text@.skip(from as int).skip(1) =~= text@.skip(from + 1));
        from += 1;
    }
    let mut to: usize = chars.len();
    assert(trimmed_start(text@) == text@.skip(from as int));
    assert(text@.skip(from as int) =~= text@.subrange(from as int, to as int));
    while to > from && is_white_space(chars[to - 1])
        invariant
            from <= to <= chars@.len(),
            chars@ == text@,
            trimmed_end(trimmed_start(text@)) == trimmed_end(
                text@.subrange(from as int, to as int),
            ),
        decreases to - from,
    {
        assert(text@.subrange(from as int, to as int).drop_last() =~= text@.subrange(
            from as int,
            to - 1,
        ));
        to -= 1;
    }
    let mut trimmed: String = String::new();
    let mut i: usize = from;
    while i < to
        invariant
            from <= i <= to <= chars@.len(),
            chars@ == text@,
            trimmed@ == text@.subrange(from as int, i as int),
        decreases to - i,
    {
        trimmed.push(chars[i]);
        i += 1;
        assert(text@.subrange(from as int, i as int) =~= text@.subrange(from as int, i - 1).push(
            text@[i - 1],
        ));
    }
    trimmed
}

/// What `String::from_utf8_lossy` makes of a byte string.
pub uninterp spec fn lossy_text(bytes: Seq<u8>) -> Seq<char>;

/// Calls `String::from_utf8_lossy`: the text that the bytes hold. Bytes that are valid UTF-8 are
/// decoded; how many replacement characters stand for other bytes has a name only.
#[verifier::external_body]
fn utf8_lossy(bytes: &[u8]) -> (text: String)
    ensures
        text@ == lossy_text(bytes@),
        valid_utf8(bytes@) ==> text@ == decode_utf8(bytes@),
{
    String::from_utf8_lossy(bytes).into_owned()
}

/// The text that a byte string holds, where what is no UTF-8 is replaced by U+FFFD.
pub open spec fn text_of(bytes: Seq<u8>) -> Seq<char> {
    if valid_utf8(bytes) {
        decode_utf8(bytes)
    } else {
        lossy_text(bytes)
    }
}

/// The text that a byte string holds.
pub fn read_text(bytes: &[u8]) -> (text: String)
    ensures
        text@ == text_of(bytes@),
{
    utf8_lossy(bytes)
}

/// What is left after trimming neither begins nor ends with white space, and only white space was
/// cut off.
pub proof fn law_trimming_cuts_white_space(text: Seq<char>)
    ensures
        ({
            let left = trimmed_end(trimmed_start(text));
            &&& left.len() > 0 ==> !blank(left[0]) && !blank(left.last())
            &&& exists|from: int, to: int|
                {
                    &&& 0 <= from <= to <= text.len()
                    &&& left == #[trigger] text.subrange(from, to)
                    &&& forall|i: int|
                        0 <= i < from || to <= i < text.len() ==> blank(#[trigger] text[i])
                }
        }),
{
    let start = trimmed_start(text);
    let left = trimmed_end(start);
    let from = lemma_trimmed_start(text);
    let to = lemma_trimmed_end(start);
    assert(left =~= text.subrange(from, from + to));
    assert forall|i: int| 0 <= i < from || from + to <= i < text.len() implies blank(
        #[trigger] text[i],
    ) by {
        if i >= from + to {
            assert(start[i - from] == text[i]);
        }
    }
}

proof fn lemma_trimmed_start(text: Seq<char>) -> (from: int)
    ensures
        0 <= from <= text.len(),
        trimmed_start(text) == text.skip(from),
        from < text.len() ==> !blank(text[from]),
        forall|i: int| 0 <= i < from ==> blank(#[trigger] text[i]),
    decreases text.len(),
{
    if text.len() > 0 && blank(text[0]) {
        let rest = text.skip(1);
        let k = lemma_trimmed_start(rest);
        assert(rest.skip(k) =~= text.skip(k + 1));
        assert forall|i: int| 0 <= i < k + 1 implies blank(#[trigger] text[i]) by {
            if i > 0 {
                assert(rest[i - 1] == text[i]);
            }
        }
        k + 1
    } else {
        assert(text.skip(0) =~= text);
        0
    }
}

proof fn lemma_trimmed_end(text: Seq<char>) -> (to: int)
    ensures
        0 <= to <= text.len(),
        trimmed_end(text) == text.take(to),
        to > 0 ==> !blank(text[to - 1]),
        forall|i: int| to <= i < text.len() ==> blank(#[trigger] text[i]),
    decreases text.len(),
{
    if text.len() > 0 && blank(text.last()) {
        let rest = text.drop_last();
        let k = lemma_trimmed_end(rest);
        assert(rest.take(k) =~= text.take(k));
        assert forall|i: int| k <= i < text.len() implies blank(#[trigger] text[i]) by {
            if i < rest.len() {
                assert(rest[i] == text[i]);
            }
        }
        k
    } else {
        assert(text.take(text.len() as int) =~= text);
        text.len() as int
    }
}

/// A numeral is made of digits, and begins with a zero only where it is that of zero.
pub proof fn law_numeral_has_no_leading_zero(n: nat)
    ensures
        decimal(n).len() > 0,
        forall|i: int| 0 <= i < decimal(n).len() ==> '0' <= #[trigger] decimal(n)[i] <= '9',
        n > 0 ==> decimal(n)[0] != '0',
        n == 0 ==> decimal(n) == seq!['0'],
    decreases n,
{
    if n >= 10 {
        law_numeral_has_no_leading_zero(n / 10);
        assert forall|i: int| 0 <= i < decimal(n).len() implies '0' <= #[trigger] decimal(n)[i]
            <= '9' by {
            if i < decimal(n).len() - 1 {
                assert(decimal(n)[i] == decimal(n / 10)[i]);
            }
        }
        assert(decimal(n)[0] == decimal(n / 10)[0]);
    }
}

/// Different numbers have different numerals.
pub proof fn law_numerals_tell_numbers_apart(a: nat, b: nat)
    requires
        decimal(a) == decimal(b),
    ensures
        a == b,
{
    lemma_numeral_value(a);
    lemma_numeral_value(b);
}

/// A number is read up to its limit and no further, and it counts every digit for what it is worth:
/// a further digit behind a number makes it ten times as large, or sixteen times, and the digit more.
pub proof fn law_further_digit(s: Seq<char>, c: char, radix: int, max: int)
    requires
        radix == 10 || radix == 16,
        s.len() > 0,
        s != seq!['+'],
    ensures
        number_value(s, radix, max) matches Some(n) ==> 0 <= n <= max,
        '0' <= c <= '9' ==> number_value(s.push(c), radix, max) == (match number_value(
            s,
            radix,
            max,
        ) {
            Some(n) => if n * radix + (c as int - '0' as int) <= max {
                Some(n * radix + (c as int - '0' as int))
            } else {
                None
            },
            None => None,
        }),
        radix == 10 && !('0' <= c <= '9') ==> number_value(s.push(c), radix, max) is None,
        !('0' <= c <= '9') && !('a' <= c <= 'f') && !('A' <= c <= 'F') ==> number_value(
            s.push(c),
            radix,
            max,
        ) is None,
{
    let digits = if s[0] == '+' {
        s.skip(1)
    } else {
        s
    };
    let all = s.push(c);
    let longer = if all[0] == '+' {
        all.skip(1)
    } else {
        all
    };
    assert(longer =~= digits.push(c));
    assert(longer.drop_last() =~= digits);
    if s[0] == '+' && digits.len() == 0 {
        assert(s =~= seq!['+']);
    }
    assert(digits.take(digits.len() as int) =~= digits);
    lemma_prefix_bounds(digits, radix, digits.len() as int);
}

/// No text without a digit is a number, and a plus sign in front changes nothing.
pub proof fn law_sign_changes_nothing(s: Seq<char>, radix: int, max: int)
    requires
        s.len() == 0 || s[0] != '+',
    ensures
        number_value(seq![], radix, max) is None,
        number_value(seq!['+'], radix, max) is None,
        number_value(seq!['+'] + s, radix, max) == number_value(s, radix, max),
{
    assert((seq!['+'] + s).skip(1) =~= s);
    assert(seq!['+'].skip(1) =~= seq![]);
}

/// A letter is worth ten to fifteen in hexadecimal, in either case.
pub proof fn law_letters_are_digits(c: char)
    ensures
        'a' <= c <= 'f' ==> digit_value(c, 16) == Some(10 + (c as int - 'a' as int)),
        'A' <= c <= 'F' ==> digit_value(c, 16) == Some(10 + (c as int - 'A' as int)),
        '0' <= c <= '9' ==> digit_value(c, 16) == Some(c as int - '0' as int),
        digit_value(c, 16) is Some ==> 0 <= digit_value(c, 16)->0 < 16,
{
}

/// Two texts are the same up to case just where they are as long and each two characters are equal
/// or the two cases of one ASCII letter.
pub proof fn law_case_is_ignored(a: Seq<char>, b: Seq<char>)
    ensures
        same_ignoring_case(a, b) <==> a.len() == b.len() && forall|i: int|
            0 <= i < a.len() ==> {
                ||| #[trigger] a[i] == b[i]
                ||| 'A' <= a[i] <= 'Z' && b[i] as int == a[i] as int + 32
                ||| 'A' <= b[i] <= 'Z' && a[i] as int == b[i] as int + 32
            },
{
    let p = a.map_values(|c: char| ascii_lower(c));
    let q = b.map_values(|c: char| ascii_lower(c));
    if same_ignoring_case(a, b) {
        assert(p.len() == q.len());
        assert forall|i: int| 0 <= i < a.len() implies {
            ||| #[trigger] a[i] == b[i]
            ||| 'A' <= a[i] <= 'Z' && b[i] as int == a[i] as int + 32
            ||| 'A' <= b[i] <= 'Z' && a[i] as int == b[i] as int + 32
        } by {
            assert(p[i] == q[i]);
            assert(p[i] == ascii_lower(a[i]));
            assert(q[i] == ascii_lower(b[i]));
        }
    } else if a.len() == b.len() {
        let i = choose|i: int| 0 <= i < a.len() && p[i] != q[i];
        assert(!(p =~= q));
        assert(ascii_lower(a[i]) != ascii_lower(b[i]));
    }
}

/// The lower case of an ASCII text has the same length, no capital letter, and is its own lower
/// case; a text without capitals stays.
pub proof fn law_lower_case_of_ascii(s: Seq<char>)
    requires
        is_ascii_chars(s),
    ensures
        lowered(s).len() == s.len(),
        forall|i: int|
            0 <= i < s.len() ==> if 'A' <= #[trigger] s[i] <= 'Z' {
                lowered(s)[i] as int == s[i] as int + 32
            } else {
                lowered(s)[i] == s[i]
            },
{
}

/// Whether a text stands somewhere in another.
pub open spec fn occurs_in(part: Seq<char>, whole: Seq<char>) -> bool {
    exists|i: int|
        0 <= i && i + part.len() <= whole.len() && #[trigger] whole.subrange(i, i + part.len())
            == part
}

/// A number that is read is not negative and within its limit.
pub proof fn law_number_is_not_negative(s: Seq<char>, max: int)
    ensures
        number_value(s, 10, max) matches Some(n) ==> 0 <= n <= max,
{
    lemma_prefix_bounds(s, 10, s.len() as int);
    if s.len() > 0 {
        lemma_prefix_bounds(s.skip(1), 10, s.len() - 1);
    }
}

/// A number that is read in hexadecimal is not negative and within its limit.
pub proof fn law_hexadecimal_number_is_not_negative(s: Seq<char>, max: int)
    ensures
        number_value(s, 16, max) matches Some(n) ==> 0 <= n <= max,
{
    lemma_prefix_bounds(s, 16, s.len() as int);
    if s.len() > 0 {
        lemma_prefix_bounds(s.skip(1), 16, s.len() - 1);
    }
}

/// A list of texts has a text for each string, in its place.
pub proof fn law_texts_keep_their_places(list: Seq<String>, i: int)
    ensures
        texts(list).len() == list.len(),
        0 <= i < list.len() ==> texts(list)[i] == list[i]@,
{
}

} // verus!
