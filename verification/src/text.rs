//! Characters and strings: what the rest of the library asks of text.
//!
//! A string is looked at as the sequence of its characters. Every function here
//! works on that view.

use vstd::prelude::*;
use vstd::string::StringExecFns;

verus! {

/// `String::push` appends one character.
pub assume_specification[ std::string::String::push ](s: &mut std::string::String, c: char)
    ensures
        final(s)@ == old(s)@.push(c),
;

/// The characters of Unicode's `White_Space` property.
pub open spec fn whitespace(c: char) -> bool {
    let n = c as u32;
    ||| 0x09 <= n <= 0x0d
    ||| n == 0x20
    ||| n == 0x85
    ||| n == 0xa0
    ||| n == 0x1680
    ||| 0x2000 <= n <= 0x200a
    ||| n == 0x2028
    ||| n == 0x2029
    ||| n == 0x202f
    ||| n == 0x205f
    ||| n == 0x3000
}

/// `s` without the whitespace in front.
pub open spec fn trimmed_start(s: Seq<char>) -> Seq<char>
    decreases s.len(),
{
    if s.len() > 0 && whitespace(s[0]) {
        trimmed_start(s.drop_first())
    } else {
        s
    }
}

/// `s` without the whitespace behind.
pub open spec fn trimmed_end(s: Seq<char>) -> Seq<char>
    decreases s.len(),
{
    if s.len() > 0 && whitespace(s.last()) {
        trimmed_end(s.drop_last())
    } else {
        s
    }
}

/// `s` without the whitespace on either side.
pub open spec fn trimmed(s: Seq<char>) -> Seq<char> {
    trimmed_end(trimmed_start(s))
}

/// Whether `needle` occurs in `s` at `at`.
pub open spec fn occurs_at(s: Seq<char>, needle: Seq<char>, at: int) -> bool {
    &&& 0 <= at <= s.len() - needle.len()
    &&& s.subrange(at, at + needle.len()) == needle
}

/// Whether `needle` occurs anywhere in `s`.
pub open spec fn contains_text(s: Seq<char>, needle: Seq<char>) -> bool {
    exists|at: int| occurs_at(s, needle, at)
}

/// `c` with an ASCII capital letter made small.
pub open spec fn ascii_lower(c: char) -> char {
    if 0x41 <= c as u32 <= 0x5a {
        (c as u32 + 32) as char
    } else {
        c
    }
}

/// `s` with its ASCII capital letters made small.
pub open spec fn ascii_lowered(s: Seq<char>) -> Seq<char> {
    s.map_values(|c: char| ascii_lower(c))
}

pub fn is_whitespace(c: char) -> (yes: bool)
    ensures
        yes == whitespace(c),
{
    let n: u32 = c as u32;
    (0x09 <= n && n <= 0x0d) || n == 0x20 || n == 0x85 || n == 0xa0 || n == 0x1680 || (0x2000 <= n
        && n <= 0x200a) || n == 0x2028 || n == 0x2029 || n == 0x202f || n == 0x205f || n == 0x3000
}

/// The characters of `s`, in order.
pub fn chars_of(s: &str) -> (chars: Vec<char>)
    ensures
        chars@ == s@,
{
    let mut chars: Vec<char> = Vec::new();
    for c in it: s.chars()
        invariant
            it.seq() == s@,
            chars@ == it.seq().take(it.index()),
    {
        chars.push(c);
    }
    assert(s@.take(s@.len() as int) == s@);
    chars
}

/// The string of the characters of `chars` from `from` up to `to`.
pub fn string_of(chars: &Vec<char>, from: usize, to: usize) -> (s: String)
    requires
        from <= to <= chars@.len(),
    ensures
        s@ == chars@.subrange(from as int, to as int),
{
    let mut s = String::new();
    let mut i: usize = from;
    while i < to
        invariant
            from <= i <= to <= chars@.len(),
            s@ == chars@.subrange(from as int, i as int),
        decreases to - i,
    {
        s.push(chars[i]);
        i = i + 1;
        assert(s@ == chars@.subrange(from as int, i as int));
    }
    s
}

/// Whether the two strings hold the same characters.
pub fn same_text(a: &str, b: &str) -> (same: bool)
    ensures
        same == (a@ == b@),
{
    let left = a.to_owned();
    let right = b.to_owned();
    left == right
}

fn lower_char(c: char) -> (lower: char)
    ensures
        lower == ascii_lower(c),
{
    let n: u32 = c as u32;
    if 0x41 <= n && n <= 0x5a {
        let m: u8 = n as u8;
        (m + 32) as char
    } else {
        c
    }
}

/// `str::to_ascii_lowercase`.
pub fn to_ascii_lowercase(s: &str) -> (lower: String)
    ensures
        lower@ == ascii_lowered(s@),
{
    let chars = chars_of(s);
    let mut lower = String::new();
    let mut i: usize = 0;
    while i < chars.len()
        invariant
            chars@ == s@,
            i <= chars@.len(),
            lower@ == ascii_lowered(s@.take(i as int)),
        decreases chars@.len() - i,
    {
        lower.push(lower_char(chars[i]));
        i = i + 1;
        assert(lower@ == ascii_lowered(s@.take(i as int)));
    }
    assert(s@.take(s@.len() as int) == s@);
    lower
}

/// Dropping the first `k` characters, whitespace all, leaves what trimming leaves.
proof fn lemma_trimmed_start_skip(s: Seq<char>, k: int)
    requires
        0 <= k <= s.len(),
        forall|i: int| 0 <= i < k ==> whitespace(#[trigger] s[i]),
    ensures
        trimmed_start(s) == trimmed_start(s.skip(k)),
    decreases k,
{
    if k == 0 {
        assert(s.skip(0) == s);
    } else {
        assert forall|i: int| 0 <= i < k - 1 implies whitespace(#[trigger] s.drop_first()[i]) by {
            assert(s.drop_first()[i] == s[i + 1]);
        }
        lemma_trimmed_start_skip(s.drop_first(), k - 1);
        assert(whitespace(s[0]));
        assert(s.drop_first().skip(k - 1) == s.skip(k));
    }
}

/// Dropping the characters behind the first `k`, whitespace all, leaves what trimming leaves.
proof fn lemma_trimmed_end_take(s: Seq<char>, k: int)
    requires
        0 <= k <= s.len(),
        forall|i: int| k <= i < s.len() ==> whitespace(#[trigger] s[i]),
    ensures
        trimmed_end(s) == trimmed_end(s.take(k)),
    decreases s.len() - k,
{
    if k == s.len() {
        assert(s.take(k) == s);
    } else {
        lemma_trimmed_end_take(s.drop_last(), k);
        assert(whitespace(s[s.len() - 1]));
        assert(s.drop_last().take(k) == s.take(k));
    }
}

/// How many characters of whitespace `chars` starts with.
fn leading_whitespace(chars: &Vec<char>) -> (count: usize)
    ensures
        count <= chars@.len(),
        trimmed_start(chars@) == chars@.skip(count as int),
{
    let mut count: usize = 0;
    while count < chars.len() && is_whitespace(chars[count])
        invariant
            count <= chars@.len(),
            forall|i: int| 0 <= i < count ==> whitespace(#[trigger] chars@[i]),
        decreases chars@.len() - count,
    {
        count = count + 1;
    }
    proof {
        lemma_trimmed_start_skip(chars@, count as int);
        if count < chars@.len() {
            assert(chars@.skip(count as int)[0] == chars@[count as int]);
        }
    }
    count
}

/// `str::trim_start`.
pub fn trim_start(s: &str) -> (rest: String)
    ensures
        rest@ == trimmed_start(s@),
{
    let chars = chars_of(s);
    let from = leading_whitespace(&chars);
    let rest = string_of(&chars, from, chars.len());
    assert(rest@ == chars@.skip(from as int));
    rest
}

/// `str::trim`.
pub fn trim(s: &str) -> (middle: String)
    ensures
        middle@ == trimmed(s@),
{
    let chars = chars_of(s);
    let from = leading_whitespace(&chars);
    let ghost tail = chars@.skip(from as int);
    let mut to: usize = chars.len();
    while from < to && is_whitespace(chars[to - 1])
        invariant
            from <= to <= chars@.len(),
            tail == chars@.skip(from as int),
            forall|i: int| to - from <= i < tail.len() ==> whitespace(#[trigger] tail[i]),
        decreases to,
    {
        assert(tail[to - 1 - from] == chars@[to - 1]);
        to = to - 1;
    }
    proof {
        lemma_trimmed_end_take(tail, to - from);
        if from < to {
            assert(tail.take(to - from).last() == chars@[to - 1]);
        }
        assert(tail.take(to - from) == chars@.subrange(from as int, to as int));
    }
    string_of(&chars, from, to)
}

/// Whether nothing but whitespace stands in `s`.
pub fn is_blank(s: &str) -> (blank: bool)
    ensures
        blank == (trimmed(s@).len() == 0),
{
    trim(s).as_str().is_empty()
}

/// Whether `needle` occurs in `chars` at `at`.
fn matches_at(chars: &Vec<char>, needle: &Vec<char>, at: usize) -> (yes: bool)
    requires
        at <= chars@.len(),
    ensures
        yes == occurs_at(chars@, needle@, at as int),
{
    let size: usize = chars.len();
    if needle.len() > size - at {
        return false;
    }
    let mut i: usize = 0;
    while i < needle.len()
        invariant
            i <= needle@.len(),
            size == chars@.len(),
            at + needle@.len() <= size,
            forall|j: int| 0 <= j < i ==> chars@[at + j] == #[trigger] needle@[j],
        decreases needle@.len() - i,
    {
        if chars[at + i] != needle[i] {
            assert(chars@.subrange(at as int, at + needle@.len())[i as int] != needle@[i as int]);
            return false;
        }
        i = i + 1;
    }
    assert(chars@.subrange(at as int, at + needle@.len()) == needle@);
    true
}

/// `str::starts_with`, for a pattern that is a string.
pub fn starts_with(s: &str, prefix: &str) -> (yes: bool)
    ensures
        yes == prefix@.is_prefix_of(s@),
{
    let chars = chars_of(s);
    let needle = chars_of(prefix);
    let yes = matches_at(&chars, &needle, 0);
    proof {
        if yes {
            assert(s@.subrange(0, prefix@.len() as int) == prefix@);
        }
        if prefix@.is_prefix_of(s@) {
            assert(s@.subrange(0, prefix@.len() as int) == prefix@);
        }
    }
    yes
}

/// `str::ends_with`, for a pattern that is a string.
pub fn ends_with(s: &str, suffix: &str) -> (yes: bool)
    ensures
        yes == suffix@.is_suffix_of(s@),
{
    let chars = chars_of(s);
    let needle = chars_of(suffix);
    if needle.len() > chars.len() {
        return false;
    }
    matches_at(&chars, &needle, chars.len() - needle.len())
}

/// `str::contains`, for a pattern that is a string.
pub fn contains(s: &str, needle: &str) -> (yes: bool)
    ensures
        yes == contains_text(s@, needle@),
{
    let chars = chars_of(s);
    let pattern = chars_of(needle);
    let mut at: usize = 0;
    while at < chars.len()
        invariant
            at <= chars@.len(),
            chars@ == s@,
            pattern@ == needle@,
            forall|i: int| 0 <= i < at ==> !occurs_at(s@, needle@, i),
        decreases chars@.len() - at,
    {
        if matches_at(&chars, &pattern, at) {
            return true;
        }
        at = at + 1;
    }
    matches_at(&chars, &pattern, at)
}

/// The character of the digit `d`.
pub open spec fn digit_char(d: nat) -> char {
    (0x30 + d) as char
}

/// `n` in decimal digits.
pub open spec fn decimal_digits(n: nat) -> Seq<char>
    decreases n,
{
    if n < 10 {
        seq![digit_char(n)]
    } else {
        decimal_digits(n / 10).push(digit_char(n % 10))
    }
}

fn digit_of(d: u64) -> (c: char)
    requires
        d < 10,
    ensures
        c == digit_char(d as nat),
{
    let n: u8 = d as u8;
    (0x30 + n) as char
}

/// The decimal digits of `n`, as `to_string` writes them.
pub fn decimal(n: u64) -> (digits: String)
    ensures
        digits@ == decimal_digits(n as nat),
    decreases n,
{
    if n < 10 {
        let mut digits = String::new();
        digits.push(digit_of(n));
        assert(digits@ == decimal_digits(n as nat));
        digits
    } else {
        let mut digits = decimal(n / 10);
        digits.push(digit_of(n % 10));
        digits
    }
}

/// The pieces of `s` between the characters `separator`: one more than there are of these.
pub open spec fn pieces(s: Seq<char>, separator: char) -> Seq<Seq<char>>
    decreases s.len(),
{
    if s.len() == 0 {
        seq![Seq::empty()]
    } else {
        let before = pieces(s.drop_last(), separator);
        if s.last() == separator {
            before.push(Seq::empty())
        } else {
            before.drop_last().push(before.last().push(s.last()))
        }
    }
}

/// The views of strings.
pub open spec fn texts(list: Seq<String>) -> Seq<Seq<char>> {
    list.map_values(|s: String| s@)
}

/// The view of a string that may be missing.
pub open spec fn string_view(s: Option<String>) -> Option<Seq<char>> {
    match s {
        Some(s) => Some(s@),
        None => None,
    }
}

/// The view of a borrowed string that may be missing.
pub open spec fn str_view(s: Option<&str>) -> Option<Seq<char>> {
    match s {
        Some(s) => Some(s@),
        None => None,
    }
}

/// `str::split`, for a pattern that is a character.
pub fn split(s: &str, separator: char) -> (parts: Vec<String>)
    ensures
        texts(parts@) == pieces(s@, separator),
        parts@.len() > 0,
{
    let chars = chars_of(s);
    let mut parts: Vec<String> = Vec::new();
    let mut current = String::new();
    let mut i: usize = 0;
    assert(texts(parts@).push(current@) == pieces(s@.take(0), separator));
    while i < chars.len()
        invariant
            i <= chars@.len(),
            chars@ == s@,
            texts(parts@).push(current@) == pieces(s@.take(i as int), separator),
        decreases chars@.len() - i,
    {
        let c = chars[i];
        let ghost before = pieces(s@.take(i as int), separator);
        let ghost done = texts(parts@);
        assert(s@.take(i + 1).drop_last() == s@.take(i as int));
        assert(before.drop_last() == done);
        assert(before.last() == current@);
        if c == separator {
            parts.push(current);
            assert(texts(parts@) == before);
            current = String::new();
        } else {
            current.push(c);
        }
        i = i + 1;
        assert(texts(parts@).push(current@) == pieces(s@.take(i as int), separator));
    }
    assert(s@.take(s@.len() as int) == s@);
    let ghost done = texts(parts@);
    parts.push(current);
    assert(texts(parts@) == done.push(current@));
    parts
}

pub open spec fn is_digit(c: char) -> bool {
    0x30 <= c as u32 <= 0x39
}

/// The number that the decimal digits `s` write.
pub open spec fn digits_value(s: Seq<char>) -> nat
    decreases s.len(),
{
    if s.len() == 0 {
        0
    } else {
        (digits_value(s.drop_last()) * 10 + (s.last() as u32 - 0x30)) as nat
    }
}

/// Whether `s` is made of decimal digits alone.
pub open spec fn all_digits(s: Seq<char>) -> bool {
    forall|i: int| 0 <= i < s.len() ==> is_digit(#[trigger] s[i])
}

/// The number of 32 bits that `digits` writes: at least one digit, nothing else, and a value
/// that fits.
pub open spec fn digits_u32(digits: Seq<char>) -> Option<u32> {
    if digits.len() > 0 && all_digits(digits) && digits_value(digits) <= u32::MAX {
        Some(digits_value(digits) as u32)
    } else {
        None
    }
}

/// What parsing `s` as an unsigned number of 32 bits gives: its digits may stand behind a plus
/// sign.
pub open spec fn parsed_u32(s: Seq<char>) -> Option<u32> {
    if s.len() > 0 && s[0] == '+' {
        digits_u32(s.drop_first())
    } else {
        digits_u32(s)
    }
}

fn digit_value(c: char) -> (value: Option<u32>)
    ensures
        value == if is_digit(c) {
            Some((c as u32 - 0x30) as u32)
        } else {
            None
        },
{
    let n: u32 = c as u32;
    if 0x30 <= n && n <= 0x39 {
        Some(n - 0x30)
    } else {
        None
    }
}

/// Adding digits never makes the value smaller.
proof fn lemma_digits_value_grows(s: Seq<char>, k: int)
    requires
        0 <= k <= s.len(),
        all_digits(s),
    ensures
        digits_value(s.take(k)) <= digits_value(s),
    decreases s.len() - k,
{
    if k == s.len() {
        assert(s.take(k) == s);
    } else {
        lemma_digits_value_grows(s.drop_last(), k);
        assert(s.drop_last().take(k) == s.take(k));
        assert(is_digit(s[s.len() - 1]));
    }
}

/// `str::parse::<u32>`, without the reason where it fails.
pub fn parse_u32(s: &str) -> (value: Option<u32>)
    ensures
        value == parsed_u32(s@),
{
    let chars = chars_of(s);
    let from: usize = if chars.len() > 0 && chars[0] == '+' {
        1
    } else {
        0
    };
    let ghost digits = s@.skip(from as int);
    assert(digits == if from == 1 { s@.drop_first() } else { s@ });
    if from == chars.len() {
        return None;
    }
    let mut value: u64 = 0;
    let mut i: usize = from;
    while i < chars.len()
        invariant
            from <= i <= chars@.len(),
            chars@ == s@,
            digits == s@.skip(from as int),
            forall|j: int| 0 <= j < i - from ==> is_digit(#[trigger] digits[j]),
            value == digits_value(digits.take(i - from)),
            value <= u32::MAX,
            parsed_u32(s@) == digits_u32(digits),
        decreases chars@.len() - i,
    {
        assert(digits[i - from] == chars@[i as int]);
        match digit_value(chars[i]) {
            Some(d) => {
                value = value * 10 + d as u64;
                assert(digits.take(i + 1 - from).drop_last() == digits.take(i - from));
                assert(digits.take(i + 1 - from).last() == chars@[i as int]);
                if value > 0xffff_ffff {
                    proof {
                        if all_digits(digits) {
                            lemma_digits_value_grows(digits, i + 1 - from);
                        }
                    }
                    return None;
                }
            },
            None => {
                return None;
            },
        }
        i = i + 1;
    }
    assert(digits.take(digits.len() as int) == digits);
    Some(value as u32)
}

/// `s` with each occurrence of `pattern`, taken from the left, replaced by `with`.
pub open spec fn replaced(s: Seq<char>, pattern: Seq<char>, with: Seq<char>) -> Seq<char>
    decreases s.len(),
{
    if s.len() == 0 {
        s
    } else if pattern.len() > 0 && occurs_at(s, pattern, 0) {
        with + replaced(s.skip(pattern.len() as int), pattern, with)
    } else {
        seq![s[0]] + replaced(s.drop_first(), pattern, with)
    }
}

/// `str::replace`, for a pattern that is a string and not empty.
pub fn replace(s: &str, pattern: &str, with: &str) -> (result: String)
    requires
        pattern@.len() > 0,
    ensures
        result@ == replaced(s@, pattern@, with@),
{
    let chars = chars_of(s);
    let needle = chars_of(pattern);
    let mut result = String::new();
    let mut i: usize = 0;
    assert(s@.skip(0) == s@);
    while i < chars.len()
        invariant
            i <= chars@.len(),
            chars@ == s@,
            needle@ == pattern@,
            pattern@.len() > 0,
            replaced(s@, pattern@, with@) == result@ + replaced(
                s@.skip(i as int),
                pattern@,
                with@,
            ),
        decreases chars@.len() - i,
    {
        let ghost rest = s@.skip(i as int);
        let here = matches_at(&chars, &needle, i);
        assert(here == occurs_at(rest, pattern@, 0)) by {
            if i + pattern@.len() <= s@.len() {
                assert(rest.subrange(0, pattern@.len() as int) == s@.subrange(
                    i as int,
                    i + pattern@.len(),
                ));
            }
        }
        let ghost so_far = result@;
        if here {
            result.append(with);
            assert(rest.skip(pattern@.len() as int) == s@.skip(i + pattern@.len()));
            i = i + needle.len();
        } else {
            result.push(chars[i]);
            assert(rest.drop_first() == s@.skip(i + 1));
            assert(result@ == so_far + seq![rest[0]]);
            i = i + 1;
        }
        assert(replaced(s@, pattern@, with@) == result@ + replaced(
            s@.skip(i as int),
            pattern@,
            with@,
        ));
    }
    assert(s@.skip(s@.len() as int).len() == 0);
    assert(result@ + s@.skip(s@.len() as int) == result@);
    result
}

/// The strings one behind the other, with `separator` between two.
pub open spec fn joined(parts: Seq<Seq<char>>, separator: Seq<char>) -> Seq<char>
    decreases parts.len(),
{
    if parts.len() == 0 {
        Seq::empty()
    } else if parts.len() == 1 {
        parts[0]
    } else {
        joined(parts.drop_last(), separator) + separator + parts.last()
    }
}

/// `join` of a slice of strings.
pub fn join(parts: &Vec<String>, separator: &str) -> (result: String)
    ensures
        result@ == joined(texts(parts@), separator@),
{
    let mut result = String::new();
    let mut i: usize = 0;
    let ghost all = texts(parts@);
    while i < parts.len()
        invariant
            i <= parts@.len(),
            all == texts(parts@),
            result@ == joined(all.take(i as int), separator@),
        decreases parts@.len() - i,
    {
        assert(all.take(i + 1).drop_last() == all.take(i as int));
        assert(all.take(i + 1).last() == parts@[i as int]@);
        let ghost so_far = result@;
        if i > 0 {
            result.append(separator);
        }
        result.append(parts[i].as_str());
        i = i + 1;
        assert(result@ == joined(all.take(i as int), separator@));
    }
    assert(all.take(all.len() as int) == all);
    result
}

} // verus!
