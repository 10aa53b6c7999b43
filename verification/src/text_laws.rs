//! What the functions on text promise, said of the characters of what goes in and comes out.

use vstd::prelude::*;

use crate::text::{
    all_digits, ascii_lowered, contains_text, decimal_digits, digit_char, digits_u32, digits_value,
    is_digit, joined, occurs_at, parsed_u32, pieces, replaced, trimmed, trimmed_end, trimmed_start,
    whitespace,
};

verus! {

/// Whether nothing but whitespace stands in a text.
pub open spec fn blank(text: Seq<char>) -> bool {
    forall|i: int| 0 <= i < text.len() ==> whitespace(#[trigger] text[i])
}

/// Whether a text neither starts nor ends with whitespace.
pub open spec fn is_tight(text: Seq<char>) -> bool {
    text.len() > 0 ==> !whitespace(text[0]) && !whitespace(text[text.len() - 1])
}

/// Law: whitespace is what Unicode counts as such: the tab, the line feed, the vertical tab, the
/// form feed, the carriage return, the space, the next line, the no-break space, the Ogham space
/// mark, the spaces of various widths, the line and the paragraph separator, the narrow no-break
/// space, the mathematical and the ideographic space.
pub proof fn law_whitespace(c: char)
    ensures
        whitespace(c) <==> seq![
            0x9u32,
            0xau32,
            0xbu32,
            0xcu32,
            0xdu32,
            0x20u32,
            0x85u32,
            0xa0u32,
            0x1680u32,
            0x2000u32,
            0x2001u32,
            0x2002u32,
            0x2003u32,
            0x2004u32,
            0x2005u32,
            0x2006u32,
            0x2007u32,
            0x2008u32,
            0x2009u32,
            0x200au32,
            0x2028u32,
            0x2029u32,
            0x202fu32,
            0x205fu32,
            0x3000u32,
        ].contains(c as u32),
{
    let codes = seq![
        0x9u32,
        0xau32,
        0xbu32,
        0xcu32,
        0xdu32,
        0x20u32,
        0x85u32,
        0xa0u32,
        0x1680u32,
        0x2000u32,
        0x2001u32,
        0x2002u32,
        0x2003u32,
        0x2004u32,
        0x2005u32,
        0x2006u32,
        0x2007u32,
        0x2008u32,
        0x2009u32,
        0x200au32,
        0x2028u32,
        0x2029u32,
        0x202fu32,
        0x205fu32,
        0x3000u32,
    ];
    let n = c as u32;
    if 0x9 <= n <= 0xd {
        assert(codes[n - 0x9] == n);
    }
    if 0x2000 <= n <= 0x200a {
        assert(codes[n - 0x2000 + 9] == n);
    }
    assert(codes[5] == 0x20 && codes[6] == 0x85 && codes[7] == 0xa0 && codes[8] == 0x1680
        && codes[20] == 0x2028 && codes[21] == 0x2029 && codes[22] == 0x202f && codes[23] == 0x205f
        && codes[24] == 0x3000);
}

/// Trimming the start of whitespace with something behind it.
proof fn lemma_start(before: Seq<char>, rest: Seq<char>)
    requires
        blank(before),
        rest.len() > 0 ==> !whitespace(rest[0]),
    ensures
        trimmed_start(before + rest) == rest,
    decreases before.len(),
{
    let text = before + rest;
    if before.len() == 0 {
        assert(text == rest);
    } else {
        assert(text[0] == before[0]);
        let less = before.drop_first();
        assert forall|i: int| 0 <= i < less.len() implies whitespace(#[trigger] less[i]) by {
            assert(less[i] == before[i + 1]);
        }
        lemma_start(less, rest);
        assert(text.drop_first() == less + rest);
    }
}

/// Trimming the end of whitespace with something before it.
proof fn lemma_end(rest: Seq<char>, behind: Seq<char>)
    requires
        blank(behind),
        rest.len() > 0 ==> !whitespace(rest[rest.len() - 1]),
    ensures
        trimmed_end(rest + behind) == rest,
    decreases behind.len(),
{
    let text = rest + behind;
    if behind.len() == 0 {
        assert(text == rest);
    } else {
        assert(text.last() == behind[behind.len() - 1]);
        let less = behind.drop_last();
        assert forall|i: int| 0 <= i < less.len() implies whitespace(#[trigger] less[i]) by {
            assert(less[i] == behind[i]);
        }
        lemma_end(rest, less);
        assert(text.drop_last() == rest + less);
    }
}

/// Law: trimming takes away the whitespace before and behind, all of it and nothing else.
pub proof fn law_trimming(before: Seq<char>, middle: Seq<char>, behind: Seq<char>)
    requires
        blank(before),
        is_tight(middle),
        blank(behind),
    ensures
        trimmed(before + middle + behind) == middle,
        middle.len() > 0 ==> trimmed_start(before + middle + behind) == middle + behind,
{
    let text = before + middle + behind;
    if middle.len() > 0 {
        assert(text == before + (middle + behind));
        lemma_start(before, middle + behind);
        lemma_end(middle, behind);
    } else {
        assert forall|i: int| 0 <= i < text.len() implies whitespace(#[trigger] text[i]) by {
            if i < before.len() {
                assert(text[i] == before[i]);
            } else {
                assert(text[i] == behind[i - before.len()]);
            }
        }
        lemma_start(text, Seq::empty());
        assert(text + Seq::empty() == text);
        assert(trimmed_start(text) == Seq::<char>::empty());
        assert(trimmed(text) == middle);
    }
}

/// Law: every text is whitespace, its trimmed form and whitespace, and the trimmed form neither
/// starts nor ends with whitespace.
pub proof fn law_trimmed_is_the_middle(text: Seq<char>) -> (bounds: (int, int))
    ensures
        0 <= bounds.0 <= bounds.1 <= text.len(),
        blank(text.take(bounds.0)),
        blank(text.skip(bounds.1)),
        trimmed(text) == text.subrange(bounds.0, bounds.1),
        is_tight(trimmed(text)),
{
    let from = first_other(text);
    let to = last_other(text, from);
    let before = text.take(from);
    let middle = text.subrange(from, to);
    let behind = text.skip(to);
    assert forall|i: int| 0 <= i < before.len() implies whitespace(#[trigger] before[i]) by {
        assert(before[i] == text[i]);
    }
    assert forall|i: int| 0 <= i < behind.len() implies whitespace(#[trigger] behind[i]) by {
        assert(behind[i] == text[i + to]);
    }
    if middle.len() > 0 {
        assert(middle[0] == text[from]);
        assert(middle[middle.len() - 1] == text[to - 1]);
    }
    assert(before + middle + behind == text);
    law_trimming(before, middle, behind);
    (from, to)
}

/// Where something other than whitespace stands first.
proof fn first_other(text: Seq<char>) -> (from: int)
    ensures
        0 <= from <= text.len(),
        forall|i: int| 0 <= i < from ==> whitespace(#[trigger] text[i]),
        from < text.len() ==> !whitespace(text[from]),
    decreases text.len(),
{
    if text.len() > 0 && whitespace(text[0]) {
        let rest = text.drop_first();
        let from = first_other(rest) + 1;
        assert forall|i: int| 0 <= i < from implies whitespace(#[trigger] text[i]) by {
            if i > 0 {
                assert(text[i] == rest[i - 1]);
            }
        }
        if from < text.len() {
            assert(text[from] == rest[from - 1]);
        }
        from
    } else {
        0
    }
}

/// Behind what place nothing but whitespace stands.
proof fn last_other(text: Seq<char>, from: int) -> (to: int)
    requires
        0 <= from <= text.len(),
    ensures
        from <= to <= text.len(),
        forall|i: int| to <= i < text.len() ==> whitespace(#[trigger] text[i]),
        from < to ==> !whitespace(text[to - 1]),
    decreases text.len(),
{
    if from < text.len() && whitespace(text[text.len() - 1]) {
        let rest = text.drop_last();
        let to = last_other(rest, from);
        assert forall|i: int| to <= i < text.len() implies whitespace(#[trigger] text[i]) by {
            if i < rest.len() {
                assert(text[i] == rest[i]);
            }
        }
        to
    } else {
        text.len() as int
    }
}

/// Law: nothing is left of a text by trimming if and only if it holds nothing but whitespace.
pub proof fn law_blank_texts(text: Seq<char>)
    ensures
        trimmed(text).len() == 0 <==> blank(text),
{
    let (from, to) = law_trimmed_is_the_middle(text);
    if trimmed(text).len() == 0 {
        assert forall|i: int| 0 <= i < text.len() implies whitespace(#[trigger] text[i]) by {
            if i < from {
                assert(text.take(from)[i] == text[i]);
            } else {
                assert(text.skip(to)[i - to] == text[i]);
            }
        }
    } else {
        assert(trimmed(text)[0] == text[from]);
    }
}

/// Law: a text contains another if and only if it is something, the other, and something.
pub proof fn law_contained_texts(text: Seq<char>, needle: Seq<char>)
    ensures
        contains_text(text, needle) <==> exists|before: Seq<char>, behind: Seq<char>|
            text == #[trigger] (before + needle + behind),
{
    if contains_text(text, needle) {
        let at = choose|at: int| occurs_at(text, needle, at);
        let before = text.take(at);
        let behind = text.skip(at + needle.len());
        assert(before + needle + behind == text) by {
            assert(text.subrange(at, at + needle.len()) == needle);
            assert forall|i: int| 0 <= i < text.len() implies (before + needle + behind)[i]
                == text[i] by {
                if at <= i < at + needle.len() {
                    assert(text.subrange(at, at + needle.len())[i - at] == text[i]);
                }
            }
        }
    }
    if exists|before: Seq<char>, behind: Seq<char>|
        text == #[trigger] (before + needle + behind) {
        let (before, behind) = choose|before: Seq<char>, behind: Seq<char>|
            text == #[trigger] (before + needle + behind);
        assert(text.subrange(before.len() as int, (before.len() + needle.len()) as int) == needle);
        assert(occurs_at(text, needle, before.len() as int));
    }
}

/// Characters with the same code are the same.
proof fn lemma_same_code(one: char, other: char)
    requires
        one as u32 == other as u32,
    ensures
        one == other,
{
}

/// Law: making a text lower case keeps its length, makes each of the capital letters from A to Z
/// the small one, and keeps every other character.
pub proof fn law_lower_case(text: Seq<char>, i: int)
    requires
        0 <= i < text.len(),
    ensures
        ascii_lowered(text).len() == text.len(),
        forall|k: int|
            0 <= k < 26 && text[i] == #[trigger] "ABCDEFGHIJKLMNOPQRSTUVWXYZ"@[k]
                ==> ascii_lowered(text)[i] == "abcdefghijklmnopqrstuvwxyz"@[k],
        !"ABCDEFGHIJKLMNOPQRSTUVWXYZ"@.contains(text[i]) ==> ascii_lowered(text)[i] == text[i],
{
    reveal_strlit("ABCDEFGHIJKLMNOPQRSTUVWXYZ");
    reveal_strlit("abcdefghijklmnopqrstuvwxyz");
    let capitals = "ABCDEFGHIJKLMNOPQRSTUVWXYZ"@;
    let small = "abcdefghijklmnopqrstuvwxyz"@;
    assert(capitals.len() == 26 && small.len() == 26);
    assert forall|k: int| 0 <= k < 26 implies (#[trigger] capitals[k]) as u32 == 0x41 + k
        && small[k] as u32 == 0x61 + k by {
        lemma_letters(k);
    }
    let n = text[i] as u32;
    if 0x41 <= n <= 0x5a {
        lemma_same_code(capitals[n - 0x41], text[i]);
        assert(capitals[n - 0x41] == text[i]);
    }
}

/// The letters stand one behind the other.
proof fn lemma_letters(k: int)
    requires
        0 <= k < 26,
    ensures
        "ABCDEFGHIJKLMNOPQRSTUVWXYZ"@[k] as u32 == 0x41 + k,
        "abcdefghijklmnopqrstuvwxyz"@[k] as u32 == 0x61 + k,
{
    reveal_strlit("ABCDEFGHIJKLMNOPQRSTUVWXYZ");
    reveal_strlit("abcdefghijklmnopqrstuvwxyz");
    if k < 9 {
        assert(k == 0 || k == 1 || k == 2 || k == 3 || k == 4 || k == 5 || k == 6 || k == 7 || k
            == 8);
    } else if k < 18 {
        assert(k == 9 || k == 10 || k == 11 || k == 12 || k == 13 || k == 14 || k == 15 || k == 16
            || k == 17);
    } else {
        assert(k == 18 || k == 19 || k == 20 || k == 21 || k == 22 || k == 23 || k == 24 || k == 25);
    }
}

/// Law: a number is written as the digits of its tenth part and then its last digit, and a number
/// below ten as that digit.
pub proof fn law_decimal_digits(tens: nat, last: nat)
    requires
        last < 10,
    ensures
        decimal_digits(last) == seq!["0123456789"@[last as int]],
        tens > 0 ==> decimal_digits((tens * 10 + last) as nat) == decimal_digits(tens).push(
            "0123456789"@[last as int],
        ),
{
    reveal_strlit("0123456789");
    assert(last == 0 || last == 1 || last == 2 || last == 3 || last == 4 || last == 5 || last == 6
        || last == 7 || last == 8 || last == 9);
    assert(digit_char(last) == "0123456789"@[last as int]);
    if tens > 0 {
        assert((tens * 10 + last) / 10 == tens);
        assert((tens * 10 + last) % 10 == last);
    }
}

/// A number is written in digits, and they have its value.
proof fn lemma_written(n: nat)
    ensures
        decimal_digits(n).len() > 0,
        all_digits(decimal_digits(n)),
        digits_value(decimal_digits(n)) == n,
    decreases n,
{
    let digits = decimal_digits(n);
    if n < 10 {
        assert(digits[0] as u32 == 0x30 + n);
        assert(digits.drop_last().len() == 0);
        assert(digits_value(digits.drop_last()) == 0);
    } else {
        lemma_written(n / 10);
        assert(digits.drop_last() == decimal_digits(n / 10));
        assert(digits.last() as u32 == 0x30 + n % 10);
        assert forall|i: int| 0 <= i < digits.len() implies is_digit(#[trigger] digits[i]) by {
            if i < digits.len() - 1 {
                assert(digits[i] == decimal_digits(n / 10)[i]);
            }
        }
    }
}

/// Law: a number of 32 bits is read back from its digits, with or without a plus sign before
/// them; a larger one is refused.
pub proof fn law_numbers_are_read_back(n: nat)
    ensures
        n <= u32::MAX ==> parsed_u32(decimal_digits(n)) == Some(n as u32),
        n <= u32::MAX ==> parsed_u32(seq!['+'] + decimal_digits(n)) == Some(n as u32),
        n > u32::MAX ==> parsed_u32(decimal_digits(n)) is None,
{
    lemma_written(n);
    assert(is_digit(decimal_digits(n)[0]));
    assert((seq!['+'] + decimal_digits(n)).drop_first() == decimal_digits(n));
}

/// Law: a zero before the digits of a number does not change it.
pub proof fn law_leading_zeros_are_dropped(text: Seq<char>)
    requires
        digits_u32(text) is Some,
    ensures
        parsed_u32(seq!['0'] + text) == digits_u32(text),
{
    let longer = seq!['0'] + text;
    lemma_zero(text);
    assert forall|i: int| 0 <= i < longer.len() implies is_digit(#[trigger] longer[i]) by {
        if i > 0 {
            assert(longer[i] == text[i - 1]);
        }
    }
}

/// A zero before digits does not change their value.
proof fn lemma_zero(text: Seq<char>)
    ensures
        digits_value(seq!['0'] + text) == digits_value(text),
    decreases text.len(),
{
    let longer = seq!['0'] + text;
    if text.len() == 0 {
        assert(longer.drop_last().len() == 0);
        assert(digits_value(longer.drop_last()) == 0);
        assert(longer.last() == '0');
    } else {
        assert(longer.drop_last() == seq!['0'] + text.drop_last());
        assert(longer.last() == text.last());
        lemma_zero(text.drop_last());
    }
}

/// Law: a text in which something other than a digit stands is no number, but for a plus sign in
/// front; nor is a text without a digit.
pub proof fn law_only_digits_are_read(text: Seq<char>, i: int)
    requires
        0 <= i < text.len(),
        !"0123456789"@.contains(text[i]),
    ensures
        i > 0 || text[0] != '+' ==> parsed_u32(text) is None,
        parsed_u32(Seq::empty()) is None,
        parsed_u32(seq!['+']) is None,
{
    reveal_strlit("0123456789");
    let digits = "0123456789"@;
    assert(digits.len() == 10);
    if is_digit(text[i]) {
        let k = text[i] as u32 - 0x30;
        assert(k == 0 || k == 1 || k == 2 || k == 3 || k == 4 || k == 5 || k == 6 || k == 7 || k
            == 8 || k == 9);
        lemma_same_code(digits[k], text[i]);
        assert(digits[k] == text[i]);
        assert(digits.contains(text[i]));
    }
    assert(!is_digit(text[i]));
    if text[0] == '+' && i > 0 {
        assert(text.drop_first()[i - 1] == text[i]);
    }
    assert(seq!['+'].drop_first().len() == 0);
}

/// Law: the pieces between separators, joined by the separator again, are the text, and no piece
/// has a separator in it.
pub proof fn law_pieces_make_up_the_text(text: Seq<char>, separator: char)
    ensures
        pieces(text, separator).len() > 0,
        joined(pieces(text, separator), seq![separator]) == text,
        forall|i: int|
            0 <= i < pieces(text, separator).len() ==> !(#[trigger] pieces(
                text,
                separator,
            )[i]).contains(separator),
    decreases text.len(),
{
    let parts = pieces(text, separator);
    if text.len() > 0 {
        law_pieces_make_up_the_text(text.drop_last(), separator);
        let before = pieces(text.drop_last(), separator);
        assert(text == text.drop_last().push(text.last()));
        if text.last() == separator {
            assert(parts.drop_last() == before);
            assert forall|i: int| 0 <= i < parts.len() implies !(#[trigger] parts[i]).contains(
                separator,
            ) by {
                if i < before.len() {
                    assert(parts[i] == before[i]);
                }
            }
        } else {
            let last = before.last();
            assert(parts.drop_last() == before.drop_last());
            assert(parts.last() == last.push(text.last()));
            assert forall|i: int| 0 <= i < parts.len() implies !(#[trigger] parts[i]).contains(
                separator,
            ) by {
                if i < before.len() - 1 {
                    assert(parts[i] == before[i]);
                } else {
                    assert(!before[before.len() - 1].contains(separator));
                    if parts[i].contains(separator) {
                        let k = choose|k: int|
                            0 <= k < parts[i].len() && parts[i][k] == separator;
                        assert(last[k] == separator);
                    }
                }
            }
            if before.len() > 1 {
                let joint = joined(before.drop_last(), seq![separator]) + seq![separator];
                assert(joint + last.push(text.last()) == (joint + last).push(text.last()));
            }
        }
    } else {
        assert(parts[0] == text);
    }
}

/// A text without a separator is one piece.
proof fn lemma_one_piece(text: Seq<char>, separator: char)
    requires
        !text.contains(separator),
    ensures
        pieces(text, separator) == seq![text],
    decreases text.len(),
{
    if text.len() > 0 {
        let rest = text.drop_last();
        assert forall|i: int| 0 <= i < rest.len() implies #[trigger] rest[i] != separator by {
            assert(text[i] != separator);
        }
        lemma_one_piece(rest, separator);
        assert(text.last() == text[text.len() - 1]);
        assert(rest.push(text.last()) == text);
        assert(pieces(text, separator) == seq![text]);
    } else {
        assert(text == Seq::<char>::empty());
    }
}

/// What stands behind the last separator is the last piece.
proof fn lemma_last_piece(before: Seq<char>, separator: char, last: Seq<char>)
    requires
        !last.contains(separator),
    ensures
        pieces(before.push(separator) + last, separator) == pieces(before, separator).push(last),
    decreases last.len(),
{
    let text = before.push(separator) + last;
    if last.len() == 0 {
        assert(text.drop_last() == before);
        assert(text.last() == separator);
        assert(last == Seq::<char>::empty());
    } else {
        let less = last.drop_last();
        assert forall|i: int| 0 <= i < less.len() implies #[trigger] less[i] != separator by {
            assert(last[i] != separator);
        }
        lemma_last_piece(before, separator, less);
        assert(text.drop_last() == before.push(separator) + less);
        assert(text.last() == last[last.len() - 1]);
        let found = pieces(before, separator);
        assert(found.push(less).drop_last() == found);
        assert(less.push(text.last()) == last);
    }
}

/// Law: texts without a separator in them that are joined by it are found again as the pieces.
pub proof fn law_joined_texts_are_found_again(parts: Seq<Seq<char>>, separator: char)
    requires
        parts.len() > 0,
        forall|i: int| 0 <= i < parts.len() ==> !(#[trigger] parts[i]).contains(separator),
    ensures
        pieces(joined(parts, seq![separator]), separator) == parts,
    decreases parts.len(),
{
    let last = parts.last();
    assert(last == parts[parts.len() - 1]);
    if parts.len() == 1 {
        lemma_one_piece(last, separator);
        assert(parts == seq![last]);
    } else {
        let rest = parts.drop_last();
        law_joined_texts_are_found_again(rest, separator);
        let before = joined(rest, seq![separator]);
        lemma_last_piece(before, separator, last);
        assert(before + seq![separator] == before.push(separator));
        assert(rest.push(last) == parts);
    }
}

/// Law: what is joined is joined in parts: one list, the separator and the other list.
pub proof fn law_joining_in_parts(
    one: Seq<Seq<char>>,
    other: Seq<Seq<char>>,
    separator: Seq<char>,
)
    requires
        one.len() > 0,
        other.len() > 0,
    ensures
        joined(Seq::empty(), separator) == Seq::<char>::empty(),
        joined(seq![one[0]], separator) == one[0],
        joined(one + other, separator) == joined(one, separator) + separator + joined(
            other,
            separator,
        ),
    decreases other.len(),
{
    let both = one + other;
    if other.len() == 1 {
        assert(both.drop_last() == one);
        assert(both.last() == other[0]);
    } else {
        law_joining_in_parts(one, other.drop_last(), separator);
        assert(both.drop_last() == one + other.drop_last());
        assert(both.last() == other.last());
        let front = joined(one, separator);
        let rest = joined(other.drop_last(), separator);
        assert(front + separator + rest + separator + other.last() == front + separator + (rest
            + separator + other.last()));
    }
}

/// Law: the first occurrence of a pattern is replaced, and what stands behind it is treated in
/// the same way.
pub proof fn law_the_first_occurrence_is_replaced(
    before: Seq<char>,
    pattern: Seq<char>,
    behind: Seq<char>,
    with: Seq<char>,
)
    requires
        pattern.len() > 0,
        forall|at: int|
            0 <= at < before.len() ==> !#[trigger] occurs_at(
                before + pattern + behind,
                pattern,
                at,
            ),
    ensures
        replaced(before + pattern + behind, pattern, with) == before + with + replaced(
            behind,
            pattern,
            with,
        ),
    decreases before.len(),
{
    let text = before + pattern + behind;
    if before.len() == 0 {
        assert(text.subrange(0, pattern.len() as int) == pattern);
        assert(occurs_at(text, pattern, 0));
        assert(text.skip(pattern.len() as int) == behind);
        assert(before + with + replaced(behind, pattern, with) == with + replaced(
            behind,
            pattern,
            with,
        ));
    } else {
        let less = before.drop_first();
        let rest = less + pattern + behind;
        assert(text.drop_first() == rest);
        assert forall|at: int| 0 <= at < less.len() implies !#[trigger] occurs_at(
            rest,
            pattern,
            at,
        ) by {
            assert(!occurs_at(text, pattern, at + 1));
            assert(rest.subrange(at, at + pattern.len()) == text.subrange(
                at + 1,
                at + 1 + pattern.len(),
            ));
        }
        law_the_first_occurrence_is_replaced(less, pattern, behind, with);
        assert(!occurs_at(text, pattern, 0));
        assert(seq![text[0]] + (less + with + replaced(behind, pattern, with)) == before + with
            + replaced(behind, pattern, with));
    }
}

/// Law: a text in which a pattern does not occur stays as it is.
pub proof fn law_nothing_to_replace(text: Seq<char>, pattern: Seq<char>, with: Seq<char>)
    requires
        !contains_text(text, pattern),
    ensures
        replaced(text, pattern, with) == text,
    decreases text.len(),
{
    if text.len() > 0 {
        let rest = text.drop_first();
        if contains_text(rest, pattern) {
            let at = choose|at: int| occurs_at(rest, pattern, at);
            assert(rest.subrange(at, at + pattern.len()) == text.subrange(
                at + 1,
                at + 1 + pattern.len(),
            ));
            assert(occurs_at(text, pattern, at + 1));
        }
        law_nothing_to_replace(rest, pattern, with);
        assert(!occurs_at(text, pattern, 0));
        assert(seq![text[0]] + rest == text);
    }
}

} // verus!
