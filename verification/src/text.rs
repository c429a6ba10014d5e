//! Text operations on device identifiers, over the character sequence of a string.

use vstd::prelude::*;
use vstd::std_specs::iter::IteratorSpec;

verus! {

/// The characters with the Unicode `White_Space` property.
pub open spec fn white_space(c: char) -> bool {
    let code = c as int;
    ||| 0x9 <= code <= 0xd
    ||| code == 0x20
    ||| code == 0x85
    ||| code == 0xa0
    ||| code == 0x1680
    ||| 0x2000 <= code <= 0x200a
    ||| code == 0x2028
    ||| code == 0x2029
    ||| code == 0x202f
    ||| code == 0x205f
    ||| code == 0x3000
}

/// `s` without its leading and trailing white space.
pub open spec fn trimmed(s: Seq<char>) -> Seq<char>
    decreases s.len(),
{
    if s.len() == 0 {
        s
    } else if white_space(s.first()) {
        trimmed(s.drop_first())
    } else if white_space(s.last()) {
        trimmed(s.drop_last())
    } else {
        s
    }
}

/// Strict lexicographic order by code point.
pub open spec fn text_less(a: Seq<char>, b: Seq<char>) -> bool
    decreases a.len(),
{
    if b.len() == 0 {
        false
    } else if a.len() == 0 {
        true
    } else if a.first() != b.first() {
        (a.first() as int) < (b.first() as int)
    } else {
        text_less(a.drop_first(), b.drop_first())
    }
}

/// `a` comes before `b` or equals it.
pub open spec fn text_at_most(a: Seq<char>, b: Seq<char>) -> bool {
    a == b || text_less(a, b)
}

/// Each text comes strictly before every later one, so none occurs twice.
pub open spec fn strictly_sorted(texts: Seq<Seq<char>>) -> bool {
    forall|i: int, j: int|
        0 <= i < j < texts.len() ==> text_less(#[trigger] texts[i], #[trigger] texts[j])
}

/// `c` is one of the ASCII digits `0` to `9`.
pub open spec fn decimal_digit(c: char) -> bool {
    '0' as int <= c as int <= '9' as int
}

/// The number that an ASCII digit stands for.
pub open spec fn digit_value(c: char) -> nat {
    if decimal_digit(c) {
        (c as int - '0' as int) as nat
    } else {
        0
    }
}

/// The number that a run of ASCII digits stands for in base ten.
pub open spec fn decimal_value(digits: Seq<char>) -> nat
    decreases digits.len(),
{
    if digits.len() == 0 {
        0
    } else {
        10 * decimal_value(digits.drop_last()) + digit_value(digits.last())
    }
}

/// `s` without a leading plus sign.
pub open spec fn unsigned_part(s: Seq<char>) -> Seq<char> {
    if s.len() > 0 && s.first() == '+' {
        s.drop_first()
    } else {
        s
    }
}

/// The unsigned 64-bit number that `s` spells: an optional plus sign, then one or more ASCII
/// digits and nothing else, with a value in range.
pub open spec fn parsed_u64(s: Seq<char>) -> Option<u64> {
    let digits = unsigned_part(s);
    if digits.len() > 0 && (forall|i: int|
        0 <= i < digits.len() ==> decimal_digit(#[trigger] digits[i]))
        && decimal_value(digits) <= u64::MAX {
        Some(decimal_value(digits) as u64)
    } else {
        None
    }
}

/// The code point of `c`.
fn code_point(c: char) -> (res: u32)
    ensures
        res as int == c as int,
{
    c as u32
}

/// Tells whether `c` is white space.
pub fn is_white_space(c: char) -> (res: bool)
    ensures
        res == white_space(c),
{
    let code: u32 = code_point(c);
    (0x9 <= code && code <= 0xd) || code == 0x20 || code == 0x85 || code == 0xa0 || code == 0x1680
        || (0x2000 <= code && code <= 0x200a) || code == 0x2028 || code == 0x2029 || code == 0x202f
        || code == 0x205f || code == 0x3000
}

/// The characters of `s`, in order.
pub fn chars_of(s: &str) -> (chars: Vec<char>)
    ensures
        chars@ == s@,
{
    let mut chars: Vec<char> = Vec::new();
    for c in it: s.chars()
        invariant
            chars@ =~= s@.take(it.index()),
            it.seq() == s@,
    {
        chars.push(c);
    }
    chars
}

/// Removes the white space at both ends of `s`.
pub fn trim_white_space<'a>(s: &'a str) -> (res: &'a str)
    ensures
        res@ == trimmed(s@),
{
    let chars = chars_of(s);
    let mut start: usize = 0;
    let mut end: usize = chars.len();
    assert(s@.subrange(0, s@.len() as int) =~= s@);
    while start < end && is_white_space(chars[start])
        invariant
            start <= end == chars.len(),
            chars@ == s@,
            trimmed(s@) == trimmed(s@.subrange(start as int, end as int)),
        decreases end - start,
    {
        assert(s@.subrange(start as int, end as int).drop_first() =~= s@.subrange(
            start + 1,
            end as int,
        ));
        start = start + 1;
    }
    while start < end && is_white_space(chars[end - 1])
        invariant
            start <= end <= chars.len(),
            start < end ==> !white_space(s@[start as int]),
            chars@ == s@,
            trimmed(s@) == trimmed(s@.subrange(start as int, end as int)),
        decreases end - start,
    {
        assert(s@.subrange(start as int, end as int).drop_last() =~= s@.subrange(
            start as int,
            end - 1,
        ));
        end = end - 1;
    }
    s.substring_char(start, end)
}

/// Tells whether `a` comes before `b`.
pub fn comes_before(a: &str, b: &str) -> (res: bool)
    ensures
        res == text_less(a@, b@),
{
    let mut left = a.chars();
    let mut right = b.chars();
    loop
        invariant
            left.decrease() is Some,
            text_less(a@, b@) == text_less(left.remaining(), right.remaining()),
        decreases left.decrease()->0,
    {
        match (left.next(), right.next()) {
            (_, None) => {
                return false;
            },
            (None, Some(_)) => {
                return true;
            },
            (Some(x), Some(y)) => {
                if x != y {
                    return code_point(x) < code_point(y);
                }
            },
        }
    }
}

/// Tells whether `a` and `b` are the same text.
pub fn same_text(a: &str, b: &str) -> (res: bool)
    ensures
        res == (a@ == b@),
{
    proof {
        law_order_is_total(a@, b@);
    }
    !comes_before(a, b) && !comes_before(b, a)
}

/// Returns what follows `prefix` in `s`, where `s` starts with it.
pub fn after_prefix<'a>(s: &'a str, prefix: &str) -> (res: Option<&'a str>)
    ensures
        match res {
            Some(rest) => prefix@.is_prefix_of(s@) && rest@ == s@.skip(prefix@.len() as int),
            None => !prefix@.is_prefix_of(s@),
        },
{
    let chars = chars_of(s);
    let expected = chars_of(prefix);
    if chars.len() < expected.len() {
        return None;
    }
    for i in 0..expected.len()
        invariant
            chars@ == s@,
            expected@ == prefix@,
            expected.len() <= chars.len(),
            forall|j: int| 0 <= j < i ==> chars@[j] == expected@[j],
    {
        if chars[i] != expected[i] {
            return None;
        }
    }
    assert(prefix@ =~= s@.subrange(0, prefix@.len() as int));
    Some(s.substring_char(expected.len(), chars.len()))
}

/// The number that the ASCII digit `c` stands for.
pub fn digit_of(c: char) -> (res: Option<u64>)
    ensures
        res == (if decimal_digit(c) {
            Some(digit_value(c) as u64)
        } else {
            None
        }),
{
    let code: u32 = code_point(c);
    if 0x30 <= code && code <= 0x39 {
        Some((code - 0x30) as u64)
    } else {
        None
    }
}

/// Reads `s` as an unsigned 64-bit decimal number.
pub fn parse_u64(s: &str) -> (res: Option<u64>)
    ensures
        res == parsed_u64(s@),
{
    let chars = chars_of(s);
    let ghost digits = unsigned_part(s@);
    let start: usize = if chars.len() > 0 && chars[0] == '+' {
        1
    } else {
        0
    };
    assert(digits =~= s@.skip(start as int));
    if start == chars.len() {
        return None;
    }
    let mut value: u64 = 0;
    for i in start..chars.len()
        invariant
            chars@ == s@,
            start <= i,
            start < chars.len(),
            digits == unsigned_part(s@),
            digits == s@.skip(start as int),
            forall|j: int| 0 <= j < i - start ==> decimal_digit(#[trigger] digits[j]),
            value == decimal_value(digits.take(i - start)),
    {
        let c = chars[i];
        assert(digits[i - start] == c);
        let digit: u64 = match digit_of(c) {
            Some(digit) => digit,
            None => {
                return None;
            },
        };
        let ghost longer = digits.take(i - start + 1);
        proof {
            assert(longer.drop_last() =~= digits.take(i - start));
            lemma_decimal_value_grows(digits, i - start + 1);
        }
        if value > (u64::MAX - digit) / 10 {
            return None;
        }
        value = value * 10 + digit;
    }
    assert(digits.take(digits.len() as int) =~= digits);
    Some(value)
}

/// No prefix of a run of digits stands for a larger number than the whole run.
proof fn lemma_decimal_value_grows(digits: Seq<char>, n: int)
    requires
        0 <= n <= digits.len(),
    ensures
        decimal_value(digits.take(n)) <= decimal_value(digits),
    decreases digits.len(),
{
    if n == digits.len() {
        assert(digits.take(n) =~= digits);
    } else {
        lemma_decimal_value_grows(digits.drop_last(), n);
        assert(digits.drop_last().take(n) =~= digits.take(n));
    }
}

/// The order of texts is total: of two different texts, exactly one comes before the other.
pub proof fn law_order_is_total(a: Seq<char>, b: Seq<char>)
    ensures
        !text_less(a, a),
        text_less(a, b) ==> !text_less(b, a),
        a != b ==> text_less(a, b) || text_less(b, a),
    decreases a.len(),
{
    if a.len() > 0 {
        law_order_is_total(a.drop_first(), a.drop_first());
        if b.len() > 0 {
            law_order_is_total(a.drop_first(), b.drop_first());
            if a.first() == b.first() && a.drop_first() == b.drop_first() {
                assert(a =~= seq![a.first()] + a.drop_first());
                assert(b =~= seq![b.first()] + b.drop_first());
            }
        }
    } else if b.len() == 0 {
        assert(a =~= b);
    }
}

/// The order of texts is transitive.
pub proof fn law_order_is_transitive(a: Seq<char>, b: Seq<char>, c: Seq<char>)
    requires
        text_less(a, b),
        text_less(b, c),
    ensures
        text_less(a, c),
    decreases a.len(),
{
    if a.len() > 0 && a.first() == b.first() && b.first() == c.first() {
        law_order_is_transitive(a.drop_first(), b.drop_first(), c.drop_first());
    }
}

/// Trimmed text has no white space left to trim.
pub proof fn law_trimming_is_idempotent(s: Seq<char>)
    ensures
        trimmed(trimmed(s)) == trimmed(s),
    decreases s.len(),
{
    if s.len() > 0 {
        if white_space(s.first()) {
            law_trimming_is_idempotent(s.drop_first());
        } else if white_space(s.last()) {
            law_trimming_is_idempotent(s.drop_last());
        }
    }
}

/// Strictly sorted texts are determined by which texts they are.
pub proof fn law_sorted_texts_are_unique(a: Seq<Seq<char>>, b: Seq<Seq<char>>)
    requires
        strictly_sorted(a),
        strictly_sorted(b),
        forall|t: Seq<char>| #[trigger] a.contains(t) <==> b.contains(t),
    ensures
        a == b,
    decreases a.len(),
{
    if a.len() == 0 {
        if b.len() > 0 {
            assert(b.contains(b[0]));
            assert(a.contains(b[0]));
        }
        assert(a =~= b);
    } else {
        assert(a.contains(a.last()));
        let i = choose|i: int| 0 <= i < b.len() && b[i] == a.last();
        assert(b.contains(b.last()) && a.contains(b.last()));
        let j = choose|j: int| 0 <= j < a.len() && a[j] == b.last();
        law_order_is_total(a.last(), b.last());
        assert(a.last() == b.last());
        let shorter_a = a.drop_last();
        let shorter_b = b.drop_last();
        assert forall|t: Seq<char>| #[trigger] shorter_a.contains(t) <==> shorter_b.contains(t) by {
            law_order_is_total(t, t);
            if shorter_a.contains(t) {
                let k = choose|k: int| 0 <= k < shorter_a.len() && shorter_a[k] == t;
                assert(a[k] == t);
                assert(a.contains(t));
                let m = choose|m: int| 0 <= m < b.len() && b[m] == t;
                assert(shorter_b[m] == t);
            }
            if shorter_b.contains(t) {
                let k = choose|k: int| 0 <= k < shorter_b.len() && shorter_b[k] == t;
                assert(b[k] == t);
                assert(b.contains(t) && a.contains(t));
                let m = choose|m: int| 0 <= m < a.len() && a[m] == t;
                assert(shorter_a[m] == t);
            }
        }
        law_sorted_texts_are_unique(shorter_a, shorter_b);
        assert(a =~= shorter_a.push(a.last()));
        assert(b =~= shorter_b.push(b.last()));
    }
}

/// White space is these characters and no others: tab, line feed, vertical tab, form feed, carriage
/// return, space, next line, no-break space, the Ogham space mark, the spaces from en quad to hair
/// space, the line and paragraph separators, the narrow no-break space, the medium mathematical
/// space and the ideographic space.
pub proof fn law_white_space_characters(c: char)
    ensures
        white_space(c) <==> seq![
            0x9int,
            0xa,
            0xb,
            0xc,
            0xd,
            0x20,
            0x85,
            0xa0,
            0x1680,
            0x2000,
            0x2001,
            0x2002,
            0x2003,
            0x2004,
            0x2005,
            0x2006,
            0x2007,
            0x2008,
            0x2009,
            0x200a,
            0x2028,
            0x2029,
            0x202f,
            0x205f,
            0x3000,
        ].contains(c as int),
{
    let codes = seq![
        0x9int,
        0xa,
        0xb,
        0xc,
        0xd,
        0x20,
        0x85,
        0xa0,
        0x1680,
        0x2000,
        0x2001,
        0x2002,
        0x2003,
        0x2004,
        0x2005,
        0x2006,
        0x2007,
        0x2008,
        0x2009,
        0x200a,
        0x2028,
        0x2029,
        0x202f,
        0x205f,
        0x3000,
    ];
    let code = c as int;
    if white_space(c) {
        let place: int = if code <= 0xd {
            code - 0x9
        } else if code == 0x20 {
            5
        } else if code == 0x85 {
            6
        } else if code == 0xa0 {
            7
        } else if code == 0x1680 {
            8
        } else if code <= 0x200a {
            code - 0x2000 + 9
        } else if code == 0x2028 {
            20
        } else if code == 0x2029 {
            21
        } else if code == 0x202f {
            22
        } else if code == 0x205f {
            23
        } else {
            24
        };
        assert(codes[place] == code);
    }
}

/// Trimming takes away white space at the two ends and nothing else: where a text is white space,
/// then a middle that neither starts nor ends with white space, then white space, the middle is
/// what is left.
pub proof fn law_trimming_keeps_the_middle(
    leading: Seq<char>,
    middle: Seq<char>,
    trailing: Seq<char>,
)
    requires
        forall|i: int| 0 <= i < leading.len() ==> white_space(#[trigger] leading[i]),
        forall|i: int| 0 <= i < trailing.len() ==> white_space(#[trigger] trailing[i]),
        middle.len() > 0 ==> !white_space(middle[0]) && !white_space(middle[middle.len() - 1]),
    ensures
        trimmed(leading + middle + trailing) == middle,
    decreases leading.len() + trailing.len(),
{
    let s = leading + middle + trailing;
    if leading.len() > 0 {
        let rest = leading.drop_first();
        assert forall|i: int| 0 <= i < rest.len() implies white_space(#[trigger] rest[i]) by {
            assert(rest[i] == leading[i + 1]);
        }
        law_trimming_keeps_the_middle(rest, middle, trailing);
        assert(white_space(leading[0]));
        assert(s.drop_first() =~= rest + middle + trailing);
    } else if trailing.len() > 0 {
        if middle.len() == 0 {
            let rest = trailing.drop_first();
            assert forall|i: int| 0 <= i < rest.len() implies white_space(#[trigger] rest[i]) by {
                assert(rest[i] == trailing[i + 1]);
            }
            law_trimming_keeps_the_middle(leading, middle, rest);
            assert(white_space(trailing[0]));
            assert(s.drop_first() =~= leading + middle + rest);
        } else {
            let rest = trailing.drop_last();
            law_trimming_keeps_the_middle(leading, middle, rest);
            assert(white_space(trailing[trailing.len() - 1]));
            assert(s.drop_last() =~= leading + middle + rest);
        }
    } else {
        assert(s =~= middle);
        reveal_with_fuel(trimmed, 2);
    }
}

/// The first character in which two texts differ decides their order by its code point, and a text
/// comes before every longer text that starts with it.
pub proof fn law_first_difference_decides(a: Seq<char>, b: Seq<char>, at: int)
    requires
        0 <= at <= a.len(),
        at <= b.len(),
        forall|i: int| 0 <= i < at ==> a[i] == b[i],
    ensures
        at < a.len() && at < b.len() && a[at] != b[at] ==> (text_less(a, b) <==> (a[at] as int) < (
        b[at] as int)),
        at == a.len() && at < b.len() ==> text_less(a, b),
        at == b.len() ==> !text_less(a, b),
    decreases at,
{
    if at > 0 {
        assert(a[0] == b[0]);
        law_first_difference_decides(a.drop_first(), b.drop_first(), at - 1);
    }
}

/// A text is read as the number `value` exactly where it is one or more of the characters `0` to
/// `9` and these spell `value` in base ten. A plus sign before them makes no difference, and one
/// is allowed there.
pub proof fn law_numbers_are_decimal(digits: Seq<char>, value: u64)
    ensures
        parsed_u64(seq!['+'] + digits) == Some(value) <==> (digits.len() > 0 && (forall|i: int|
            0 <= i < digits.len() ==> 48 <= #[trigger] digits[i] as int <= 57)
            && digits.fold_left(0int, |number: int, c: char| 10 * number + (c as int - 48))
            == value),
        digits.len() == 0 || digits[0] != '+' ==> parsed_u64(digits) == parsed_u64(
            seq!['+'] + digits,
        ),
{
    let signed = seq!['+'] + digits;
    assert(signed.drop_first() =~= digits);
    assert(unsigned_part(signed) == digits);
    if forall|i: int| 0 <= i < digits.len() ==> 48 <= #[trigger] digits[i] as int <= 57 {
        lemma_decimal_value_is_fold(digits);
        assert(forall|i: int| 0 <= i < digits.len() ==> decimal_digit(#[trigger] digits[i]));
    } else {
        let bad = choose|i: int|
            0 <= i < digits.len() && !(48 <= #[trigger] digits[i] as int <= 57);
        assert(!decimal_digit(digits[bad]));
    }
}

/// The value of digits, digit by digit.
proof fn lemma_decimal_value_is_fold(digits: Seq<char>)
    requires
        forall|i: int| 0 <= i < digits.len() ==> 48 <= #[trigger] digits[i] as int <= 57,
    ensures
        digits.fold_left(0int, |number: int, c: char| 10 * number + (c as int - 48))
            == decimal_value(digits),
    decreases digits.len(),
{
    if digits.len() > 0 {
        let fewer = digits.drop_last();
        assert forall|i: int| 0 <= i < fewer.len() implies 48 <= #[trigger] fewer[i] as int
            <= 57 by {
            assert(fewer[i] == digits[i]);
        }
        lemma_decimal_value_is_fold(fewer);
        assert(48 <= digits[digits.len() - 1] as int <= 57);
    }
}

/// One more digit makes a number ten times as large and adds the digit, and a number that no
/// longer fits is none.
pub proof fn law_one_more_digit(s: Seq<char>, value: u64, digit: char)
    requires
        parsed_u64(s) == Some(value),
        48 <= digit as int <= 57,
    ensures
        10 * value + (digit as int - 48) <= u64::MAX ==> parsed_u64(s.push(digit)) == Some(
            (10 * value + (digit as int - 48)) as u64,
        ),
        10 * value + (digit as int - 48) > u64::MAX ==> parsed_u64(s.push(digit)) is None,
{
    let digits = unsigned_part(s);
    assert(unsigned_part(s.push(digit)) =~= digits.push(digit));
    assert(digits.push(digit).drop_last() =~= digits);
    assert(decimal_value(digits.push(digit)) == 10 * decimal_value(digits) + digit_value(digit));
    assert(decimal_digit(digit));
}

} // verus!
