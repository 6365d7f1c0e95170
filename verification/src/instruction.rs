use vstd::prelude::*;
use vstd::string::StrSliceExecFns;

verus! {

/// Whether `c` has the Unicode White_Space property (PropList.txt): the
/// control characters U+0009 to U+000D, space, U+0085, no-break space,
/// U+1680, U+2000 to U+200A, the line and paragraph separators U+2028 and
/// U+2029, U+202F, U+205F and U+3000.
pub open spec fn white_space(c: char) -> bool {
    let n = c as int;
    ||| 0x9 <= n <= 0xd
    ||| n == 0x20
    ||| n == 0x85
    ||| n == 0xa0
    ||| n == 0x1680
    ||| 0x2000 <= n <= 0x200a
    ||| n == 0x2028
    ||| n == 0x2029
    ||| n == 0x202f
    ||| n == 0x205f
    ||| n == 0x3000
}

/// `char::is_whitespace`: claims that it accepts exactly the characters with
/// the Unicode White_Space property, which its documentation names
/// (`white_space`).
#[verifier::external_body]
fn is_whitespace(c: char) -> (r: bool)
    ensures
        r == white_space(c),
{
    c.is_whitespace()
}

/// `String::push`: claims that the string grows by `c` at its end.
#[verifier::external_body]
fn push_char(s: &mut String, c: char)
    ensures
        final(s)@ == old(s)@.push(c),
{
    s.push(c)
}

/// `text` without its white space.
pub open spec fn strip_white_space(text: Seq<char>) -> Seq<char>
    decreases text.len(),
{
    if text.len() == 0 {
        text
    } else if white_space(text.last()) {
        strip_white_space(text.drop_last())
    } else {
        strip_white_space(text.drop_last()).push(text.last())
    }
}

/// The fields of `text` between the separators `sep`, as `str::split` gives
/// them: text without a separator is one field, and the empty text is one empty
/// field.
pub open spec fn split_on(text: Seq<char>, sep: char) -> Seq<Seq<char>>
    decreases text.len(),
{
    if text.len() == 0 {
        seq![Seq::<char>::empty()]
    } else {
        let prev = split_on(text.drop_last(), sep);
        if text.last() == sep {
            prev.push(Seq::<char>::empty())
        } else {
            prev.update(prev.len() - 1, prev.last().push(text.last()))
        }
    }
}

/// Whether `c` is a decimal digit.
pub open spec fn is_digit(c: char) -> bool {
    '0' <= c <= '9'
}

/// The value of decimal digit `c`.
pub open spec fn digit_value(c: char) -> int {
    c as int - '0' as int
}

/// Every character of `d` is a decimal digit.
pub open spec fn all_digits(d: Seq<char>) -> bool {
    forall|i: int| 0 <= i < d.len() ==> is_digit(#[trigger] d[i])
}

/// The value of the decimal digits `d`.
pub open spec fn digits_value(d: Seq<char>) -> int
    decreases d.len(),
{
    if d.len() == 0 {
        0
    } else {
        10 * digits_value(d.drop_last()) + digit_value(d.last())
    }
}

/// The `i32` that `text` writes, as `str::parse::<i32>` reads it: an optional
/// `+` or `-`, then one or more decimal digits, whose value must fit.
pub open spec fn parse_i32(text: Seq<char>) -> Option<i32> {
    let negative = text.len() > 0 && text[0] == '-';
    let digits = if text.len() > 0 && (text[0] == '-' || text[0] == '+') {
        text.skip(1)
    } else {
        text
    };
    let value = if negative {
        -digits_value(digits)
    } else {
        digits_value(digits)
    };
    if digits.len() > 0 && all_digits(digits) && i32::MIN <= value <= i32::MAX {
        Some(value as i32)
    } else {
        None
    }
}

proof fn lemma_split_on_nonempty(text: Seq<char>, sep: char)
    ensures
        split_on(text, sep).len() >= 1,
    decreases text.len(),
{
    if text.len() > 0 {
        lemma_split_on_nonempty(text.drop_last(), sep);
    }
}

proof fn lemma_digits_value_nonneg(d: Seq<char>)
    requires
        all_digits(d),
    ensures
        digits_value(d) >= 0,
    decreases d.len(),
{
    if d.len() > 0 {
        assert(is_digit(d[d.len() - 1]));
        lemma_digits_value_nonneg(d.drop_last());
    }
}

/// The value of digits is at least the value of any of their prefixes.
proof fn lemma_digits_value_grows(d: Seq<char>, k: int)
    requires
        all_digits(d),
        0 <= k <= d.len(),
    ensures
        digits_value(d) >= digits_value(d.take(k)),
    decreases d.len(),
{
    if k < d.len() {
        assert(d.drop_last().take(k) =~= d.take(k));
        lemma_digits_value_grows(d.drop_last(), k);
        assert(is_digit(d[d.len() - 1]));
        lemma_digits_value_nonneg(d.drop_last());
    } else {
        assert(d.take(k) =~= d);
    }
}

/// `text` without its white space (see `strip_white_space`).
pub fn strip_whitespace(text: &String) -> (r: Vec<char>)
    ensures
        r@ == strip_white_space(text@),
{
    let s = text.as_str();
    let n = s.unicode_len();
    let mut r: Vec<char> = Vec::new();
    let mut i: usize = 0;
    while i < n
        invariant
            n == s@.len(),
            s@ == text@,
            i <= n,
            r@ == strip_white_space(text@.take(i as int)),
        decreases n - i,
    {
        let c = s.get_char(i);
        proof {
            assert(text@.take(i + 1).drop_last() =~= text@.take(i as int));
            assert(text@.take(i + 1).last() == c);
        }
        if !is_whitespace(c) {
            r.push(c);
        }
        i = i + 1;
    }
    proof {
        assert(text@.take(n as int) =~= text@);
    }
    r
}

/// The fields of `text` between the separators `sep` (see `split_on`).
pub fn split_at_char(text: &Vec<char>, sep: char) -> (r: Vec<Vec<char>>)
    ensures
        r@.len() == split_on(text@, sep).len(),
        forall|j: int| 0 <= j < r@.len() ==> #[trigger] r@[j]@ == split_on(text@, sep)[j],
{
    let mut fields: Vec<Vec<char>> = Vec::new();
    let mut current: Vec<char> = Vec::new();
    let mut i: usize = 0;
    while i < text.len()
        invariant
            i <= text@.len(),
            fields@.len() + 1 == split_on(text@.take(i as int), sep).len(),
            forall|j: int|
                0 <= j < fields@.len() ==> #[trigger] fields@[j]@ == split_on(text@.take(i as int), sep)[j],
            current@ == split_on(text@.take(i as int), sep).last(),
        decreases text@.len() - i,
    {
        let c = text[i];
        proof {
            assert(text@.take(i + 1).drop_last() =~= text@.take(i as int));
            assert(text@.take(i + 1).last() == c);
            lemma_split_on_nonempty(text@.take(i as int), sep);
        }
        if c == sep {
            fields.push(current);
            current = Vec::new();
        } else {
            current.push(c);
        }
        i = i + 1;
    }
    fields.push(current);
    proof {
        assert(text@.take(text@.len() as int) =~= text@);
        lemma_split_on_nonempty(text@, sep);
    }
    fields
}

/// `text` read as an `i32` (see `parse_i32`), or `None` when it is not one.
pub fn parse_number(text: &Vec<char>) -> (r: Option<i32>)
    ensures
        r == parse_i32(text@),
{
    let n = text.len();
    let mut start: usize = 0;
    let mut negative = false;
    if n > 0 && (text[0] == '-' || text[0] == '+') {
        negative = text[0] == '-';
        start = 1;
    }
    let ghost digits = if n > 0 && (text@[0] == '-' || text@[0] == '+') {
        text@.skip(1)
    } else {
        text@
    };
    proof {
        if start == 0 {
            assert(text@.skip(0) =~= text@);
        }
    }
    if start == n {
        return None;
    }
    let mut value: i64 = 0;
    let mut i: usize = start;
    while i < n
        invariant
            start <= i <= n,
            n == text@.len(),
            start < n,
            start == (if text@[0] == '-' || text@[0] == '+' {
                1int
            } else {
                0int
            }),
            negative == (text@[0] == '-'),
            digits == text@.skip(start as int),
            digits == (if text@[0] == '-' || text@[0] == '+' {
                text@.skip(1)
            } else {
                text@
            }),
            all_digits(digits.take(i - start)),
            value == digits_value(digits.take(i - start)),
            0 <= value <= 2147483648,
        decreases n - i,
    {
        let c = text[i];
        proof {
            assert(digits.take(i - start + 1).drop_last() =~= digits.take(i - start));
            assert(digits.take(i - start + 1).last() == c);
            assert(digits[i - start] == c);
        }
        if c < '0' || c > '9' {
            proof {
                assert(!is_digit(digits[i - start]));
            }
            return None;
        }
        let d = (c as u32 - '0' as u32) as i64;
        value = value * 10 + d;
        proof {
            assert(d == digit_value(c));
            assert(value == digits_value(digits.take(i - start + 1)));
            assert(all_digits(digits.take(i - start + 1))) by {
                assert forall|j: int| 0 <= j < i - start + 1 implies is_digit(
                    #[trigger] digits.take(i - start + 1)[j],
                ) by {
                    if j < i - start {
                        assert(digits.take(i - start + 1)[j] == digits.take(i - start)[j]);
                    }
                }
            }
        }
        if value > 2147483648 {
            proof {
                if all_digits(digits) {
                    lemma_digits_value_grows(digits, i - start + 1);
                    assert(digits_value(digits) > 2147483648);
                }
                assert(parse_i32(text@) is None);
            }
            return None;
        }
        i = i + 1;
    }
    proof {
        assert(digits.take(n - start) =~= digits);
    }
    if negative {
        Some((0 - value) as i32)
    } else if value > 2147483647 {
        None
    } else {
        Some(value as i32)
    }
}

/// A `String` that holds the characters of `chars`.
pub fn chars_to_string(chars: &Vec<char>) -> (r: String)
    ensures
        r@ == chars@,
{
    let mut r = String::new();
    for i in 0..chars.len()
        invariant
            r@ == chars@.take(i as int),
    {
        push_char(&mut r, chars[i]);
        proof {
            assert(chars@.take(i + 1) =~= chars@.take(i as int).push(chars@[i as int]));
        }
    }
    proof {
        assert(chars@.take(chars@.len() as int) =~= chars@);
    }
    r
}

/// The unsigned number that `text` writes, as `str::parse` reads one for an
/// unsigned type whose largest value is `max`: an optional `+`, then one or more
/// decimal digits, whose value must not exceed `max`.
pub open spec fn parse_unsigned(text: Seq<char>, max: int) -> Option<int> {
    let digits = if text.len() > 0 && text[0] == '+' {
        text.skip(1)
    } else {
        text
    };
    if digits.len() > 0 && all_digits(digits) && digits_value(digits) <= max {
        Some(digits_value(digits))
    } else {
        None
    }
}

/// `text` read as an unsigned number no greater than `max` (see
/// `parse_unsigned`), or `None` when it is not one.
pub fn parse_unsigned_number(text: &Vec<char>, max: u64) -> (r: Option<u64>)
    ensures
        r == (match parse_unsigned(text@, max as int) {
            Some(v) => Some(v as u64),
            None => None::<u64>,
        }),
        r matches Some(v) ==> v <= max && parse_unsigned(text@, max as int) == Some(v as int),
{
    let n = text.len();
    let mut start: usize = 0;
    if n > 0 && text[0] == '+' {
        start = 1;
    }
    let ghost digits = if n > 0 && text@[0] == '+' {
        text@.skip(1)
    } else {
        text@
    };
    proof {
        if start == 0 {
            assert(text@.skip(0) =~= text@);
        }
    }
    if start == n {
        return None;
    }
    let mut value: u128 = 0;
    let mut i: usize = start;
    while i < n
        invariant
            start <= i <= n,
            n == text@.len(),
            start < n,
            start == (if text@[0] == '+' {
                1int
            } else {
                0int
            }),
            digits == text@.skip(start as int),
            digits == (if text@[0] == '+' {
                text@.skip(1)
            } else {
                text@
            }),
            all_digits(digits.take(i - start)),
            value == digits_value(digits.take(i - start)),
            0 <= value <= max,
        decreases n - i,
    {
        let c = text[i];
        proof {
            assert(digits.take(i - start + 1).drop_last() =~= digits.take(i - start));
            assert(digits.take(i - start + 1).last() == c);
            assert(digits[i - start] == c);
        }
        if c < '0' || c > '9' {
            proof {
                assert(!is_digit(digits[i - start]));
            }
            return None;
        }
        let d = (c as u32 - '0' as u32) as u128;
        value = value * 10 + d;
        proof {
            assert(d == digit_value(c));
            assert(value == digits_value(digits.take(i - start + 1)));
            assert(all_digits(digits.take(i - start + 1))) by {
                assert forall|j: int| 0 <= j < i - start + 1 implies is_digit(
                    #[trigger] digits.take(i - start + 1)[j],
                ) by {
                    if j < i - start {
                        assert(digits.take(i - start + 1)[j] == digits.take(i - start)[j]);
                    }
                }
            }
        }
        if value > max as u128 {
            proof {
                if all_digits(digits) {
                    lemma_digits_value_grows(digits, i - start + 1);
                }
                assert(parse_unsigned(text@, max as int) is None);
            }
            return None;
        }
        i = i + 1;
    }
    proof {
        assert(digits.take(n - start) =~= digits);
    }
    Some(value as u64)
}

/// The fields of `text` between the separators `", "`, found from the left
/// without overlapping, as `str::split(", ")` gives them.
pub open spec fn split_list(text: Seq<char>) -> Seq<Seq<char>>
    decreases text.len(),
{
    if text.len() < 2 {
        seq![text]
    } else if text[0] == ',' && text[1] == ' ' {
        seq![Seq::<char>::empty()] + split_list(text.skip(2))
    } else {
        let rest = split_list(text.skip(1));
        rest.update(0, seq![text[0]] + rest[0])
    }
}

/// `fields` with `prefix` put in front of its first field.
pub open spec fn prepend_first(prefix: Seq<char>, fields: Seq<Seq<char>>) -> Seq<Seq<char>> {
    fields.update(0, prefix + fields[0])
}

pub proof fn lemma_split_list_nonempty(text: Seq<char>)
    ensures
        split_list(text).len() >= 1,
    decreases text.len(),
{
    if text.len() >= 2 {
        if text[0] == ',' && text[1] == ' ' {
            lemma_split_list_nonempty(text.skip(2));
        } else {
            lemma_split_list_nonempty(text.skip(1));
        }
    }
}

/// The fields of `text` between the separators `", "` (see `split_list`).
pub fn split_at_comma_space(text: &Vec<char>) -> (r: Vec<Vec<char>>)
    ensures
        r@.len() == split_list(text@).len(),
        forall|j: int| 0 <= j < r@.len() ==> #[trigger] r@[j]@ == split_list(text@)[j],
{
    let n = text.len();
    let mut fields: Vec<Vec<char>> = Vec::new();
    let mut current: Vec<char> = Vec::new();
    let mut i: usize = 0;
    let ghost done: Seq<Seq<char>> = Seq::empty();
    proof {
        assert(text@.skip(0) =~= text@);
        lemma_split_list_nonempty(text@);
        assert(prepend_first(Seq::<char>::empty(), split_list(text@)) =~= split_list(text@)) by {
            assert(Seq::<char>::empty() + split_list(text@)[0] =~= split_list(text@)[0]);
        }
    }
    while i < n
        invariant
            n == text@.len(),
            i <= n,
            fields@.len() == done.len(),
            forall|j: int| 0 <= j < fields@.len() ==> #[trigger] fields@[j]@ == done[j],
            split_list(text@) == done + prepend_first(current@, split_list(text@.skip(i as int))),
        decreases n - i,
    {
        let ghost rest = text@.skip(i as int);
        proof {
            lemma_split_list_nonempty(rest);
        }
        if i + 1 < n && text[i] == ',' && text[i + 1] == ' ' {
            proof {
                assert(rest[0] == ',' && rest[1] == ' ');
                assert(rest.skip(2) =~= text@.skip(i + 2));
                lemma_split_list_nonempty(rest.skip(2));
                let tail = split_list(rest.skip(2));
                assert(prepend_first(current@, split_list(rest)) =~= seq![current@] + tail);
                assert(done + (seq![current@] + tail) =~= done.push(current@) + tail);
                assert(tail =~= prepend_first(Seq::<char>::empty(), tail)) by {
                    assert(Seq::<char>::empty() + tail[0] =~= tail[0]);
                }
                done = done.push(current@);
            }
            fields.push(current);
            current = Vec::new();
            i = i + 2;
        } else {
            let c = text[i];
            proof {
                assert(rest.skip(1) =~= text@.skip(i + 1));
                lemma_split_list_nonempty(rest.skip(1));
                if rest.len() >= 2 {
                    assert(!(rest[0] == ',' && rest[1] == ' '));
                    let tail = split_list(rest.skip(1));
                    assert(prepend_first(current@, split_list(rest)) =~= prepend_first(
                        current@.push(c),
                        tail,
                    )) by {
                        assert(current@ + (seq![c] + tail[0]) =~= current@.push(c) + tail[0]);
                    }
                } else {
                    assert(rest =~= seq![c]);
                    assert(rest.skip(1) =~= Seq::<char>::empty());
                    assert(prepend_first(current@, split_list(rest)) =~= prepend_first(
                        current@.push(c),
                        split_list(rest.skip(1)),
                    )) by {
                        assert(current@ + seq![c] =~= current@.push(c));
                        assert(current@.push(c) + Seq::<char>::empty() =~= current@.push(c));
                    }
                }
            }
            current.push(c);
            i = i + 1;
        }
    }
    proof {
        assert(text@.skip(n as int) =~= Seq::<char>::empty());
        assert(prepend_first(current@, split_list(Seq::<char>::empty())) =~= seq![current@]) by {
            assert(current@ + Seq::<char>::empty() =~= current@);
        }
        assert(done + seq![current@] =~= done.push(current@));
    }
    fields.push(current);
    proof {
        assert forall|j: int| 0 <= j < fields@.len() implies #[trigger] fields@[j]@ == split_list(
            text@,
        )[j] by {
            if j < done.len() {
                assert(split_list(text@)[j] == done[j]);
            }
        }
    }
    fields
}

/// The characters of `text`.
pub fn string_chars(text: &String) -> (r: Vec<char>)
    ensures
        r@ == text@,
{
    let s = text.as_str();
    let n = s.unicode_len();
    let mut r: Vec<char> = Vec::new();
    for i in 0..n
        invariant
            n == s@.len(),
            s@ == text@,
            r@ == text@.take(i as int),
    {
        let c = s.get_char(i);
        r.push(c);
        proof {
            assert(text@.take(i + 1) =~= text@.take(i as int).push(c));
        }
    }
    proof {
        assert(text@.take(n as int) =~= text@);
    }
    r
}

} // verus!
