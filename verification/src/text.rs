//! Character-level building blocks: splitting at a separator, and unsigned
//! decimal numbers as text.

use vstd::prelude::*;

verus! {

/// Whether `c` is one of the ASCII digits `0` to `9`.
pub open spec fn is_digit(c: char) -> bool {
    '0' <= c && c <= '9'
}

/// The value of the ASCII digit `c`.
pub open spec fn digit_value(c: char) -> nat
    recommends
        is_digit(c),
{
    (c as nat - '0' as nat) as nat
}

/// The ASCII digit whose value is `d`.
pub open spec fn digit_char(d: nat) -> char
    recommends
        d < 10,
{
    if d == 0 {
        '0'
    } else if d == 1 {
        '1'
    } else if d == 2 {
        '2'
    } else if d == 3 {
        '3'
    } else if d == 4 {
        '4'
    } else if d == 5 {
        '5'
    } else if d == 6 {
        '6'
    } else if d == 7 {
        '7'
    } else if d == 8 {
        '8'
    } else {
        '9'
    }
}

/// Whether every character of `s` is an ASCII digit.
pub open spec fn all_digits(s: Seq<char>) -> bool {
    forall|i: int| 0 <= i < s.len() ==> is_digit(#[trigger] s[i])
}

/// The number that the digits of `s` spell in base ten; zero for no digits.
pub open spec fn digits_value(s: Seq<char>) -> nat
    decreases s.len(),
{
    if s.len() == 0 {
        0
    } else {
        digits_value(s.drop_last()) * 10 + digit_value(s.last())
    }
}

/// The digits of a number token: the token itself, without one leading plus
/// sign if it has one.
pub open spec fn unsigned_part(s: Seq<char>) -> Seq<char> {
    if s.len() > 0 && s[0] == '+' {
        s.skip(1)
    } else {
        s
    }
}

/// The 16-bit number that `s` denotes: an optional plus sign, then one or
/// more ASCII digits whose value is at most 65535. Anything else is no
/// number.
pub open spec fn parse_number(s: Seq<char>) -> Option<u16> {
    let digits = unsigned_part(s);
    if digits.len() > 0 && all_digits(digits) && digits_value(digits) <= u16::MAX {
        Some(digits_value(digits) as u16)
    } else {
        None
    }
}

/// The decimal form of `n`, without leading zeros.
pub open spec fn decimal(n: nat) -> Seq<char>
    decreases n,
{
    if n < 10 {
        seq![digit_char(n)]
    } else {
        decimal(n / 10).push(digit_char(n % 10))
    }
}

/// Whether `sep` does not occur in `s`.
pub open spec fn free_of(s: Seq<char>, sep: char) -> bool {
    forall|i: int| 0 <= i < s.len() ==> #[trigger] s[i] != sep
}

/// The length of the longest prefix of `s` in which `sep` does not occur.
pub open spec fn field_len(s: Seq<char>, sep: char) -> nat
    decreases s.len(),
{
    if s.len() == 0 || s[0] == sep {
        0
    } else {
        1 + field_len(s.drop_first(), sep)
    }
}

/// The fields of `s`: the pieces between the occurrences of `sep`, in order.
/// There is always at least one field, and a field may be empty.
pub open spec fn split_on(s: Seq<char>, sep: char) -> Seq<Seq<char>>
    decreases s.len(),
{
    let n = field_len(s, sep);
    if n < s.len() {
        seq![s.take(n as int)] + split_on(s.skip(n as int + 1), sep)
    } else {
        seq![s]
    }
}

/// The fields put together again, with `sep` between neighbours.
pub open spec fn join(fields: Seq<Seq<char>>, sep: char) -> Seq<char>
    decreases fields.len(),
{
    if fields.len() == 0 {
        Seq::empty()
    } else if fields.len() == 1 {
        fields[0]
    } else {
        fields[0] + seq![sep] + join(fields.drop_first(), sep)
    }
}

/// `field_len` is the position of the first separator, or the length where
/// there is none.
pub proof fn lemma_field_len(s: Seq<char>, sep: char, n: int)
    requires
        0 <= n <= s.len(),
        free_of(s.take(n), sep),
        n < s.len() ==> s[n] == sep,
    ensures
        field_len(s, sep) == n,
    decreases s.len(),
{
    if n == 0 {
    } else {
        assert(s.take(n)[0] == s[0]);
        let rest = s.drop_first();
        assert forall|i: int| 0 <= i < rest.take(n - 1).len() implies #[trigger] rest.take(
            n - 1,
        )[i] != sep by {
            assert(s.take(n)[i + 1] == rest.take(n - 1)[i]);
        }
        lemma_field_len(rest, sep, n - 1);
    }
}

/// The first field ends before the end of the text or at it, and holds no
/// separator; where it ends before the end, a separator follows.
pub proof fn lemma_field_len_bounds(s: Seq<char>, sep: char)
    ensures
        field_len(s, sep) <= s.len(),
        free_of(s.take(field_len(s, sep) as int), sep),
        field_len(s, sep) < s.len() ==> s[field_len(s, sep) as int] == sep,
    decreases s.len(),
{
    if s.len() == 0 || s[0] == sep {
    } else {
        let rest = s.drop_first();
        lemma_field_len_bounds(rest, sep);
        let n = field_len(s, sep);
        assert forall|i: int| 0 <= i < s.take(n as int).len() implies #[trigger] s.take(
            n as int,
        )[i] != sep by {
            if i > 0 {
                assert(rest.take(n - 1)[i - 1] == s.take(n as int)[i]);
            }
        }
    }
}

/// A text without the separator is its own single field.
pub proof fn lemma_split_single(s: Seq<char>, sep: char)
    requires
        free_of(s, sep),
    ensures
        split_on(s, sep) == seq![s],
{
    assert(s.take(s.len() as int) == s);
    lemma_field_len(s, sep, s.len() as int);
}

/// Where a separator-free `head` is followed by a separator, `head` is the
/// first field and the fields of the remainder follow.
pub proof fn lemma_split_cons(head: Seq<char>, tail: Seq<char>, sep: char)
    requires
        free_of(head, sep),
    ensures
        split_on(head + seq![sep] + tail, sep) == seq![head] + split_on(tail, sep),
{
    let s = head + seq![sep] + tail;
    let n = head.len() as int;
    assert(s.take(n) == head);
    assert(s[n] == sep);
    lemma_field_len(s, sep, n);
    assert(s.skip(n + 1) == tail);
}

/// Whether `sep` occurs in none of `fields`.
pub open spec fn all_free_of(fields: Seq<Seq<char>>, sep: char) -> bool {
    forall|i: int| 0 <= i < fields.len() ==> free_of(#[trigger] fields[i], sep)
}

/// Splitting loses nothing: there is at least one field, no field holds the
/// separator, and joining the fields gives the text back.
pub proof fn lemma_split_join(s: Seq<char>, sep: char)
    ensures
        split_on(s, sep).len() >= 1,
        all_free_of(split_on(s, sep), sep),
        join(split_on(s, sep), sep) == s,
    decreases s.len(),
{
    let n = field_len(s, sep);
    lemma_field_len_bounds(s, sep);
    if n < s.len() {
        let head = s.take(n as int);
        let tail = s.skip(n as int + 1);
        lemma_split_join(tail, sep);
        let rest = split_on(tail, sep);
        let fields = seq![head] + rest;
        assert(fields.drop_first() == rest);
        assert(fields[0] == head);
        assert(head + seq![sep] + tail == s);
        assert forall|i: int| 0 <= i < fields.len() implies free_of(#[trigger] fields[i], sep) by {
            if i > 0 {
                assert(fields[i] == rest[i - 1]);
            }
        }
    } else {
        assert(s.take(n as int) == s);
    }
}

/// Splitting undoes joining: separator-free fields, at least one of them,
/// are the fields of their join.
pub proof fn lemma_join_split(fields: Seq<Seq<char>>, sep: char)
    requires
        fields.len() >= 1,
        all_free_of(fields, sep),
    ensures
        split_on(join(fields, sep), sep) == fields,
    decreases fields.len(),
{
    if fields.len() == 1 {
        lemma_split_single(fields[0], sep);
        assert(fields == seq![fields[0]]);
    } else {
        let rest = fields.drop_first();
        assert forall|i: int| 0 <= i < rest.len() implies free_of(#[trigger] rest[i], sep) by {
            assert(rest[i] == fields[i + 1]);
        }
        lemma_join_split(rest, sep);
        lemma_split_cons(fields[0], join(rest, sep), sep);
        assert(seq![fields[0]] + rest == fields);
    }
}

/// The value of a prefix of digits never exceeds the value of the whole.
pub proof fn lemma_digits_value_prefix(s: Seq<char>, k: int)
    requires
        0 <= k <= s.len(),
    ensures
        digits_value(s.take(k)) <= digits_value(s),
    decreases s.len() - k,
{
    if k == s.len() {
        assert(s.take(k) == s);
    } else {
        lemma_digits_value_prefix(s.drop_last(), k);
        assert(s.drop_last().take(k) == s.take(k));
    }
}

/// One more digit: the value so far times ten, plus the digit.
pub proof fn lemma_digits_value_step(s: Seq<char>, k: int)
    requires
        0 <= k < s.len(),
    ensures
        digits_value(s.take(k + 1)) == digits_value(s.take(k)) * 10 + digit_value(s[k]),
{
    assert(s.take(k + 1).drop_last() == s.take(k));
}

/// The decimal form of a number is a non-empty text of digits that spells it.
pub proof fn lemma_decimal_digits(n: nat)
    ensures
        decimal(n).len() > 0,
        all_digits(decimal(n)),
        digits_value(decimal(n)) == n,
    decreases n,
{
    if n < 10 {
        let s = decimal(n);
        assert(digits_value(s.drop_last()) == 0);
        assert(digit_value(s.last()) == n);
    } else {
        lemma_decimal_digits(n / 10);
        let s = decimal(n);
        assert(s.drop_last() == decimal(n / 10));
        assert(digit_value(s.last()) == n % 10);
    }
}

/// Reading the decimal form of a 16-bit number gives the number back.
pub proof fn lemma_parse_decimal(n: u16)
    ensures
        parse_number(decimal(n as nat)) == Some(n),
{
    lemma_decimal_digits(n as nat);
    assert(is_digit(decimal(n as nat)[0]));
}

/// A part of a text, by the positions where it starts and ends.
#[derive(Clone, Copy, Debug)]
pub struct Span {
    pub start: usize,
    pub end: usize,
}

impl Span {
    /// Whether the span lies between `from` and `to`, ends included.
    pub open spec fn within(self, from: int, to: int) -> bool {
        from <= self.start <= self.end <= to
    }

    /// The characters of `chars` that the span covers.
    pub open spec fn cut(self, chars: Seq<char>) -> Seq<char> {
        chars.subrange(self.start as int, self.end as int)
    }
}

/// The characters that each of `spans` covers, in order.
pub open spec fn cuts(spans: Seq<Span>, chars: Seq<char>) -> Seq<Seq<char>> {
    Seq::new(spans.len(), |i: int| spans[i].cut(chars))
}

/// Copies the characters of `s` into a vector.
pub fn chars_of(s: &str) -> (chars: Vec<char>)
    ensures
        chars@ == s@,
{
    let mut chars: Vec<char> = Vec::new();
    for c in it: s.chars()
        invariant
            it.seq() == s@,
            chars@ == it.seq().take(it.index()),
    {
        chars.push(c);
    }
    chars
}

/// The value of `c` where it is an ASCII digit.
pub fn digit_of(c: char) -> (d: Option<u32>)
    ensures
        d is Some == is_digit(c),
        d matches Some(v) ==> v == digit_value(c) && v < 10,
{
    if '0' <= c && c <= '9' {
        Some(c as u32 - '0' as u32)
    } else {
        None
    }
}

/// Reads the 16-bit number that stands between `from` and `to`.
pub fn number_in(chars: &Vec<char>, from: usize, to: usize) -> (r: Option<u16>)
    requires
        from <= to <= chars.len(),
    ensures
        r == parse_number(chars@.subrange(from as int, to as int)),
{
    let ghost token = chars@.subrange(from as int, to as int);
    let mut i: usize = from;
    if i < to && chars[i] == '+' {
        i = i + 1;
    }
    let first: usize = i;
    let ghost digits = chars@.subrange(first as int, to as int);
    assert(digits == unsigned_part(token));
    if first == to {
        return None;
    }
    let mut value: u32 = 0;
    while i < to
        invariant
            first <= i <= to <= chars.len(),
            digits == chars@.subrange(first as int, to as int),
            digits == unsigned_part(chars@.subrange(from as int, to as int)),
            all_digits(digits.take(i - first)),
            value == digits_value(digits.take(i - first)),
            value <= u16::MAX,
        decreases to - i,
    {
        proof {
            lemma_digits_value_step(digits, i - first);
            lemma_digits_value_prefix(digits, i - first + 1);
        }
        match digit_of(chars[i]) {
            None => {
                assert(!is_digit(digits[i - first]));
                return None;
            },
            Some(d) => {
                value = value * 10 + d;
                if value > 65535 {
                    return None;
                }
                assert forall|j: int| 0 <= j < digits.take(i + 1 - first).len() implies is_digit(
                    #[trigger] digits.take(i + 1 - first)[j],
                ) by {
                    if j < i - first {
                        assert(digits.take(i - first)[j] == digits[j]);
                    }
                }
            },
        }
        i = i + 1;
    }
    assert(digits.take(to - first) == digits);
    Some(value as u16)
}

/// Finds the fields between `from` and `to` that `sep` separates.
pub fn split_spans(chars: &Vec<char>, from: usize, to: usize, sep: char) -> (spans: Vec<Span>)
    requires
        from <= to <= chars.len(),
    ensures
        cuts(spans@, chars@) == split_on(chars@.subrange(from as int, to as int), sep),
        forall|k: int| 0 <= k < spans.len() ==> (#[trigger] spans[k]).within(from as int, to as int),
{
    let mut spans: Vec<Span> = Vec::new();
    let mut start: usize = from;
    let mut i: usize = from;
    assert(cuts(spans@, chars@) + split_on(chars@.subrange(start as int, to as int), sep)
        == split_on(chars@.subrange(from as int, to as int), sep));
    while i < to
        invariant
            from <= start <= i <= to <= chars.len(),
            free_of(chars@.subrange(start as int, i as int), sep),
            cuts(spans@, chars@) + split_on(chars@.subrange(start as int, to as int), sep)
                == split_on(chars@.subrange(from as int, to as int), sep),
            forall|k: int| 0 <= k < spans.len() ==> (#[trigger] spans[k]).within(
                from as int,
                to as int,
            ),
        decreases to - i,
    {
        if chars[i] == sep {
            let ghost head = chars@.subrange(start as int, i as int);
            let ghost tail = chars@.subrange(i + 1, to as int);
            let ghost before = cuts(spans@, chars@);
            proof {
                assert(chars@.subrange(start as int, to as int) == head + seq![sep] + tail);
                lemma_split_cons(head, tail, sep);
            }
            spans.push(Span { start, end: i });
            start = i + 1;
            proof {
                assert(cuts(spans@, chars@) == before.push(head));
                assert(before.push(head) + split_on(tail, sep) == before + (seq![head] + split_on(
                    tail,
                    sep,
                )));
            }
        } else {
            assert forall|j: int|
                0 <= j < chars@.subrange(start as int, i + 1).len() implies #[trigger] chars@.subrange(
                start as int,
                i + 1,
            )[j] != sep by {
                if j < i - start {
                    assert(chars@.subrange(start as int, i as int)[j] == chars@[start + j]);
                }
            }
        }
        i = i + 1;
    }
    let ghost last = chars@.subrange(start as int, to as int);
    let ghost before = cuts(spans@, chars@);
    proof {
        lemma_split_single(last, sep);
    }
    spans.push(Span { start, end: to });
    proof {
        assert(cuts(spans@, chars@) == before.push(last));
        assert(before.push(last) == before + seq![last]);
    }
    spans
}

/// The one-character text of the digit `d`.
pub fn digit_text(d: u16) -> (t: &'static str)
    requires
        d < 10,
    ensures
        t@ == seq![digit_char(d as nat)],
{
    proof {
        reveal_strlit("0");
        reveal_strlit("1");
        reveal_strlit("2");
        reveal_strlit("3");
        reveal_strlit("4");
        reveal_strlit("5");
        reveal_strlit("6");
        reveal_strlit("7");
        reveal_strlit("8");
        reveal_strlit("9");
    }
    let t = if d == 0 {
        "0"
    } else if d == 1 {
        "1"
    } else if d == 2 {
        "2"
    } else if d == 3 {
        "3"
    } else if d == 4 {
        "4"
    } else if d == 5 {
        "5"
    } else if d == 6 {
        "6"
    } else if d == 7 {
        "7"
    } else if d == 8 {
        "8"
    } else {
        "9"
    };
    assert(t@ =~= seq![digit_char(d as nat)]);
    t
}

/// Appends the decimal form of `n` to `out`.
pub fn push_decimal(out: &mut String, n: u16)
    ensures
        final(out)@ == old(out)@ + decimal(n as nat),
    decreases n,
{
    if n >= 10 {
        push_decimal(out, n / 10);
    }
    out.append(digit_text(n % 10));
    assert(final(out)@ == old(out)@ + decimal(n as nat)) by {
        if n >= 10 {
            assert(old(out)@ + decimal(n as nat / 10) + seq![digit_char(n as nat % 10)] == old(
                out,
            )@ + decimal(n as nat));
        }
    }
}

} // verus!
