//! Version triples and their textual form `major.minor.patch`.

use crate::text::{
    chars_of, decimal, free_of, is_digit, join, lemma_join_split, lemma_parse_decimal,
    lemma_split_join, number_in, parse_number, push_decimal, split_on, split_spans,
    unsigned_part,
};
use vstd::prelude::*;
use vstd::string::StringExecFns;

verus! {

/// One release: three 16-bit numbers.
#[derive(Clone, Copy, Debug, PartialEq, Eq, Structural)]
pub struct Version {
    pub major: u16,
    pub minor: u16,
    pub patch: u16,
}

/// The failure of reading a version: the token was not three numbers
/// separated by dots. It carries the token as it was given.
#[derive(Debug, PartialEq, Eq)]
pub struct MalformedVersion {
    pub token: String,
}

/// The version that `token` denotes: exactly three dot-separated fields, each
/// of them a 16-bit number. Any other token denotes none.
pub open spec fn parse_version(token: Seq<char>) -> Option<Version> {
    let fields = split_on(token, '.');
    if fields.len() == 3 && parse_number(fields[0]) is Some && parse_number(fields[1]) is Some
        && parse_number(fields[2]) is Some {
        Some(
            Version {
                major: parse_number(fields[0])->0,
                minor: parse_number(fields[1])->0,
                patch: parse_number(fields[2])->0,
            },
        )
    } else {
        None
    }
}

impl Version {
    /// The textual form: the three numbers in decimal, with dots between.
    pub open spec fn text(self) -> Seq<char> {
        decimal(self.major as nat) + seq!['.'] + decimal(self.minor as nat) + seq!['.'] + decimal(
            self.patch as nat,
        )
    }

    /// The version with the given numbers.
    pub fn new(major: u16, minor: u16, patch: u16) -> (version: Version)
        ensures
            version == (Version { major, minor, patch }),
    {
        Version { major, minor, patch }
    }

    /// Reads a version from `token`.
    pub fn parse(token: &str) -> (r: Result<Version, MalformedVersion>)
        ensures
            match r {
                Ok(version) => parse_version(token@) == Some(version),
                Err(error) => parse_version(token@) is None && error.token@ == token@,
            },
    {
        let chars = chars_of(token);
        assert(chars@.subrange(0, chars.len() as int) == token@);
        match version_in(&chars, 0, chars.len()) {
            Some(version) => Ok(version),
            None => Err(MalformedVersion { token: token.to_owned() }),
        }
    }

    /// Writes the version as `major.minor.patch`.
    pub fn to_text(&self) -> (text: String)
        ensures
            text@ == self.text(),
    {
        let mut text = String::new();
        push_decimal(&mut text, self.major);
        text.append(".");
        push_decimal(&mut text, self.minor);
        text.append(".");
        push_decimal(&mut text, self.patch);
        proof {
            reveal_strlit(".");
            assert("."@ == seq!['.']);
            assert(text@ == self.text());
        }
        text
    }
}

impl Default for Version {
    /// The version `1.0.0`.
    fn default() -> (version: Version)
        ensures
            version == (Version { major: 1, minor: 0, patch: 0 }),
    {
        Version { major: 1, minor: 0, patch: 0 }
    }
}

/// Reads the version that stands between `from` and `to`.
pub fn version_in(chars: &Vec<char>, from: usize, to: usize) -> (r: Option<Version>)
    requires
        from <= to <= chars.len(),
    ensures
        r == parse_version(chars@.subrange(from as int, to as int)),
{
    let ghost token = chars@.subrange(from as int, to as int);
    let spans = split_spans(chars, from, to, '.');
    assert(spans@.len() == split_on(token, '.').len());
    if spans.len() != 3 {
        return None;
    }
    proof {
        let fields = split_on(token, '.');
        assert(fields[0] == spans[0].cut(chars@));
        assert(fields[1] == spans[1].cut(chars@));
        assert(fields[2] == spans[2].cut(chars@));
    }
    let major = match number_in(chars, spans[0].start, spans[0].end) {
        Some(n) => n,
        None => return None,
    };
    let minor = match number_in(chars, spans[1].start, spans[1].end) {
        Some(n) => n,
        None => return None,
    };
    let patch = match number_in(chars, spans[2].start, spans[2].end) {
        Some(n) => n,
        None => return None,
    };
    Some(Version { major, minor, patch })
}

/// Three fields with dots between them.
pub open spec fn dotted(a: Seq<char>, b: Seq<char>, c: Seq<char>) -> Seq<char> {
    a + seq!['.'] + b + seq!['.'] + c
}

/// Whether `token` is three 16-bit numbers with dots between them.
pub open spec fn is_three_numbers(token: Seq<char>) -> bool {
    exists|a: Seq<char>, b: Seq<char>, c: Seq<char>|
        #[trigger] dotted(a, b, c) == token && parse_number(a) is Some && parse_number(b) is Some
            && parse_number(c) is Some
}

/// A number token holds no dot.
pub proof fn lemma_number_has_no_dot(s: Seq<char>)
    requires
        parse_number(s) is Some,
    ensures
        free_of(s, '.'),
{
    let digits = unsigned_part(s);
    assert forall|i: int| 0 <= i < s.len() implies #[trigger] s[i] != '.' by {
        if digits.len() == s.len() {
            assert(is_digit(digits[i]));
        } else if i > 0 {
            assert(is_digit(digits[i - 1]));
        }
    }
}

/// Three number tokens with dots between them denote the version of their
/// three numbers.
pub proof fn lemma_parse_dotted(a: Seq<char>, b: Seq<char>, c: Seq<char>)
    requires
        parse_number(a) is Some,
        parse_number(b) is Some,
        parse_number(c) is Some,
    ensures
        parse_version(dotted(a, b, c)) == Some(
            Version {
                major: parse_number(a)->0,
                minor: parse_number(b)->0,
                patch: parse_number(c)->0,
            },
        ),
{
    lemma_number_has_no_dot(a);
    lemma_number_has_no_dot(b);
    lemma_number_has_no_dot(c);
    let fields = seq![a, b, c];
    assert(fields.drop_first() == seq![b, c]);
    assert(seq![b, c].drop_first() == seq![c]);
    assert(join(seq![c], '.') == c);
    assert(join(seq![b, c], '.') == b + seq!['.'] + c);
    assert(join(fields, '.') == dotted(a, b, c));
    lemma_join_split(fields, '.');
}

/// A token denotes a version exactly where it is three 16-bit numbers with
/// dots between them: too few fields, too many, a field that is no number or
/// one that is out of range all make the token malformed.
pub proof fn lemma_parse_version_accepts(token: Seq<char>)
    ensures
        parse_version(token) is Some <==> is_three_numbers(token),
{
    if parse_version(token) is Some {
        let fields = split_on(token, '.');
        lemma_split_join(token, '.');
        assert(fields.drop_first().drop_first() == seq![fields[2]]);
        assert(fields.drop_first()[0] == fields[1]);
        assert(join(fields.drop_first().drop_first(), '.') == fields[2]);
        assert(join(fields.drop_first(), '.') == fields[1] + seq!['.'] + fields[2]);
        assert(join(fields, '.') == dotted(fields[0], fields[1], fields[2]));
    }
    if is_three_numbers(token) {
        let (a, b, c) = choose|a: Seq<char>, b: Seq<char>, c: Seq<char>|
            #[trigger] dotted(a, b, c) == token && parse_number(a) is Some && parse_number(b) is Some
                && parse_number(c) is Some;
        lemma_parse_dotted(a, b, c);
    }
}

/// Reading the textual form of a version gives the version back, so writing
/// what was read from such a text gives the same text again.
pub proof fn lemma_parse_text(version: Version)
    ensures
        parse_version(version.text()) == Some(version),
        parse_version(version.text())->0.text() == version.text(),
{
    lemma_parse_decimal(version.major);
    lemma_parse_decimal(version.minor);
    lemma_parse_decimal(version.patch);
    lemma_parse_dotted(
        decimal(version.major as nat),
        decimal(version.minor as nat),
        decimal(version.patch as nat),
    );
}

} // verus!
