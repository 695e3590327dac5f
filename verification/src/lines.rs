//! The release list: one program per line, its name and then its versions,
//! separated by commas.

use crate::error::{Fault, ReleaseError};
use crate::program::{Program, ProgramView};
use crate::text::{chars_of, cuts, lemma_split_join, split_on, split_spans, Span};
use crate::version::{parse_version, version_in, Version};
use vstd::prelude::*;
use vstd::string::StrSliceExecFns;

verus! {

/// The versions that `fields` denote, in order, or the first field that
/// denotes none.
pub open spec fn history_of(fields: Seq<Seq<char>>) -> Result<Seq<Version>, Seq<char>>
    decreases fields.len(),
{
    if fields.len() == 0 {
        Ok(Seq::empty())
    } else {
        match parse_version(fields[0]) {
            None => Err(fields[0]),
            Some(version) => match history_of(fields.drop_first()) {
                Ok(rest) => Ok(seq![version] + rest),
                Err(token) => Err(token),
            },
        }
    }
}

/// The program that a line denotes. The first comma-separated field is the
/// name, taken as it stands; each further field is a version. A line without
/// a comma is a program without releases.
pub open spec fn record_of(line: Seq<char>, number: nat) -> Result<ProgramView, Fault> {
    let fields = split_on(line, ',');
    match history_of(fields.drop_first()) {
        Ok(release_history) => Ok(ProgramView { name: fields[0], release_history }),
        Err(token) => Err(Fault::MalformedVersion { line: number, token }),
    }
}

/// Reads one line of the release list. `number` is the line's number,
/// counted from one, and is reported with a malformed version.
pub fn parse_line(line: &str, number: usize) -> (r: Result<Program, ReleaseError>)
    ensures
        match r {
            Ok(program) => record_of(line@, number as nat) == Ok::<ProgramView, Fault>(program@),
            Err(error) => record_of(line@, number as nat) == Err::<ProgramView, Fault>(error@),
        },
{
    let chars = chars_of(line);
    let n = chars.len();
    assert(chars@.subrange(0, n as int) == line@);
    let spans = split_spans(&chars, 0, n, ',');
    let ghost fields = split_on(line@, ',');
    assert(spans@.len() == fields.len());
    proof {
        lemma_split_join(line@, ',');
    }
    let name = line.substring_char(spans[0].start, spans[0].end).to_owned();
    assert(name@ == fields[0]) by {
        assert(fields[0] == spans[0].cut(chars@));
    }
    let ghost rest = fields.drop_first();
    let mut release_history: Vec<Version> = Vec::new();
    let mut k: usize = 1;
    assert(rest.skip(0) == rest);
    while k < spans.len()
        invariant
            1 <= k <= spans.len(),
            n == chars.len(),
            chars@ == line@,
            fields == split_on(line@, ','),
            cuts(spans@, chars@) == fields,
            rest == fields.drop_first(),
            forall|j: int| 0 <= j < spans.len() ==> (#[trigger] spans[j]).within(0, n as int),
            history_of(rest) == match history_of(rest.skip(k - 1)) {
                Ok(later) => Ok::<Seq<Version>, Seq<char>>(release_history@ + later),
                Err(token) => Err(token),
            },
        decreases spans.len() - k,
    {
        let span = spans[k];
        let ghost field = rest.skip(k - 1)[0];
        proof {
            assert(field == fields[k as int]);
            assert(fields[k as int] == spans[k as int].cut(chars@));
            assert(rest.skip(k - 1).drop_first() == rest.skip(k as int));
        }
        match version_in(&chars, span.start, span.end) {
            Some(version) => {
                let ghost before = release_history@;
                release_history.push(version);
                proof {
                    match history_of(rest.skip(k as int)) {
                        Ok(later) => {
                            assert(before + (seq![version] + later) == release_history@ + later);
                        },
                        Err(_) => {},
                    }
                }
            },
            None => {
                let token = line.substring_char(span.start, span.end).to_owned();
                return Err(ReleaseError::MalformedVersion { line: number, token });
            },
        }
        k = k + 1;
    }
    assert(rest.skip(k - 1) == Seq::<Seq<char>>::empty());
    assert(release_history@ + Seq::<Version>::empty() == release_history@);
    Ok(Program { name, release_history })
}

/// A line without the carriage return that may end it.
pub open spec fn strip_cr(line: Seq<char>) -> Seq<char> {
    if line.len() > 0 && line.last() == '\r' {
        line.drop_last()
    } else {
        line
    }
}

/// The lines of a text. A line ends at a line feed; a carriage return right
/// before that line feed belongs to the line ending. What follows the last
/// line feed is a line too, taken as it stands.
pub open spec fn lines_of(text: Seq<char>) -> Seq<Seq<char>> {
    let pieces = split_on(text, '\n');
    Seq::new(
        pieces.len(),
        |i: int|
            if i + 1 < pieces.len() {
                strip_cr(pieces[i])
            } else {
                pieces[i]
            },
    )
}

/// How many lines are left once the empty lines at the end are set aside.
pub open spec fn record_count(lines: Seq<Seq<char>>) -> nat
    decreases lines.len(),
{
    if lines.len() == 0 {
        0
    } else if lines.last().len() > 0 {
        lines.len()
    } else {
        record_count(lines.drop_last())
    }
}

/// The lines of a text that hold records: all of them but the empty lines at
/// the end. An empty line before a non-empty one is a record.
pub open spec fn records_of(text: Seq<char>) -> Seq<Seq<char>> {
    let lines = lines_of(text);
    lines.take(record_count(lines) as int)
}

/// The programs that `records` denote, the first of them standing on line
/// `first`, or the failure of the first record that denotes none.
pub open spec fn programs_of(records: Seq<Seq<char>>, first: nat) -> Result<
    Seq<ProgramView>,
    Fault,
>
    decreases records.len(),
{
    if records.len() == 0 {
        Ok(Seq::empty())
    } else {
        match record_of(records[0], first) {
            Err(fault) => Err(fault),
            Ok(program) => match programs_of(records.drop_first(), first + 1) {
                Ok(rest) => Ok(seq![program] + rest),
                Err(fault) => Err(fault),
            },
        }
    }
}

/// The collection that a release list denotes: one program per record, in
/// order, lines counted from one.
pub open spec fn releases_of(text: Seq<char>) -> Result<Seq<ProgramView>, Fault> {
    programs_of(records_of(text), 1)
}

/// The lines of `chars`, as spans.
fn line_spans(chars: &Vec<char>) -> (lines: Vec<Span>)
    ensures
        cuts(lines@, chars@) == lines_of(chars@),
        forall|j: int| 0 <= j < lines.len() ==> (#[trigger] lines[j]).within(0, chars.len() as int),
{
    let n = chars.len();
    assert(chars@.subrange(0, n as int) == chars@);
    let pieces = split_spans(chars, 0, n, '\n');
    let ghost fields = split_on(chars@, '\n');
    assert(pieces@.len() == fields.len());
    let mut lines: Vec<Span> = Vec::new();
    let mut i: usize = 0;
    while i < pieces.len()
        invariant
            i <= pieces.len(),
            n == chars.len(),
            lines.len() == i,
            cuts(pieces@, chars@) == fields,
            fields == split_on(chars@, '\n'),
            forall|j: int| 0 <= j < pieces.len() ==> (#[trigger] pieces[j]).within(0, n as int),
            forall|j: int| 0 <= j < lines.len() ==> (#[trigger] lines[j]).within(0, n as int),
            forall|j: int| 0 <= j < i ==> (#[trigger] lines[j]).cut(chars@) == lines_of(chars@)[j],
        decreases pieces.len() - i,
    {
        let piece = pieces[i];
        assert(fields[i as int] == pieces[i as int].cut(chars@));
        let line = if i + 1 < pieces.len() && piece.start < piece.end && chars[piece.end - 1]
            == '\r' {
            assert(piece.cut(chars@).last() == '\r');
            assert(piece.cut(chars@).drop_last() == chars@.subrange(
                piece.start as int,
                piece.end - 1,
            ));
            Span { start: piece.start, end: piece.end - 1 }
        } else {
            if piece.start < piece.end {
                assert(piece.cut(chars@).last() == chars@[piece.end - 1]);
            }
            piece
        };
        lines.push(line);
        i = i + 1;
    }
    assert(cuts(lines@, chars@) =~= lines_of(chars@));
    lines
}

/// How many of `lines` are records.
fn count_records(lines: &Vec<Span>, Ghost(chars): Ghost<Seq<char>>) -> (count: usize)
    requires
        forall|j: int| 0 <= j < lines.len() ==> (#[trigger] lines[j]).within(0, chars.len() as int),
    ensures
        count == record_count(cuts(lines@, chars)),
        count <= lines.len(),
{
    let mut count: usize = lines.len();
    let ghost all = cuts(lines@, chars);
    assert(all.take(count as int) == all);
    while count > 0 && lines[count - 1].start == lines[count - 1].end
        invariant
            count <= lines.len(),
            all == cuts(lines@, chars),
            forall|j: int| 0 <= j < lines.len() ==> (#[trigger] lines[j]).within(0, chars.len() as int),
            record_count(all) == record_count(all.take(count as int)),
        decreases count,
    {
        proof {
            let shown = all.take(count as int);
            assert(shown.last() == lines[count - 1].cut(chars));
            assert(shown.drop_last() == all.take(count - 1));
        }
        count = count - 1;
    }
    proof {
        let shown = all.take(count as int);
        if count > 0 {
            assert(shown.last() == lines[count - 1].cut(chars));
        }
    }
    count
}

/// Reads a release list. The first malformed version ends the reading and is
/// reported with its line; empty lines at the end of the text are no records.
pub fn parse_releases(text: &str) -> (r: Result<Vec<Program>, ReleaseError>)
    ensures
        match r {
            Ok(programs) => releases_of(text@) == Ok::<Seq<ProgramView>, Fault>(
                programs.deep_view(),
            ),
            Err(error) => releases_of(text@) == Err::<Seq<ProgramView>, Fault>(error@),
        },
{
    let chars = chars_of(text);
    let lines = line_spans(&chars);
    let count = count_records(&lines, Ghost(chars@));
    let ghost records = records_of(text@);
    let mut programs: Vec<Program> = Vec::new();
    let mut i: usize = 0;
    assert(records.skip(0) == records);
    assert(programs.deep_view() == Seq::<ProgramView>::empty());
    while i < count
        invariant
            i <= count <= lines.len(),
            chars@ == text@,
            records == records_of(text@),
            records == cuts(lines@, chars@).take(count as int),
            forall|j: int| 0 <= j < lines.len() ==> (#[trigger] lines[j]).within(0, chars.len() as int),
            releases_of(text@) == match programs_of(records.skip(i as int), i as nat + 1) {
                Ok(later) => Ok::<Seq<ProgramView>, Fault>(programs.deep_view() + later),
                Err(fault) => Err(fault),
            },
        decreases count - i,
    {
        let span = lines[i];
        let line = text.substring_char(span.start, span.end);
        proof {
            assert(records.skip(i as int)[0] == line@);
            assert(records.skip(i as int).drop_first() == records.skip(i + 1));
        }
        match parse_line(line, i + 1) {
            Ok(program) => {
                let ghost before = programs.deep_view();
                let ghost added = program@;
                programs.push(program);
                proof {
                    assert(programs.deep_view() == before.push(added));
                    match programs_of(records.skip(i + 1), i as nat + 2) {
                        Ok(later) => {
                            assert(before + (seq![added] + later) == programs.deep_view() + later);
                        },
                        Err(_) => {},
                    }
                }
            },
            Err(error) => {
                return Err(error);
            },
        }
        i = i + 1;
    }
    assert(records.skip(count as int) == Seq::<Seq<char>>::empty());
    assert(programs.deep_view() + Seq::<ProgramView>::empty() == programs.deep_view());
    Ok(programs)
}

/// A release history fails only on a field that denotes no version, and
/// gives that field as it stands.
pub proof fn lemma_history_fault(fields: Seq<Seq<char>>)
    ensures
        history_of(fields) matches Err(token) ==> fields.contains(token) && parse_version(token)
            is None,
        history_of(fields) matches Ok(history) ==> history.len() == fields.len(),
    decreases fields.len(),
{
    if fields.len() > 0 {
        let rest = fields.drop_first();
        lemma_history_fault(rest);
        if parse_version(fields[0]) is Some {
            if let Err(token) = history_of(rest) {
                let i = choose|i: int| 0 <= i < rest.len() && rest[i] == token;
                assert(fields[i + 1] == token);
            }
        }
    }
}

/// Reading a release list fails in one way only: with a malformed version,
/// reported with the number of a record's line and with a token that denotes
/// no version. A release list never gives a malformed record.
pub proof fn lemma_release_fault(text: Seq<char>)
    ensures
        releases_of(text) matches Err(fault) ==> (fault matches Fault::MalformedVersion {
            line,
            token,
        } && 1 <= line <= records_of(text).len() && parse_version(token) is None),
{
    lemma_programs_fault(records_of(text), 1);
}

/// The same of records that start at line `first`.
pub proof fn lemma_programs_fault(records: Seq<Seq<char>>, first: nat)
    ensures
        programs_of(records, first) matches Err(fault) ==> (fault matches Fault::MalformedVersion {
            line,
            token,
        } && first <= line < first + records.len() && parse_version(token) is None),
        programs_of(records, first) matches Ok(programs) ==> programs.len() == records.len(),
    decreases records.len(),
{
    if records.len() > 0 {
        lemma_history_fault(split_on(records[0], ',').drop_first());
        lemma_programs_fault(records.drop_first(), first + 1);
    }
}

} // verus!
