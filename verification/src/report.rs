//! The report: for each program a ruled header, then its versions, one per
//! line.

use crate::program::{Program, ProgramView};
use crate::version::Version;
use vstd::prelude::*;
use vstd::string::{StrSliceExecFns, StringExecFns};

verus! {

/// The header line of a program.
pub open spec fn header_of(name: Seq<char>) -> Seq<char> {
    "Program "@ + name + " release history"@
}

/// A rule: `length` dashes.
pub open spec fn rule_of(length: nat) -> Seq<char> {
    Seq::new(length, |i: int| '-')
}

/// The textual forms of the versions of `history`, in order.
pub open spec fn version_texts(history: Seq<Version>) -> Seq<Seq<char>> {
    Seq::new(history.len(), |i: int| history[i].text())
}

/// The lines that report one program: a rule as long as the header, the
/// header, the same rule again, then one line for each version.
pub open spec fn block_of(program: ProgramView) -> Seq<Seq<char>> {
    let header = header_of(program.name);
    let rule = rule_of(header.len());
    seq![rule, header, rule] + version_texts(program.release_history)
}

/// The lines of the report of a collection: the blocks of its programs, in
/// order. An empty collection has no lines.
pub open spec fn report_lines(collection: Seq<ProgramView>) -> Seq<Seq<char>>
    decreases collection.len(),
{
    if collection.len() == 0 {
        Seq::empty()
    } else {
        report_lines(collection.drop_last()) + block_of(collection.last())
    }
}

/// The text of `lines`, each ended by a line feed.
pub open spec fn unlines(lines: Seq<Seq<char>>) -> Seq<char>
    decreases lines.len(),
{
    if lines.len() == 0 {
        Seq::empty()
    } else {
        unlines(lines.drop_last()) + lines.last() + seq!['\n']
    }
}

/// The report of a collection, as one text.
pub open spec fn report_of(collection: Seq<ProgramView>) -> Seq<char> {
    unlines(report_lines(collection))
}

/// Appends `line` and a line feed to `out`.
fn push_line(out: &mut String, line: &str, Ghost(lines): Ghost<Seq<Seq<char>>>)
    requires
        old(out)@ == unlines(lines),
    ensures
        final(out)@ == unlines(lines.push(line@)),
{
    out.append(line);
    out.append("\n");
    proof {
        reveal_strlit("\n");
        assert("\n"@ == seq!['\n']);
        assert(lines.push(line@).drop_last() == lines);
    }
}

/// Writes the header line of the program called `name`.
fn header_text(name: &str) -> (header: String)
    ensures
        header@ == header_of(name@),
{
    let mut header = String::from_str("Program ");
    header.append(name);
    header.append(" release history");
    header
}

/// Writes a rule of `length` dashes.
fn rule_text(length: usize) -> (rule: String)
    ensures
        rule@ == rule_of(length as nat),
{
    let mut rule = String::new();
    let mut i: usize = 0;
    while i < length
        invariant
            i <= length,
            rule@ == rule_of(i as nat),
        decreases length - i,
    {
        rule.append("-");
        i = i + 1;
        proof {
            reveal_strlit("-");
            assert(rule@ == rule_of(i as nat));
        }
    }
    rule
}

/// Renders the report of `collection`.
pub fn render(collection: &Vec<Program>) -> (report: String)
    ensures
        report@ == report_of(collection.deep_view()),
{
    let mut report = String::new();
    let ghost all = collection.deep_view();
    let ghost mut lines = Seq::<Seq<char>>::empty();
    let mut i: usize = 0;
    assert(all.take(0) == Seq::<ProgramView>::empty());
    while i < collection.len()
        invariant
            i <= collection.len(),
            all == collection.deep_view(),
            report@ == unlines(lines),
            lines == report_lines(all.take(i as int)),
        decreases collection.len() - i,
    {
        let program = &collection[i];
        let ghost before = lines;
        let header = header_text(program.name.as_str());
        let rule = rule_text(header.as_str().unicode_len());
        push_line(&mut report, rule.as_str(), Ghost(lines));
        proof {
            lines = lines.push(rule@);
        }
        push_line(&mut report, header.as_str(), Ghost(lines));
        proof {
            lines = lines.push(header@);
        }
        push_line(&mut report, rule.as_str(), Ghost(lines));
        proof {
            lines = lines.push(rule@);
        }
        let history = &program.release_history;
        let mut k: usize = 0;
        assert(lines == before + seq![rule@, header@, rule@] + version_texts(history@.take(0)));
        while k < history.len()
            invariant
                k <= history.len(),
                report@ == unlines(lines),
                lines == before + seq![rule@, header@, rule@] + version_texts(
                    history@.take(k as int),
                ),
            decreases history.len() - k,
        {
            let text = history[k].to_text();
            push_line(&mut report, text.as_str(), Ghost(lines));
            proof {
                lines = lines.push(text@);
                assert(version_texts(history@.take(k + 1)) == version_texts(
                    history@.take(k as int),
                ).push(text@));
            }
            k = k + 1;
        }
        proof {
            assert(history@.take(k as int) == history@);
            assert(all.take(i + 1).drop_last() == all.take(i as int));
            assert(all.take(i + 1).last() == program@);
            assert(lines == before + block_of(program@));
        }
        i = i + 1;
    }
    assert(all.take(i as int) == all);
    report
}

} // verus!
