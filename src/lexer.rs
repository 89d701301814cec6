//! The line reader: turns the text into `key=value` records, one per line.

use crate::error::{Error, ErrorView};
use crate::text::{find, find_char, slice_of, string_of};
use vstd::prelude::*;

verus! {

/// The first position at or after `pos` that is not a line break.
pub open spec fn skip_breaks(text: Seq<char>, pos: int) -> int
    decreases text.len() - pos,
{
    if pos >= text.len() || (text[pos] != '\r' && text[pos] != '\n') {
        pos
    } else {
        skip_breaks(text, pos + 1)
    }
}

/// The position of the `\n` that ends the line holding `pos`, or the end of
/// the text.
pub open spec fn line_end(text: Seq<char>, pos: int) -> int
    decreases text.len() - pos,
{
    if pos >= text.len() || text[pos] == '\n' {
        pos
    } else {
        line_end(text, pos + 1)
    }
}

/// `v` without the carriage returns at its end.
pub open spec fn trim_cr(v: Seq<char>) -> Seq<char>
    decreases v.len(),
{
    if v.len() > 0 && v.last() == '\r' {
        trim_cr(v.drop_last())
    } else {
        v
    }
}

/// One step of the reader over the text.
pub enum RecordView {
    /// Nothing but line breaks is left.
    Eof,
    /// A line: its key up to and including the first `=`, the rest of the
    /// line without trailing carriage returns, and where reading goes on.
    Field { key: Seq<char>, value: Seq<char>, next: int },
}

/// What the reader finds at `pos`: blank lines are skipped; a line with no
/// `=` is a syntax error carrying the line.
pub open spec fn read_record_spec(text: Seq<char>, pos: int) -> Result<RecordView, ErrorView> {
    let start = skip_breaks(text, pos);
    if start >= text.len() {
        Ok(RecordView::Eof)
    } else {
        let end = line_end(text, start);
        let line = text.subrange(start, end);
        match find_char(line, '=') {
            None => Err(ErrorView::SdpInvalidSyntax(trim_cr(line))),
            Some(i) => Ok(
                RecordView::Field { key: line.take(i + 1), value: trim_cr(line.skip(i + 1)), next: end },
            ),
        }
    }
}

pub proof fn lemma_skip_breaks(text: Seq<char>, pos: int)
    requires
        0 <= pos <= text.len(),
    ensures
        pos <= skip_breaks(text, pos) <= text.len(),
        skip_breaks(text, pos) < text.len() ==> text[skip_breaks(text, pos)] != '\r'
            && text[skip_breaks(text, pos)] != '\n',
    decreases text.len() - pos,
{
    if pos < text.len() && (text[pos] == '\r' || text[pos] == '\n') {
        lemma_skip_breaks(text, pos + 1);
    }
}

pub proof fn lemma_line_end(text: Seq<char>, pos: int)
    requires
        0 <= pos <= text.len(),
    ensures
        pos <= line_end(text, pos) <= text.len(),
        forall|j: int| pos <= j < line_end(text, pos) ==> text[j] != '\n',
    decreases text.len() - pos,
{
    if pos < text.len() && text[pos] != '\n' {
        lemma_line_end(text, pos + 1);
    }
}

pub proof fn lemma_find_char_bound(s: Seq<char>, d: char)
    ensures
        find_char(s, d) matches Some(i) ==> 0 <= i < s.len() && s[i] == d,
    decreases s.len(),
{
    if s.len() > 0 {
        lemma_find_char_bound(s.drop_last(), d);
    }
}

/// Each record read moves forward and stays within the text.
pub proof fn lemma_record_advances(text: Seq<char>, pos: int)
    requires
        0 <= pos <= text.len(),
    ensures
        read_record_spec(text, pos) matches Ok(RecordView::Field { next, .. }) ==> pos < next
            <= text.len(),
{
    lemma_skip_breaks(text, pos);
    let start = skip_breaks(text, pos);
    if start < text.len() {
        lemma_line_end(text, start + 1);
    }
}

/// A record read from the text, in executable form.
pub enum Record {
    Eof,
    Field { key: Vec<char>, value: Vec<char>, next: usize },
}

pub open spec fn record_matches(r: Record, s: RecordView) -> bool {
    match (r, s) {
        (Record::Eof, RecordView::Eof) => true,
        (
            Record::Field { key, value, next },
            RecordView::Field { key: k, value: v, next: n },
        ) => key@ == k && value@ == v && next as int == n,
        _ => false,
    }
}

/// Reads the record at `pos`.
pub fn read_record(text: &Vec<char>, pos: usize) -> (r: Result<Record, Error>)
    requires
        pos <= text.len(),
    ensures
        match read_record_spec(text@, pos as int) {
            Ok(s) => r matches Ok(rec) && record_matches(rec, s),
            Err(e) => r matches Err(x) && x@ == e,
        },
        r matches Ok(Record::Field { next, .. }) ==> pos < next <= text.len(),
{
    let mut start = pos;
    while start < text.len() && (text[start] == '\r' || text[start] == '\n')
        invariant
            pos <= start <= text.len(),
            skip_breaks(text@, start as int) == skip_breaks(text@, pos as int),
        decreases text.len() - start,
    {
        start = start + 1;
    }
    assert(skip_breaks(text@, start as int) == start as int);
    if start >= text.len() {
        return Ok(Record::Eof);
    }
    let mut end = start;
    while end < text.len() && text[end] != '\n'
        invariant
            start <= end <= text.len(),
            line_end(text@, end as int) == line_end(text@, start as int),
            start < text.len(),
            text@[start as int] != '\n',
        decreases text.len() - end,
    {
        end = end + 1;
    }
    assert(line_end(text@, end as int) == end as int);
    let line = slice_of(text, start, end);
    proof {
        lemma_find_char_bound(line@, '=');
    }
    match find(&line, '=') {
        None => {
            let t = tail_without_cr(&line, 0);
            assert(line@.skip(0) =~= line@);
            Err(Error::SdpInvalidSyntax(string_of(&t)))
        },
        Some(i) => {
            let key = slice_of(&line, 0, i + 1);
            let value = tail_without_cr(&line, i + 1);
            assert(key@ =~= line@.take(i + 1));
            Ok(Record::Field { key, value, next: end })
        },
    }
}

/// The characters of `line` from `from` on, without trailing carriage returns.
fn tail_without_cr(line: &Vec<char>, from: usize) -> (r: Vec<char>)
    requires
        from <= line.len(),
    ensures
        r@ == trim_cr(line@.skip(from as int)),
{
    let mut k = line.len();
    while k > from && line[k - 1] == '\r'
        invariant
            from <= k <= line.len(),
            trim_cr(line@.skip(from as int)) == trim_cr(line@.subrange(from as int, k as int)),
        decreases k,
    {
        assert(line@.subrange(from as int, k as int).drop_last() =~= line@.subrange(
            from as int,
            k - 1,
        ));
        k = k - 1;
    }
    assert(line@.skip(from as int) =~= line@.subrange(from as int, line@.len() as int));
    slice_of(line, from, k)
}

} // verus!
