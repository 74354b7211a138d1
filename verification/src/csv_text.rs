//! CSV records as the `csv` crate writes them with its default quoting
//! (quote only where needed), `,` as delimiter and CRLF as terminator.

use vstd::prelude::*;

verus! {

/// Characters that force a field into quotes.
pub open spec fn csv_special(c: char) -> bool {
    c == ',' || c == '"' || c == '\r' || c == '\n'
}

/// A field needs quotes when it holds a delimiter, a quote or a line break.
pub open spec fn csv_needs_quotes(f: Seq<char>) -> bool {
    exists|i: int| 0 <= i < f.len() && csv_special(#[trigger] f[i])
}

/// The field text with every quote doubled.
pub open spec fn csv_escape(f: Seq<char>) -> Seq<char>
    decreases f.len(),
{
    if f.len() == 0 {
        Seq::empty()
    } else if f.last() == '"' {
        csv_escape(f.drop_last()) + seq!['"', '"']
    } else {
        csv_escape(f.drop_last()).push(f.last())
    }
}

/// One field as it appears in a record.
pub open spec fn csv_field(f: Seq<char>) -> Seq<char> {
    if csv_needs_quotes(f) {
        seq!['"'] + csv_escape(f) + seq!['"']
    } else {
        f
    }
}

/// Fields joined by commas.
pub open spec fn csv_join(fields: Seq<Seq<char>>) -> Seq<char>
    decreases fields.len(),
{
    if fields.len() == 0 {
        Seq::empty()
    } else if fields.len() == 1 {
        csv_field(fields[0])
    } else {
        csv_join(fields.drop_last()) + seq![','] + csv_field(fields.last())
    }
}

/// A whole record with its terminator. A record that would otherwise be
/// empty is written as a single quoted empty field.
pub open spec fn csv_line(fields: Seq<Seq<char>>) -> Seq<char> {
    let body = csv_join(fields);
    (if body.len() == 0 { seq!['"', '"'] } else { body }) + seq!['\r', '\n']
}

/// Consecutive records.
pub open spec fn csv_lines(rows: Seq<Seq<Seq<char>>>) -> Seq<char>
    decreases rows.len(),
{
    if rows.len() == 0 {
        Seq::empty()
    } else {
        csv_lines(rows.drop_last()) + csv_line(rows.last())
    }
}

/// A quoted field's text read back: each doubled quote stands for one.
pub open spec fn undouble_quotes(t: Seq<char>) -> Seq<char>
    decreases t.len(),
{
    if t.len() == 0 {
        Seq::empty()
    } else if t.len() >= 2 && t.last() == '"' && t[t.len() - 2] == '"' {
        undouble_quotes(t.subrange(0, t.len() - 2)).push('"')
    } else {
        undouble_quotes(t.drop_last()).push(t.last())
    }
}

/// Escaping doubles each quote and nothing else: reading the escaped text
/// back gives the field.
pub proof fn lemma_escape_reads_back(f: Seq<char>)
    ensures
        undouble_quotes(csv_escape(f)) == f,
        csv_escape(f).len() >= f.len(),
    decreases f.len(),
{
    if f.len() > 0 {
        lemma_escape_reads_back(f.drop_last());
        let e = csv_escape(f.drop_last());
        let t = csv_escape(f);
        if f.last() == '"' {
            assert(t == e + seq!['"', '"']);
            assert(t.subrange(0, t.len() - 2) =~= e);
        } else {
            assert(t == e.push(f.last()));
            assert(t.drop_last() =~= e);
        }
        assert(f.drop_last().push(f.last()) =~= f);
    }
}

/// A field is written as it is unless it holds a comma, a quote, a
/// carriage return or a line feed; then it is written between quotes, and
/// reading the text between them back gives the field.
pub proof fn lemma_field_quoted_only_when_needed(f: Seq<char>)
    ensures
        !(exists|i: int| 0 <= i < f.len() && (f[i] == ',' || f[i] == '"' || f[i] == '\r' || f[i] == '\n'))
            ==> csv_field(f) == f,
        (exists|i: int| 0 <= i < f.len() && (f[i] == ',' || f[i] == '"' || f[i] == '\r' || f[i] == '\n')) ==> {
            let t = csv_field(f);
            &&& t.len() >= 2
            &&& t[0] == '"'
            &&& t.last() == '"'
            &&& undouble_quotes(t.subrange(1, t.len() - 1)) == f
        },
{
    lemma_escape_reads_back(f);
    if exists|i: int| 0 <= i < f.len() && (f[i] == ',' || f[i] == '"' || f[i] == '\r' || f[i] == '\n') {
        let i = choose|i: int| 0 <= i < f.len() && (f[i] == ',' || f[i] == '"' || f[i] == '\r' || f[i] == '\n');
        assert(csv_special(f[i]));
        let t = csv_field(f);
        assert(t.subrange(1, t.len() - 1) =~= csv_escape(f));
    } else {
        if csv_needs_quotes(f) {
            let i = choose|i: int| 0 <= i < f.len() && csv_special(#[trigger] f[i]);
            assert(f[i] == ',' || f[i] == '"' || f[i] == '\r' || f[i] == '\n');
        }
    }
}

/// Every record ends with a carriage return and a line feed.
pub proof fn lemma_line_ends_with_crlf(fields: Seq<Seq<char>>)
    ensures
        csv_line(fields).len() >= 2,
        csv_line(fields)[csv_line(fields).len() - 2] == '\r',
        csv_line(fields).last() == '\n',
{
}

/// Writes one record with a `csv::Writer` built with a CRLF terminator and
/// otherwise default settings, into an in-memory buffer. Writing into a
/// `Vec<u8>` cannot fail, a fresh writer has no earlier record whose length
/// could differ, and the output of UTF-8 fields is UTF-8, so the error arms
/// below are never taken.
#[verifier::external_body]
pub(crate) fn csv_record(fields: &Vec<String>) -> (line: String)
    ensures
        line@ == csv_line(fields.deep_view()),
{
    let mut writer = csv::WriterBuilder::new()
        .terminator(csv::Terminator::CRLF)
        .from_writer(Vec::new());
    let written = writer.write_record(fields.iter());
    match (written, writer.into_inner()) {
        (Ok(()), Ok(bytes)) => String::from_utf8(bytes).unwrap_or_default(),
        _ => String::new(),
    }
}

/// Renders a table: each row becomes one record, in order.
pub fn csv_table(rows: &Vec<Vec<String>>) -> (text: String)
    ensures
        text@ == csv_lines(rows.deep_view()),
{
    let mut text = String::new();
    let mut i: usize = 0;
    while i < rows.len()
        invariant
            i <= rows.len(),
            text@ == csv_lines(rows.deep_view().take(i as int)),
        decreases rows.len() - i,
    {
        let line = csv_record(&rows[i]);
        text.append(line.as_str());
        proof {
            assert(rows.deep_view().take(i + 1).drop_last() =~= rows.deep_view().take(i as int));
        }
        i += 1;
    }
    proof {
        assert(rows.deep_view().take(rows.len() as int) =~= rows.deep_view());
    }
    text
}

} // verus!
