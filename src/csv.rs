//! CSV rendering: every field quoted, embedded quotes doubled.

use crate::strings::{join_with, joined, push_char, texts};
use vstd::prelude::*;

verus! {

/// The field's characters with each double quote written twice.
pub open spec fn escaped(s: Seq<char>) -> Seq<char>
    decreases s.len(),
{
    if s.len() == 0 {
        Seq::empty()
    } else if s.last() == '"' {
        escaped(s.drop_last()) + seq!['"', '"']
    } else {
        escaped(s.drop_last()).push(s.last())
    }
}

/// A field as it stands in a CSV line: quoted, with quotes doubled inside.
pub open spec fn quoted(s: Seq<char>) -> Seq<char> {
    seq!['"'] + escaped(s) + seq!['"']
}

/// One CSV line (without its line end) for a row of fields.
pub open spec fn line_of(fields: Seq<Seq<char>>) -> Seq<char> {
    joined(fields.map_values(|f: Seq<char>| quoted(f)), seq![','])
}

/// A CSV document: each row's line followed by a newline, in order.
pub open spec fn document_of(rows: Seq<Seq<Seq<char>>>) -> Seq<char>
    decreases rows.len(),
{
    if rows.len() == 0 {
        Seq::empty()
    } else {
        document_of(rows.drop_last()) + line_of(rows.last()) + seq!['\n']
    }
}

/// The character sequences of each row of a table of strings.
pub open spec fn table_texts(rows: Seq<Vec<String>>) -> Seq<Seq<Seq<char>>> {
    rows.map_values(|r: Vec<String>| texts(r@))
}

/// Quotes one field: `he said "hi"` becomes `"he said ""hi"""`.
pub fn csv_field(value: &str) -> (r: String)
    ensures
        r@ == quoted(value@),
{
    let n = value.unicode_len();
    let mut out = String::new();
    push_char(&mut out, '"');
    let mut i: usize = 0;
    while i < n
        invariant
            n == value@.len(),
            i <= n,
            out@ == seq!['"'] + escaped(value@.take(i as int)),
        decreases n - i,
    {
        let c = value.get_char(i);
        assert(value@.take(i + 1).drop_last() =~= value@.take(i as int));
        if c == '"' {
            push_char(&mut out, '"');
            push_char(&mut out, '"');
            assert(out@ =~= seq!['"'] + escaped(value@.take(i + 1)));
        } else {
            push_char(&mut out, c);
            assert(out@ =~= seq!['"'] + escaped(value@.take(i + 1)));
        }
        i = i + 1;
    }
    assert(value@.take(n as int) =~= value@);
    push_char(&mut out, '"');
    assert(out@ =~= quoted(value@));
    out
}

/// One CSV line for a row of fields, without its line end. No fields give
/// an empty line.
pub fn csv_line(fields: &Vec<String>) -> (r: String)
    ensures
        r@ == line_of(texts(fields@)),
{
    let mut quoted_fields: Vec<String> = Vec::new();
    let mut i: usize = 0;
    while i < fields.len()
        invariant
            i <= fields.len(),
            quoted_fields@.len() == i,
            forall|k: int| 0 <= k < i ==> #[trigger] quoted_fields@[k]@ == quoted(fields@[k]@),
        decreases fields.len() - i,
    {
        let q = csv_field(fields[i].as_str());
        quoted_fields.push(q);
        i = i + 1;
    }
    let r = join_with(&quoted_fields, ",");
    proof {
        reveal_strlit(",");
        assert(","@ =~= seq![',']);
        assert(texts(quoted_fields@) =~= texts(fields@).map_values(|f: Seq<char>| quoted(f)));
    }
    r
}

/// The CSV document for a header row followed by data rows, each line
/// ended by a newline.
pub fn csv_document(header: &Vec<String>, rows: &Vec<Vec<String>>) -> (r: String)
    ensures
        r@ == document_of(seq![texts(header@)] + table_texts(rows@)),
{
    let mut out = csv_line(header);
    push_char(&mut out, '\n');
    let ghost all = seq![texts(header@)] + table_texts(rows@);
    proof {
        assert(all.take(1).drop_last() =~= Seq::<Seq<Seq<char>>>::empty());
        assert(all.take(1).last() == texts(header@));
        assert(document_of(Seq::<Seq<Seq<char>>>::empty()) =~= Seq::<char>::empty());
        assert(out@ =~= document_of(all.take(1)));
    }
    let mut i: usize = 0;
    while i < rows.len()
        invariant
            i <= rows.len(),
            all == seq![texts(header@)] + table_texts(rows@),
            out@ == document_of(all.take(i + 1)),
        decreases rows.len() - i,
    {
        let line = csv_line(&rows[i]);
        out.append(line.as_str());
        push_char(&mut out, '\n');
        proof {
            assert(all.take(i + 2).drop_last() =~= all.take(i + 1));
            assert(all.take(i + 2).last() == texts(rows@[i as int]@));
            assert(out@ =~= document_of(all.take(i + 2)));
        }
        i = i + 1;
    }
    assert(all.take(rows.len() + 1) =~= all);
    out
}

/// A row of no fields is an empty line: a table with no header cells and no
/// data rows renders as a single newline.
pub proof fn lemma_empty_table_is_one_empty_line()
    ensures
        document_of(seq![Seq::<Seq<char>>::empty()]) == seq!['\n'],
{
    let rows = seq![Seq::<Seq<char>>::empty()];
    assert(rows.drop_last() =~= Seq::<Seq<Seq<char>>>::empty());
    assert(Seq::<Seq<char>>::empty().map_values(|f: Seq<char>| quoted(f)) =~= Seq::<
        Seq<char>,
    >::empty());
    assert(line_of(rows.last()) =~= Seq::<char>::empty());
    assert(document_of(Seq::<Seq<Seq<char>>>::empty()) =~= Seq::<char>::empty());
    assert(document_of(rows) =~= seq!['\n']);
}

} // verus!
