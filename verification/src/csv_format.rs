//! Comma-separated values: reading them, and writing cells that read back as they were.
use vstd::prelude::*;
use vstd::string::*;
use vstd::utf8::encode_utf8;

use crate::crypto::wipe_text;
use crate::text::{chars_of, texts};

verus! {

/// The records of a CSV text, or why it cannot be read.
pub uninterp spec fn csv_records(data: Seq<u8>) -> Result<Seq<Seq<Seq<char>>>, Seq<char>>;

/// Whether a cell must be quoted.
pub open spec fn needs_quotes(cell: Seq<char>) -> bool {
    cell.contains(',') || cell.contains('"') || cell.contains('\n') || cell.contains('\r')
}

/// A text with every double quote doubled.
pub open spec fn doubled(s: Seq<char>) -> Seq<char>
    decreases s.len(),
{
    if s.len() == 0 {
        s
    } else if s.last() == '"' {
        doubled(s.drop_last()) + seq!['"', '"']
    } else {
        doubled(s.drop_last()).push(s.last())
    }
}

/// A cell as it is written.
pub open spec fn cell_text(cell: Seq<char>) -> Seq<char> {
    if needs_quotes(cell) {
        seq!['"'] + doubled(cell) + seq!['"']
    } else {
        cell
    }
}

/// A row as it is written, without its line end.
pub open spec fn row_text(row: Seq<Seq<char>>) -> Seq<char>
    decreases row.len(),
{
    if row.len() == 0 {
        Seq::empty()
    } else if row.len() == 1 {
        cell_text(row[0])
    } else {
        row_text(row.drop_last()) + seq![','] + cell_text(row.last())
    }
}

/// A table as it is written.
pub open spec fn csv_text(rows: Seq<Seq<Seq<char>>>) -> Seq<char>
    decreases rows.len(),
{
    if rows.len() == 0 {
        Seq::empty()
    } else {
        csv_text(rows.drop_last()) + row_text(rows.last()) + seq!['\n']
    }
}

/// Whether a written table reads back: no row is a blank line, and the text does not begin with
/// a byte order mark.
pub open spec fn reads_back(rows: Seq<Seq<Seq<char>>>) -> bool {
    &&& forall|i: int| 0 <= i < rows.len() ==> (#[trigger] rows[i]).len() >= 2
    &&& csv_text(rows).len() > 0 ==> csv_text(rows)[0] != '\u{feff}'
}

/// The texts of a list of rows.
pub open spec fn tables(v: Seq<Vec<String>>) -> Seq<Seq<Seq<char>>> {
    Seq::new(v.len(), |i: int| texts(v[i]@))
}

/// What came of reading a table.
pub open spec fn table_outcome(r: Result<Vec<Vec<String>>, String>) -> Result<
    Seq<Seq<Seq<char>>>,
    Seq<char>,
> {
    match r {
        Ok(v) => Ok(tables(v@)),
        Err(e) => Err(e@),
    }
}

/// Whether the result of reading a text is the table that it was written from, if it was.
pub open spec fn comes_back(data: Seq<u8>, r: Result<Seq<Seq<Seq<char>>>, Seq<char>>) -> bool {
    forall|rows: Seq<Seq<Seq<char>>>|
        data == encode_utf8(#[trigger] csv_text(rows)) && reads_back(rows) ==> (r matches Ok(t) && t
            == rows)
}

/// `csv::Reader::records`, of a reader without a header row that takes rows of any length. A
/// table that was written with quotes where they are needed reads back as it was, blank lines
/// and a byte order mark at the start aside.
#[verifier::external_body]
fn parse_csv(data: &[u8]) -> (r: Result<Vec<Vec<String>>, String>)
    ensures
        table_outcome(r) == csv_records(data@),
        comes_back(data@, table_outcome(r)),
{
    let mut reader = csv::ReaderBuilder::new().has_headers(false).flexible(true).from_reader(data);
    let convert = |row: csv::StringRecord| row.iter().map(|f| f.to_string()).collect();
    reader.records().map(|row| row.map(convert).map_err(|e| e.to_string())).collect()
}

/// The header row and the other rows of a CSV text, or why it cannot be used.
pub open spec fn table_of(data: Seq<u8>) -> Result<(Seq<Seq<char>>, Seq<Seq<Seq<char>>>), Seq<char>> {
    match csv_records(data) {
        Err(e) => Err("Failed to read CSV row: "@ + e),
        Ok(rows) => if rows.len() == 0 {
            Err("Empty CSV file"@)
        } else {
            Ok((rows[0], rows.drop_first()))
        },
    }
}

/// What came of reading a table with its header row.
pub open spec fn headed(r: Result<(Vec<String>, Vec<Vec<String>>), String>) -> Result<
    (Seq<Seq<char>>, Seq<Seq<Seq<char>>>),
    Seq<char>,
> {
    match r {
        Ok(p) => Ok((texts(p.0@), tables(p.1@))),
        Err(e) => Err(e@),
    }
}

/// Reads the header row and the other rows of a CSV text. What was written as a table with a
/// header row comes back.
pub fn read_csv_records(data: &[u8]) -> (r: Result<(Vec<String>, Vec<Vec<String>>), String>)
    ensures
        headed(r) == table_of(data@),
        forall|rows: Seq<Seq<Seq<char>>>|
            data@ == encode_utf8(#[trigger] csv_text(rows)) && reads_back(rows) && rows.len() > 0
                ==> (r matches Ok(p) && texts(p.0@) == rows[0] && tables(p.1@) == rows.drop_first()),
{
    match parse_csv(data) {
        Err(e) => {
            let mut m = "Failed to read CSV row: ".to_owned();
            m.append(e.as_str());
            Err(m)
        },
        Ok(v) => {
            let ghost all = tables(v@);
            let mut rows = v;
            assert(rows@.len() == all.len());
            if rows.len() == 0 {
                Err("Empty CSV file".to_owned())
            } else {
                let headers = rows.remove(0);
                assert(texts(headers@) == all[0]);
                assert(tables(rows@) =~= all.drop_first());
                Ok((headers, rows))
            }
        },
    }
}

/// Wipes every field of a row: any of them may hold a password.
pub fn wipe_row(fields: &mut Vec<String>)
    ensures
        final(fields)@.len() == old(fields)@.len(),
        forall|i: int| 0 <= i < old(fields)@.len() ==> (#[trigger] final(fields)@[i])@.len() == 0,
{
    let n: usize = fields.len();
    let mut i: usize = 0;
    while i < n
        invariant
            i <= n,
            n == fields@.len(),
            forall|k: int| 0 <= k < i ==> (#[trigger] fields@[k])@.len() == 0,
        decreases n - i,
    {
        wipe_text(&mut fields[i]);
        i += 1;
    }
}

fn holds_char(v: &[char], c: char) -> (b: bool)
    ensures
        b == v@.contains(c),
{
    let k: usize = crate::text::find_char(v, c);
    proof {
        crate::text::lemma_first_at(v@, c);
        if k < v@.len() {
            assert(v@[k as int] == c);
        } else if v@.contains(c) {
            let j = choose|j: int| 0 <= j < v@.len() && v@[j] == c;
            assert(v@[j] != c);
        }
    }
    k < v.len()
}

/// Quotes a cell where that is needed.
pub fn escape_csv_quoting(val: &str) -> (s: String)
    ensures
        s@ == cell_text(val@),
{
    let v = chars_of(val);
    if holds_char(v.as_slice(), ',') || holds_char(v.as_slice(), '"') || holds_char(
        v.as_slice(),
        '\n',
    ) || holds_char(v.as_slice(), '\r') {
        let mut s = String::new();
        s.push('"');
        let mut i: usize = 0;
        assert(v@.take(0).len() == 0);
        assert(s@ =~= seq!['"'] + doubled(v@.take(0)));
        while i < v.len()
            invariant
                i <= v@.len(),
                s@ == seq!['"'] + doubled(v@.take(i as int)),
            decreases v@.len() - i,
        {
            assert(v@.take(i + 1).drop_last() =~= v@.take(i as int));
            assert(v@.take(i + 1).last() == v@[i as int]);
            let ghost before = s@;
            if v[i] == '"' {
                s.push('"');
                s.push('"');
                assert(s@ =~= seq!['"'] + (doubled(v@.take(i as int)) + seq!['"', '"']));
            } else {
                s.push(v[i]);
                assert(s@ =~= seq!['"'] + doubled(v@.take(i as int)).push(v@[i as int]));
            }
            i += 1;
        }
        assert(v@.take(i as int) =~= v@);
        s.push('"');
        assert(s@ =~= seq!['"'] + doubled(v@) + seq!['"']);
        s
    } else {
        val.to_owned()
    }
}

/// Whether spreadsheet programs would take a cell for a formula.
pub open spec fn looks_like_formula(s: Seq<char>) -> bool {
    s.len() > 0 && (s[0] == '=' || s[0] == '+' || s[0] == '-' || s[0] == '@')
}

/// A cell with an apostrophe before what would be taken for a formula.
pub open spec fn guarded(s: Seq<char>) -> Seq<char> {
    if looks_like_formula(s) {
        seq!['\''] + s
    } else {
        s
    }
}

/// Puts an apostrophe before what would be taken for a formula.
pub fn guard_cell(val: &str) -> (s: String)
    ensures
        s@ == guarded(val@),
{
    let v = chars_of(val);
    if v.len() > 0 && (v[0] == '=' || v[0] == '+' || v[0] == '-' || v[0] == '@') {
        let mut s = String::new();
        s.push('\'');
        s.append(val);
        assert(s@ =~= seq!['\''] + val@);
        s
    } else {
        val.to_owned()
    }
}

/// Writes a cell that is opened in spreadsheet programs.
pub fn escape_csv_cell(val: &str) -> (s: String)
    ensures
        s@ == cell_text(guarded(val@)),
{
    let g = guard_cell(val);
    escape_csv_quoting(g.as_str())
}

/// Writes a password cell, which must not be changed: it gets no apostrophe.
pub fn escape_csv_cell_password(val: &str) -> (s: String)
    ensures
        s@ == cell_text(val@),
{
    escape_csv_quoting(val)
}

/// Writes a row of cells without its line end.
pub fn write_row(cells: &Vec<String>) -> (s: String)
    ensures
        s@ == row_text(texts(cells@)),
{
    let ghost all = texts(cells@);
    let mut s = String::new();
    let mut i: usize = 0;
    assert(all.take(0).len() == 0);
    while i < cells.len()
        invariant
            i <= cells@.len(),
            all == texts(cells@),
            s@ == row_text(all.take(i as int)),
        decreases cells@.len() - i,
    {
        assert(all.take(i + 1).drop_last() =~= all.take(i as int));
        assert(all.take(i + 1).last() == cells@[i as int]@);
        let mut piece = escape_csv_quoting(cells[i].as_str());
        if i > 0 {
            s.push(',');
        }
        s.append(piece.as_str());
        proof {
            if i == 0 {
                assert(s@ =~= cell_text(cells@[0]@));
                assert(all.take(1)[0] == cells@[0]@);
            } else {
                assert(s@ =~= row_text(all.take(i as int)) + seq![','] + cell_text(
                    cells@[i as int]@,
                ));
            }
        }
        wipe_text(&mut piece);
        i += 1;
    }
    assert(all.take(i as int) =~= all);
    s
}

/// The text that a quoted or plain cell stands for.
pub open spec fn undoubled(s: Seq<char>) -> Seq<char>
    decreases s.len(),
{
    if s.len() < 2 {
        s
    } else if s.last() == '"' && s[s.len() - 2] == '"' {
        undoubled(s.subrange(0, s.len() - 2)).push('"')
    } else {
        undoubled(s.drop_last()).push(s.last())
    }
}

/// Doubling the quotes of a text loses nothing.
pub proof fn law_doubled_quotes_come_back(s: Seq<char>)
    ensures
        undoubled(doubled(s)) == s,
    decreases s.len(),
{
    if s.len() > 0 {
        let d = s.drop_last();
        law_doubled_quotes_come_back(d);
        let w = doubled(s);
        if s.last() == '"' {
            assert(w.subrange(0, w.len() - 2) =~= doubled(d));
            assert(undoubled(w) =~= d.push('"'));
            assert(d.push('"') =~= s);
        } else {
            assert(w.drop_last() =~= doubled(d));
            if w.len() >= 2 {
                assert(undoubled(w) =~= d.push(s.last()));
            } else {
                assert(doubled(d).len() == 0);
                lemma_doubled_len(d);
                assert(w =~= s);
            }
            assert(d.push(s.last()) =~= s);
        }
    } else {
        assert(doubled(s) =~= s);
    }
}

proof fn lemma_doubled_len(s: Seq<char>)
    ensures
        doubled(s).len() >= s.len(),
    decreases s.len(),
{
    if s.len() > 0 {
        lemma_doubled_len(s.drop_last());
    }
}

} // verus!
