//! Tables read from comma-separated text, and access to their cells.

use crate::dedup::strings_view;
use crate::ledger::same_text;
use crate::money::{amount_value, Money, Rat};
use vstd::prelude::*;

verus! {

/// The records that csv reads from a text, each as its fields, the first
/// record included.
pub uninterp spec fn csv_records_of(text: Seq<char>) -> Option<Seq<Seq<Seq<char>>>>;

/// The texts of the cells of a table.
pub open spec fn table_view(t: Seq<Vec<String>>) -> Seq<Seq<Seq<char>>> {
    t.map_values(|r: Vec<String>| strings_view(r@))
}

/// Relies on csv's `ReaderBuilder` with `has_headers(false)` and on
/// `records`: every record of the text, as its fields; none when a record
/// cannot be read.
#[verifier::external_body]
fn csv_records(text: &str) -> (r: Option<Vec<Vec<String>>>)
    ensures
        r matches Some(t) ==> csv_records_of(text@) == Some(table_view(t@)),
        r is None ==> csv_records_of(text@) is None,
{
    let mut reader = csv::ReaderBuilder::new().has_headers(false).from_reader(text.as_bytes());
    reader.records().map(|rec| rec.map(|fields| fields.iter().map(|f| f.to_owned()).collect())).collect::<Result<Vec<Vec<String>>, csv::Error>>().ok()
}

/// A table: the header's column names, then the entries.
pub struct Table {
    pub header: Vec<String>,
    pub entries: Vec<Vec<String>>,
}

impl Table {
    /// The column names.
    pub open spec fn header_view(&self) -> Seq<Seq<char>> {
        strings_view(self.header@)
    }

    /// The cells of the entries.
    pub open spec fn entries_view(&self) -> Seq<Seq<Seq<char>>> {
        table_view(self.entries@)
    }
}

/// The table that a text holds: its first record is the header.
pub open spec fn table_of(text: Seq<char>) -> Option<(Seq<Seq<char>>, Seq<Seq<Seq<char>>>)> {
    match csv_records_of(text) {
        Some(recs) => if recs.len() > 0 {
            Some((recs[0], recs.drop_first()))
        } else {
            None
        },
        None => None,
    }
}

/// Reads a table from comma-separated text; `None` when the text is not
/// well formed or holds no header.
pub fn read_table(text: &str) -> (r: Option<Table>)
    ensures
        r matches Some(t) ==> table_of(text@) == Some((t.header_view(), t.entries_view())),
        r is None ==> table_of(text@) is None,
{
    match csv_records(text) {
        Some(mut recs) => {
            if recs.len() == 0 {
                return None;
            }
            let ghost all = recs@;
            let header = recs.remove(0);
            proof {
                assert(table_view(recs@) =~= table_view(all).drop_first());
            }
            Some(Table { header, entries: recs })
        },
        None => None,
    }
}

/// The first position of a column called `name`.
#[verifier::opaque]
pub open spec fn column_of(header: Seq<Seq<char>>, name: Seq<char>) -> Option<int> {
    if exists|i: int| 0 <= i < header.len() && header[i] == name {
        Some(choose|i: int| 0 <= i < header.len() && header[i] == name && forall|j: int| 0 <= j < i ==> header[j] != name)
    } else {
        None
    }
}

/// The position of the column called `name`, the first if several are.
pub fn column_index(header: &Vec<String>, name: &str) -> (r: Option<usize>)
    ensures
        r matches Some(i) ==> column_of(strings_view(header@), name@) == Some(i as int),
        r is None ==> column_of(strings_view(header@), name@) is None,
{
    reveal(column_of);
    let ghost h = strings_view(header@);
    let mut i: usize = 0;
    while i < header.len()
        invariant
            h == strings_view(header@),
            i <= header@.len(),
            forall|j: int| 0 <= j < i ==> h[j] != name@,
        decreases header.len() - i,
    {
        if same_text(header[i].as_str(), name) {
            proof {
                reveal(column_of);
                assert(h[i as int] == name@);
                let k = choose|k: int| 0 <= k < h.len() && h[k] == name@ && forall|j: int| 0 <= j < k ==> h[j] != name@;
                if k < i {
                } else if k > i {
                    assert(h[i as int] != name@);
                }
            }
            return Some(i);
        }
        i += 1;
    }
    None
}

/// The cell of an entry in a column, if the entry reaches it.
pub open spec fn cell(row: Seq<Seq<char>>, k: int) -> Option<Seq<char>> {
    if 0 <= k < row.len() {
        Some(row[k])
    } else {
        None
    }
}

/// The decimal amount in a cell.
pub open spec fn amount_cell(row: Seq<Seq<char>>, k: int) -> Option<Rat> {
    match cell(row, k) {
        Some(t) => amount_value(t),
        None => None,
    }
}

/// A copy of the cell of `row` in column `k`.
pub fn text_at(row: &Vec<String>, k: usize) -> (r: Option<String>)
    ensures
        r matches Some(s) ==> cell(strings_view(row@), k as int) == Some(s@),
        r is None ==> cell(strings_view(row@), k as int) is None,
{
    if k < row.len() {
        Some(row[k].clone())
    } else {
        None
    }
}

/// The decimal amount in the cell of `row` in column `k`.
pub fn amount_at(row: &Vec<String>, k: usize) -> (r: Option<Money>)
    ensures
        r matches Some(m) ==> m.wf() && amount_cell(strings_view(row@), k as int) == Some(m@),
        r is None ==> amount_cell(strings_view(row@), k as int) is None,
{
    if k < row.len() {
        Money::parse(row[k].as_str())
    } else {
        None
    }
}

} // verus!
