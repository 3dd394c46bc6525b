use crate::error::Error;
use vstd::prelude::*;

verus! {

/// An import file as read: the records of a CSV file or the shape of a JSON
/// document.
pub enum ImportSource {
    /// A CSV file: its header, each row (or the reader's message for a row it
    /// could not parse), and the names of the key and value columns.
    Csv { headers: Vec<String>, rows: Vec<core::result::Result<Vec<String>, String>>, key_column: String, value_column: String },
    /// A JSON object: its members, each value as text.
    JsonObject(Vec<(String, String)>),
    /// A JSON array: for each item, `None` when it is not an object, else
    /// its "key" member (when a string) and its "value" member as text.
    JsonArray(Vec<Option<(Option<String>, Option<String>)>>),
    /// Any other JSON document.
    JsonOther,
}

/// One entry of an import, in input order.
#[derive(Debug)]
pub enum ImportEntry {
    /// A key and value to store.
    Record(String, String),
    /// A CSV row, numbered from 1, that the reader could not parse, with its message.
    BadRow(usize, String),
    /// A JSON array item, numbered from 0, that is not an object.
    BadItem(usize),
}

/// What an import stores, in input order, and why it stopped early, if it did:
/// the entries before the point where it stopped are stored all the same.
pub struct ImportPlan {
    /// The entries to act on.
    pub entries: Vec<ImportEntry>,
    /// Why the import stopped, if it did.
    pub stop: Option<ImportError>,
}

/// Why an import stops.
#[derive(Debug)]
pub enum ImportError {
    /// The CSV header has no column of this name for the keys.
    KeyColumnNotFound(String),
    /// The CSV header has no column of this name for the values.
    ValueColumnNotFound(String),
    /// This CSV row, numbered from 1, has no key field.
    MissingKeyInRow(usize),
    /// This CSV row, numbered from 1, has no value field.
    MissingValueInRow(usize),
    /// This JSON array item, numbered from 0, has no string "key".
    MissingKeyField(usize),
    /// This JSON array item, numbered from 0, has no "value".
    MissingValueField(usize),
    /// The JSON document is neither an object nor an array.
    NotObjectOrArray,
}

/// `e` is a record of key `k` and value `v`.
pub open spec fn is_record(e: ImportEntry, k: Seq<char>, v: Seq<char>) -> bool {
    e matches ImportEntry::Record(rk, rv) && rk@ == k && rv@ == v
}

/// The first index at which `headers` holds `name`.
pub open spec fn first_index(headers: Seq<Seq<char>>, name: Seq<char>) -> Option<int> {
    if exists|i: int| 0 <= i < headers.len() && headers[i] == name {
        Some(choose|i: int| 0 <= i < headers.len() && headers[i] == name && forall|j: int| 0 <= j < i ==> headers[j] != name)
    } else {
        None
    }
}

/// The views of some strings.
pub open spec fn views(v: Seq<String>) -> Seq<Seq<char>> {
    v.map_values(|s: String| s@)
}

/// A parsed CSV row too short to hold the key or the value field.
pub open spec fn row_short(row: core::result::Result<Vec<String>, String>, ki: int, vi: int) -> bool {
    row matches Ok(fields) && (fields@.len() <= ki || fields@.len() <= vi)
}

/// What import entry a CSV row that is not short gives.
pub open spec fn csv_entry_ok(row: core::result::Result<Vec<String>, String>, n: int, ki: int, vi: int, e: ImportEntry) -> bool {
    match row {
        Ok(fields) => e matches ImportEntry::Record(k, v) && k@ == fields@[ki]@ && v@ == fields@[vi]@,
        Err(m) => e matches ImportEntry::BadRow(rn, em) && rn == n + 1 && em@ == m@,
    }
}

/// What import entry a JSON array item gives, when it is not missing a member.
pub open spec fn array_entry_ok(item: Option<(Option<String>, Option<String>)>, n: int, e: ImportEntry) -> bool {
    match item {
        None => e matches ImportEntry::BadItem(i) && i == n,
        Some((Some(k), Some(v))) => e matches ImportEntry::Record(rk, rv) && rk@ == k@ && rv@ == v@,
        Some(_) => false,
    }
}

/// A JSON array item that is an object without a string "key" or without a "value".
pub open spec fn item_incomplete(item: Option<(Option<String>, Option<String>)>) -> bool {
    item matches Some((k, v)) && (k is None || v is None)
}

/// The position of `name` among `headers`, if it is there.
fn position(headers: &Vec<String>, name: &String) -> (r: Option<usize>)
    ensures
        match first_index(views(headers@), name@) {
            Some(i) => r matches Some(k) && k as int == i,
            None => r is None,
        },
{
    let mut i: usize = 0;
    while i < headers.len()
        invariant
            0 <= i <= headers@.len(),
            forall|j: int| 0 <= j < i ==> headers@[j]@ != name@,
        decreases headers@.len() - i,
    {
        if headers[i] == *name {
            let ghost hv = views(headers@);
            assert(hv[i as int] == name@);
            assert(forall|j: int| 0 <= j < i ==> hv[j] != name@);
            let ghost c = choose|c: int| 0 <= c < hv.len() && hv[c] == name@ && forall|j: int| 0 <= j < c ==> hv[j] != name@;
            assert(c == i) by {
                if c < i {
                    assert(hv[c] != name@);
                } else if c > i {
                    assert(hv[i as int] != name@);
                }
            }
            return Some(i);
        }
        i = i + 1;
    }
    let ghost hv = views(headers@);
    assert(!exists|c: int| 0 <= c < hv.len() && hv[c] == name@) by {
        assert forall|c: int| 0 <= c < hv.len() implies hv[c] != name@ by {
            assert(hv[c] == headers@[c]@);
        }
    }
    None
}

/// The first parsed row without a key or value field.
pub open spec fn first_short(rows: Seq<core::result::Result<Vec<String>, String>>, ki: int, vi: int) -> int {
    choose|i: int| 0 <= i < rows.len() && row_short(#[trigger] rows[i], ki, vi)
        && forall|j: int| 0 <= j < i ==> !row_short(#[trigger] rows[j], ki, vi)
}

/// What the rows of a CSV import give, with the key in column `ki` and the
/// value in column `vi`: one entry per row, up to the first parsed row
/// without a key or value field, which stops it.
pub open spec fn rows_outcome(
    rows: Seq<core::result::Result<Vec<String>, String>>,
    ki: int,
    vi: int,
    r: ImportPlan,
) -> bool {
    if exists|i: int| 0 <= i < rows.len() && row_short(#[trigger] rows[i], ki, vi) {
        let i = first_short(rows, ki, vi);
        (if rows[i]->Ok_0@.len() <= ki {
            r.stop matches Some(ImportError::MissingKeyInRow(n)) && n == i + 1
        } else {
            r.stop matches Some(ImportError::MissingValueInRow(n)) && n == i + 1
        }) && rows_done(rows, ki, vi, i, r.entries@)
    } else {
        r.stop is None && rows_done(rows, ki, vi, rows.len() as int, r.entries@)
    }
}

/// The entries of the first `n` rows.
pub open spec fn rows_done(
    rows: Seq<core::result::Result<Vec<String>, String>>,
    ki: int,
    vi: int,
    n: int,
    es: Seq<ImportEntry>,
) -> bool {
    es.len() == n && forall|j: int| 0 <= j < n ==> csv_entry_ok(#[trigger] rows[j], j, ki, vi, es[j])
}

/// The entries of the first `n` JSON array items.
pub open spec fn items_done(items: Seq<Option<(Option<String>, Option<String>)>>, n: int, es: Seq<ImportEntry>) -> bool {
    es.len() == n && forall|j: int| 0 <= j < n ==> array_entry_ok(#[trigger] items[j], j, es[j])
}

/// What a CSV import gives: an error for a missing column, else what its
/// rows give.
pub open spec fn csv_outcome(
    headers: Seq<Seq<char>>,
    rows: Seq<core::result::Result<Vec<String>, String>>,
    key_column: Seq<char>,
    value_column: Seq<char>,
    r: ImportPlan,
) -> bool {
    match (first_index(headers, key_column), first_index(headers, value_column)) {
        (None, _) => r.stop matches Some(ImportError::KeyColumnNotFound(c)) && c@ == key_column
            && r.entries@.len() == 0,
        (Some(_), None) => r.stop matches Some(ImportError::ValueColumnNotFound(c)) && c@ == value_column
            && r.entries@.len() == 0,
        (Some(ki), Some(vi)) => rows_outcome(rows, ki, vi, r),
    }
}

/// What a JSON object import gives: one record per member, in order.
pub open spec fn object_outcome(
    members: Seq<(String, String)>,
    r: ImportPlan,
) -> bool {
    r.stop is None && r.entries@.len() == members.len() && forall|i: int|
        0 <= i < members.len() ==> is_record(#[trigger] r.entries@[i], members[i].0@, members[i].1@)
}

/// What a JSON array import gives: one entry per item, up to the first
/// object item without a string "key" or a "value", which stops it.
pub open spec fn array_outcome(
    items: Seq<Option<(Option<String>, Option<String>)>>,
    r: ImportPlan,
) -> bool {
    if exists|i: int| 0 <= i < items.len() && item_incomplete(#[trigger] items[i]) {
        let i = choose|i: int| 0 <= i < items.len() && item_incomplete(#[trigger] items[i])
            && forall|j: int| 0 <= j < i ==> !item_incomplete(#[trigger] items[j]);
        items_done(items, i, r.entries@) && match items[i] {
            Some((None, _)) => r.stop matches Some(ImportError::MissingKeyField(n)) && n == i,
            _ => r.stop matches Some(ImportError::MissingValueField(n)) && n == i,
        }
    } else {
        r.stop is None && items_done(items, items.len() as int, r.entries@)
    }
}

/// Decides what an import stores. A CSV import takes the key and value
/// columns by their header names; each row gives a record, or an entry
/// for a row the reader could not parse. A JSON object gives one record per
/// member; a JSON array gives one record per object item, and an entry for
/// each item that is not an object. The first missing column, field or
/// member stops the import, as does a JSON document of another shape; the
/// entries before that point are handed back with the reason.
pub fn import_command(source: ImportSource) -> (r: ImportPlan)
    ensures
        match source {
            ImportSource::Csv { headers, rows, key_column, value_column } => csv_outcome(
                views(headers@),
                rows@,
                key_column@,
                value_column@,
                r,
            ),
            ImportSource::JsonObject(members) => object_outcome(members@, r),
            ImportSource::JsonArray(items) => array_outcome(items@, r),
            ImportSource::JsonOther => r.stop matches Some(ImportError::NotObjectOrArray) && r.entries@.len() == 0,
        },
{
    match source {
        ImportSource::Csv { headers, rows, key_column, value_column } => import_csv(
            headers,
            rows,
            key_column,
            value_column,
        ),
        ImportSource::JsonObject(members) => import_object(members),
        ImportSource::JsonArray(items) => import_array(items),
        ImportSource::JsonOther => ImportPlan { entries: Vec::new(), stop: Some(ImportError::NotObjectOrArray) },
    }
}

/// The CSV branch of an import.
fn import_csv(
    headers: Vec<String>,
    rows: Vec<core::result::Result<Vec<String>, String>>,
    key_column: String,
    value_column: String,
) -> (r: ImportPlan)
    ensures
        csv_outcome(views(headers@), rows@, key_column@, value_column@, r),
{
    let ki = match position(&headers, &key_column) {
        Some(i) => i,
        None => {
            return ImportPlan { entries: Vec::new(), stop: Some(ImportError::KeyColumnNotFound(key_column)) };
        },
    };
    let vi = match position(&headers, &value_column) {
        Some(i) => i,
        None => {
            return ImportPlan { entries: Vec::new(), stop: Some(ImportError::ValueColumnNotFound(value_column)) };
        },
    };
    import_rows(rows, ki, vi)
}

/// The rows of a CSV import, with the key in column `ki` and the value in
/// column `vi`.
fn import_rows(rows: Vec<core::result::Result<Vec<String>, String>>, ki: usize, vi: usize) -> (r: ImportPlan)
    ensures
        rows_outcome(rows@, ki as int, vi as int, r),
{
    let mut out: Vec<ImportEntry> = Vec::new();
    let mut i: usize = 0;
    while i < rows.len()
        invariant
            0 <= i <= rows@.len(),
            out@.len() == i,
            forall|j: int| 0 <= j < i ==> !row_short(#[trigger] rows@[j], ki as int, vi as int),
            forall|j: int| 0 <= j < i ==> csv_entry_ok(#[trigger] rows@[j], j, ki as int, vi as int, out@[j]),
        decreases rows@.len() - i,
    {
        match &rows[i] {
            Ok(fields) => {
                if fields.len() <= ki || fields.len() <= vi {
                    proof {
                        assert(row_short(rows@[i as int], ki as int, vi as int));
                        csv_first_short(rows@, i as int, ki as int, vi as int);
                    }
                    if fields.len() <= ki {
                        return ImportPlan { entries: out, stop: Some(ImportError::MissingKeyInRow(i + 1)) };
                    }
                    return ImportPlan { entries: out, stop: Some(ImportError::MissingValueInRow(i + 1)) };
                }
                out.push(ImportEntry::Record(fields[ki].clone(), fields[vi].clone()));
            },
            Err(m) => {
                out.push(ImportEntry::BadRow(i + 1, m.clone()));
            },
        }
        i = i + 1;
    }
    ImportPlan { entries: out, stop: None }
}

/// The JSON object branch of an import.
fn import_object(members: Vec<(String, String)>) -> (r: ImportPlan)
    ensures
        object_outcome(members@, r),
{
    let mut out: Vec<ImportEntry> = Vec::new();
    let mut i: usize = 0;
    while i < members.len()
        invariant
            0 <= i <= members@.len(),
            out@.len() == i,
            forall|j: int| 0 <= j < i ==> is_record(#[trigger] out@[j], members@[j].0@, members@[j].1@),
        decreases members@.len() - i,
    {
        out.push(ImportEntry::Record(members[i].0.clone(), members[i].1.clone()));
        i = i + 1;
    }
    ImportPlan { entries: out, stop: None }
}

/// The JSON array branch of an import.
fn import_array(items: Vec<Option<(Option<String>, Option<String>)>>) -> (r: ImportPlan)
    ensures
        array_outcome(items@, r),
{
    let mut out: Vec<ImportEntry> = Vec::new();
    let mut i: usize = 0;
    while i < items.len()
        invariant
            0 <= i <= items@.len(),
            out@.len() == i,
            forall|j: int| 0 <= j < i ==> !item_incomplete(#[trigger] items@[j]),
            forall|j: int| 0 <= j < i ==> array_entry_ok(#[trigger] items@[j], j, out@[j]),
        decreases items@.len() - i,
    {
        match &items[i] {
            None => {
                out.push(ImportEntry::BadItem(i));
            },
            Some((key, value)) => {
                let k = match key {
                    Some(k) => k,
                    None => {
                        proof {
                            array_first_incomplete(items@, i as int);
                        }
                        return ImportPlan { entries: out, stop: Some(ImportError::MissingKeyField(i)) };
                    },
                };
                let v = match value {
                    Some(v) => v,
                    None => {
                        proof {
                            array_first_incomplete(items@, i as int);
                        }
                        return ImportPlan { entries: out, stop: Some(ImportError::MissingValueField(i)) };
                    },
                };
                out.push(ImportEntry::Record(k.clone(), v.clone()));
            },
        }
        i = i + 1;
    }
    ImportPlan { entries: out, stop: None }
}

/// The row at `i` is the first short one.
proof fn csv_first_short(rows: Seq<core::result::Result<Vec<String>, String>>, i: int, ki: int, vi: int)
    requires
        0 <= i < rows.len(),
        row_short(rows[i], ki, vi),
        forall|j: int| 0 <= j < i ==> !row_short(#[trigger] rows[j], ki, vi),
    ensures
        first_short(rows, ki, vi) == i,
{
    let c = choose|c: int| 0 <= c < rows.len() && row_short(#[trigger] rows[c], ki, vi)
        && forall|j: int| 0 <= j < c ==> !row_short(#[trigger] rows[j], ki, vi);
    assert(row_short(rows[i], ki, vi));
    if c < i {
        assert(!row_short(rows[c], ki, vi));
    } else if c > i {
        assert(!row_short(rows[i], ki, vi));
    }
}

/// The item at `i` is the first incomplete one.
proof fn array_first_incomplete(items: Seq<Option<(Option<String>, Option<String>)>>, i: int)
    requires
        0 <= i < items.len(),
        item_incomplete(items[i]),
        forall|j: int| 0 <= j < i ==> !item_incomplete(#[trigger] items[j]),
    ensures
        ({
            let c = choose|c: int| 0 <= c < items.len() && item_incomplete(#[trigger] items[c])
                && forall|j: int| 0 <= j < c ==> !item_incomplete(#[trigger] items[j]);
            c == i
        }),
{
    let c = choose|c: int| 0 <= c < items.len() && item_incomplete(#[trigger] items[c])
        && forall|j: int| 0 <= j < c ==> !item_incomplete(#[trigger] items[j]);
    assert(item_incomplete(items[i]));
    if c < i {
        assert(!item_incomplete(items[c]));
    } else if c > i {
        assert(!item_incomplete(items[i]));
    }
}

/// What an export writes and what it reports: the entries that were read,
/// in order, and the errors met while reading.
pub struct ExportPlan {
    /// The entries to write, as key and value.
    pub records: Vec<(String, String)>,
    /// The errors met while reading.
    pub errors: Vec<Error>,
}

/// Splits what a scan of the store gave into the records an export writes
/// and the read errors it reports, each in scan order.
pub fn export_command(items: Vec<crate::error::Result<(String, String)>>) -> (r: ExportPlan)
    ensures
        r.records@.len() + r.errors@.len() == items@.len(),
        r.records@.map_values(|p: (String, String)| (p.0@, p.1@)) == ok_pairs(items@),
        r.errors@ == err_items(items@),
{
    let mut rest = items;
    let mut records: Vec<(String, String)> = Vec::new();
    let mut errors: Vec<Error> = Vec::new();
    let ghost all = rest@;
    while rest.len() > 0
        invariant
            records@.len() + errors@.len() + rest@.len() == all.len(),
            records@.map_values(|p: (String, String)| (p.0@, p.1@)) + ok_pairs(rest@) == ok_pairs(all),
            errors@ + err_items(rest@) == err_items(all),
        decreases rest@.len(),
    {
        let ghost before = rest@;
        let x = rest.remove(0);
        assert(rest@ =~= before.drop_first());
        match x {
            Ok(p) => {
                let ghost pre = records@.map_values(|p: (String, String)| (p.0@, p.1@));
                records.push(p);
                assert(records@.map_values(|p: (String, String)| (p.0@, p.1@)) =~= pre.push(
                    (records@.last().0@, records@.last().1@),
                ));
                assert(pre.push((records@.last().0@, records@.last().1@)) + ok_pairs(rest@) =~= pre + (
                seq![(records@.last().0@, records@.last().1@)] + ok_pairs(rest@)));
            },
            Err(e) => {
                let ghost pre = errors@;
                errors.push(e);
                assert(pre.push(e) + err_items(rest@) =~= pre + (seq![e] + err_items(rest@)));
            },
        }
    }
    assert(ok_pairs(rest@) =~= Seq::<(Seq<char>, Seq<char>)>::empty());
    assert(errors@ + err_items(rest@) =~= errors@);
    assert(records@.map_values(|p: (String, String)| (p.0@, p.1@)) + ok_pairs(rest@) =~= records@.map_values(
        |p: (String, String)| (p.0@, p.1@),
    ));
    ExportPlan { records, errors }
}

/// The errors met while reading, in order.
pub open spec fn err_items(items: Seq<crate::error::Result<(String, String)>>) -> Seq<Error>
    decreases items.len(),
{
    if items.len() == 0 {
        Seq::empty()
    } else {
        match items[0] {
            Ok(_) => err_items(items.drop_first()),
            Err(e) => seq![e] + err_items(items.drop_first()),
        }
    }
}

/// The pairs that were read, in order, as text.
pub open spec fn ok_pairs(items: Seq<crate::error::Result<(String, String)>>) -> Seq<(Seq<char>, Seq<char>)>
    decreases items.len(),
{
    if items.len() == 0 {
        Seq::empty()
    } else {
        match items[0] {
            Ok(p) => seq![(p.0@, p.1@)] + ok_pairs(items.drop_first()),
            Err(_) => ok_pairs(items.drop_first()),
        }
    }
}

} // verus!
