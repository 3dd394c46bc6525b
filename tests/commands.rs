use rocksmap::{export_command, import_command, Error, ImportEntry, ImportError, ImportPlan, ImportSource};

fn done(p: ImportPlan) -> Vec<ImportEntry> {
    assert!(p.stop.is_none());
    p.entries
}

fn s(x: &str) -> String {
    x.to_string()
}

fn csv(rows: Vec<Result<Vec<&str>, &str>>, key: &str, value: &str) -> ImportSource {
    ImportSource::Csv {
        headers: vec![s("id"), s("name"), s("email")],
        rows: rows
            .into_iter()
            .map(|r| r.map(|f| f.into_iter().map(s).collect()).map_err(s))
            .collect(),
        key_column: s(key),
        value_column: s(value),
    }
}

#[test]
fn csv_import_takes_named_columns() {
    let src = csv(vec![Ok(vec!["1", "Ann", "a@x"]), Ok(vec!["2", "Bo", "b@x"])], "id", "email");
    let r = done(import_command(src));
    assert_eq!(r.len(), 2);
    assert!(matches!(&r[0], ImportEntry::Record(k, v) if k == "1" && v == "a@x"));
    assert!(matches!(&r[1], ImportEntry::Record(k, v) if k == "2" && v == "b@x"));
}

#[test]
fn csv_import_reports_unparsed_rows_by_number() {
    let src = csv(vec![Ok(vec!["1", "Ann", "a@x"]), Err("bad quote")], "name", "id");
    let r = done(import_command(src));
    assert!(matches!(&r[0], ImportEntry::Record(k, v) if k == "Ann" && v == "1"));
    assert!(matches!(&r[1], ImportEntry::BadRow(2, m) if m == "bad quote"));
}

#[test]
fn csv_import_missing_key_column() {
    let r = import_command(csv(vec![Ok(vec!["1", "Ann", "a@x"])], "nope", "id"));
    assert!(r.entries.is_empty());
    assert!(matches!(r.stop, Some(ImportError::KeyColumnNotFound(c)) if c == "nope"));
}

#[test]
fn csv_import_missing_value_column() {
    let r = import_command(csv(vec![], "id", "nope"));
    assert!(r.entries.is_empty());
    assert!(matches!(r.stop, Some(ImportError::ValueColumnNotFound(c)) if c == "nope"));
}

#[test]
fn csv_import_short_row_stops() {
    let r = import_command(csv(
        vec![Ok(vec!["1", "Ann", "a@x"]), Ok(vec!["2"]), Ok(vec!["3", "Cy", "c@x"])],
        "id",
        "email",
    ));
    assert!(matches!(r.stop, Some(ImportError::MissingValueInRow(2))));
    assert_eq!(r.entries.len(), 1);
    assert!(matches!(&r.entries[0], ImportEntry::Record(k, v) if k == "1" && v == "a@x"));
    let r = import_command(csv(vec![Ok(vec![])], "id", "email"));
    assert!(matches!(r.stop, Some(ImportError::MissingKeyInRow(1))));
    assert!(r.entries.is_empty());
}

#[test]
fn json_object_import_gives_each_member() {
    let r = done(import_command(ImportSource::JsonObject(vec![(s("a"), s("1")), (s("b"), s("x"))])));
    assert_eq!(r.len(), 2);
    assert!(matches!(&r[1], ImportEntry::Record(k, v) if k == "b" && v == "x"));
}

#[test]
fn json_array_import() {
    let items = vec![Some((Some(s("k1")), Some(s("v1")))), None, Some((Some(s("k2")), Some(s("2"))))];
    let r = done(import_command(ImportSource::JsonArray(items)));
    assert_eq!(r.len(), 3);
    assert!(matches!(&r[0], ImportEntry::Record(k, v) if k == "k1" && v == "v1"));
    assert!(matches!(&r[1], ImportEntry::BadItem(1)));
    assert!(matches!(&r[2], ImportEntry::Record(k, v) if k == "k2" && v == "2"));
}

#[test]
fn json_array_missing_members_stop() {
    let r = import_command(ImportSource::JsonArray(vec![
        Some((Some(s("k0")), Some(s("v0")))),
        None,
        Some((None, Some(s("v")))),
        Some((Some(s("k3")), Some(s("v3")))),
    ]));
    assert!(matches!(r.stop, Some(ImportError::MissingKeyField(2))));
    assert_eq!(r.entries.len(), 2);
    assert!(matches!(&r.entries[0], ImportEntry::Record(k, v) if k == "k0" && v == "v0"));
    assert!(matches!(&r.entries[1], ImportEntry::BadItem(1)));
    let r = import_command(ImportSource::JsonArray(vec![Some((Some(s("k")), None))]));
    assert!(matches!(r.stop, Some(ImportError::MissingValueField(0))));
    assert!(r.entries.is_empty());
}

#[test]
fn json_of_another_shape_is_refused() {
    let r = import_command(ImportSource::JsonOther);
    assert!(matches!(r.stop, Some(ImportError::NotObjectOrArray)));
    assert!(r.entries.is_empty());
}

#[test]
fn export_splits_records_and_errors() {
    let items = vec![
        Ok((s("a"), s("1"))),
        Err(Error::Deserialization(s("bad"))),
        Ok((s("b"), s("2"))),
    ];
    let plan = export_command(items);
    assert_eq!(plan.records, vec![(s("a"), s("1")), (s("b"), s("2"))]);
    assert_eq!(plan.errors.len(), 1);
    assert!(matches!(&plan.errors[0], Error::Deserialization(m) if m == "bad"));
}
