use assembly_fdb::FdbHash;

use paradox_api::damage::{is_sound, listable, Part};
use paradox_api::fdb::Database;
use paradox_api::file::CastError;
use paradox_api::path::Parts;
use paradox_api::response::{ErrorKind, Response};
use paradox_api::route::key_text;
use paradox_api::rows::{AsColValIter, FilteredRowIter, RowIter};
use paradox_api::service::{db_api, Answer, ApiService, LocaleAnswer, Mode};
use paradox_api::tables::{
    table_all_get, table_all_query, table_def_json, table_key_json, table_key_type, tables_json,
    TableDef,
};
use paradox_api::value::{Field, ValueType};

// ---- Files ----

const NOTHING: u32 = 0;
const INTEGER: u32 = 1;
const FLOAT: u32 = 3;
const TEXT: u32 = 4;
const BOOLEAN: u32 = 5;
const BIG_INT: u32 = 6;
const VAR_CHAR: u32 = 8;

enum Cell {
    Int(i32),
    Float(f32),
    Text(&'static [u8]),
    Bool(bool),
    Big(i64),
    Xml(&'static [u8]),
    Raw(u32, u32),
}

use Cell::{Big, Bool, Float, Int, Raw, Text, Xml};

struct Sheet {
    name: &'static [u8],
    columns: Vec<(u32, &'static [u8])>,
    buckets: Vec<Vec<Vec<Cell>>>,
}

fn sheet(
    name: &'static [u8],
    columns: &[(u32, &'static [u8])],
    buckets: Vec<Vec<Vec<Cell>>>,
) -> Sheet {
    Sheet { name, columns: columns.to_vec(), buckets }
}

/// The bytes of a file, as they are written.
struct Writer {
    bytes: Vec<u8>,
}

impl Writer {
    fn at(&self) -> u32 {
        self.bytes.len() as u32
    }

    fn words(&mut self, words: &[u32]) -> u32 {
        let at = self.at();
        for word in words {
            self.bytes.extend_from_slice(&word.to_le_bytes());
        }
        at
    }

    fn set(&mut self, at: u32, word: u32) {
        let at = at as usize;
        self.bytes[at..at + 4].copy_from_slice(&word.to_le_bytes());
    }

    fn text(&mut self, text: &[u8]) -> u32 {
        let at = self.at();
        self.bytes.extend_from_slice(text);
        self.bytes.push(0);
        while self.bytes.len() % 4 != 0 {
            self.bytes.push(0);
        }
        at
    }

    fn cell(&mut self, cell: &Cell) -> (u32, u32) {
        match cell {
            Int(i) => (INTEGER, *i as u32),
            Float(x) => (FLOAT, x.to_bits()),
            Text(t) => (TEXT, self.text(t)),
            Bool(b) => (BOOLEAN, *b as u32),
            Big(i) => (BIG_INT, self.words(&[*i as u32, (*i >> 32) as u32])),
            Xml(t) => (VAR_CHAR, self.text(t)),
            Raw(ty, value) => (*ty, *value),
        }
    }

    fn row(&mut self, row: &[Cell]) -> u32 {
        let mut words = Vec::new();
        for cell in row {
            let (ty, value) = self.cell(cell);
            words.push(ty);
            words.push(value);
        }
        let fields = self.words(&words);
        self.words(&[row.len() as u32, fields])
    }

    fn chain(&mut self, rows: &[Vec<Cell>]) -> u32 {
        let mut next = u32::MAX;
        for row in rows.iter().rev() {
            let header = self.row(row);
            next = self.words(&[header, next]);
        }
        next
    }
}

/// The file with these tables, in this order.
fn file(sheets: &[Sheet]) -> Vec<u8> {
    let mut w = Writer { bytes: Vec::new() };
    w.words(&[sheets.len() as u32, 8]);
    w.words(&vec![0; 2 * sheets.len()]);
    for (i, sheet) in sheets.iter().enumerate() {
        let name = w.text(sheet.name);
        let mut columns = Vec::new();
        for (ty, column) in &sheet.columns {
            columns.push(*ty);
            columns.push(w.text(column));
        }
        let columns = w.words(&columns);
        let def = w.words(&[sheet.columns.len() as u32, name, columns]);
        let mut buckets = Vec::new();
        for bucket in &sheet.buckets {
            buckets.push(w.chain(bucket));
        }
        let buckets = w.words(&buckets);
        let data = w.words(&[sheet.buckets.len() as u32, buckets]);
        w.set(8 + 8 * i as u32, def);
        w.set(12 + 8 * i as u32, data);
    }
    w.bytes
}

fn word(bytes: &[u8], at: usize) -> usize {
    u32::from_le_bytes([bytes[at], bytes[at + 1], bytes[at + 2], bytes[at + 3]]) as usize
}

fn set(bytes: &mut [u8], at: usize, value: u32) {
    bytes[at..at + 4].copy_from_slice(&value.to_le_bytes());
}

/// Three tables in order: one with two columns, one without rows, one with a text as its key.
fn sample() -> Vec<u8> {
    let hash = FdbHash::hash("key") as usize % 2;
    let mut by_text = vec![vec![], vec![]];
    by_text[hash].push(vec![Text(b"key"), Bool(true)]);
    by_text[hash].push(vec![Text(b"other in the same bucket"), Bool(false)]);
    by_text[1 - hash].push(vec![Text(b"key"), Bool(false)]);
    file(&[
        sheet(
            b"Alpha",
            &[(INTEGER, b"id"), (TEXT, b"name")],
            vec![
                vec![vec![Int(0), Text(b"zero")], vec![Int(2), Text(b"two")]],
                vec![
                    vec![Int(1), Text(b"one")],
                    vec![Int(-1), Text(b"minus")],
                    vec![Int(1), Text(b"uno")],
                ],
            ],
        ),
        sheet(b"Beta", &[(NOTHING, b"none")], vec![vec![]]),
        sheet(b"Gamma", &[(TEXT, b"key"), (BOOLEAN, b"first")], by_text),
    ])
}

fn service(bytes: &[u8]) -> ApiService<'_, u8, u8> {
    ApiService::new(Database { file: bytes }, 1, 2)
}

fn field(field: &Field) -> String {
    match field {
        Field::Nothing => "nothing".to_owned(),
        Field::Integer(i) => format!("{}", i),
        Field::Float(bits) => format!("{}f", f32::from_bits(*bits)),
        Field::Text(bytes) => format!("{:?}", String::from_utf8_lossy(bytes)),
        Field::Boolean(b) => format!("{}", b),
        Field::BigInt(i) => format!("{}L", i),
        Field::VarChar(bytes) => format!("<{}>", String::from_utf8_lossy(bytes)),
    }
}

/// One line for each row.
fn lines<FC: AsColValIter>(iter: &RowIter<'_, FC>) -> Vec<String> {
    let mut all = Vec::new();
    for object in iter.serialize() {
        let mut line = Vec::new();
        for (name, value) in &object {
            line.push(format!("{}={}", name, field(value)));
        }
        all.push(line.join(" "));
    }
    all
}

fn float(path: &str) -> Option<u32> {
    let key = key_text(path)?;
    key.parse::<f32>().ok().map(f32::to_bits)
}

/// The rows that a request shows.
fn rows(bytes: &[u8], path: &str) -> Vec<String> {
    match service(bytes).try_call(path, float(path)) {
        Some(Answer::Rows(iter)) => lines(&iter),
        _ => panic!("rows were expected"),
    }
}

fn response(bytes: &[u8], path: &str) -> Response {
    match service(bytes).try_call(path, float(path)) {
        Some(Answer::Reply(r)) => r,
        _ => panic!("a response was expected"),
    }
}

fn definition(bytes: &[u8], path: &str) -> TableDef {
    match service(bytes).try_call(path, float(path)) {
        Some(Answer::Definition(def)) => def,
        _ => panic!("a definition was expected"),
    }
}

fn error(bytes: &[u8], path: &str) -> CastError {
    match service(bytes).try_call(path, float(path)) {
        Some(Answer::Failed(e)) => {
            assert_eq!(e.kind, ErrorKind::Other);
            e.error
        }
        _ => panic!("an error was expected"),
    }
}

fn is_damaged(bytes: &[u8], path: &str) -> bool {
    service(bytes).try_call(path, float(path)).is_none()
}

// ---- Lists and definitions ----

#[test]
fn tables_are_listed_in_the_order_of_the_file() {
    let bytes = sample();
    for path in ["/v0/tables", "/v1/tables"] {
        let r = response(&bytes, path);
        assert_eq!((r.status, r.body.as_str()), (200, "[\"Alpha\",\"Beta\",\"Gamma\"]"));
    }
    let db = Database { file: &bytes };
    assert!(listable(db));
    assert_eq!(tables_json(db).unwrap(), vec!["Alpha", "Beta", "Gamma"]);
    let reversed = file(&[sheet(b"b", &[], vec![]), sheet(b"a", &[], vec![])]);
    assert_eq!(response(&reversed, "/v0/tables").body, "[\"b\",\"a\"]");
}

#[test]
fn an_empty_file_of_tables_has_an_empty_list() {
    let bytes = file(&[]);
    let r = response(&bytes, "/v0/tables");
    assert_eq!((r.status, r.body.as_str()), (200, "[]"));
    assert_eq!(response(&bytes, "/v0/tables/Alpha").status, 404);
}

#[test]
fn names_are_decoded_and_escaped() {
    let bytes = file(&[sheet(b"\"x\"", &[], vec![]), sheet(b"\xc4\x80", &[], vec![])]);
    assert_eq!(response(&bytes, "/v0/tables").body, "[\"\\\"x\\\"\",\"Ä€\"]");
}

#[test]
fn definitions_hold_names_and_types() {
    let bytes = file(&[sheet(
        b"Types",
        &[
            (NOTHING, b"a"),
            (INTEGER, b"b"),
            (FLOAT, b"c"),
            (TEXT, b"d"),
            (BOOLEAN, b"e"),
            (BIG_INT, b"f"),
            (VAR_CHAR, b"\xfc"),
        ],
        vec![],
    )]);
    for path in ["/v0/tables/Types", "/v0/tables/Types/def"] {
        let def = definition(&bytes, path);
        assert_eq!(def.name, "Types");
        let mut columns = Vec::new();
        for column in &def.columns {
            columns.push((column.name.as_str(), column.data_type));
        }
        assert_eq!(
            columns,
            vec![
                ("a", ValueType::Nothing),
                ("b", ValueType::Integer),
                ("c", ValueType::Float),
                ("d", ValueType::Text),
                ("e", ValueType::Boolean),
                ("f", ValueType::BigInt),
                ("ü", ValueType::VarChar),
            ]
        );
    }
}

#[test]
fn every_table_is_found_by_its_name() {
    let bytes = sample();
    for name in ["Alpha", "Beta", "Gamma"] {
        assert_eq!(definition(&bytes, &format!("/v0/tables/{}", name)).name, name);
        let def = table_def_json(Database { file: &bytes }, name).unwrap().unwrap();
        assert_eq!(def.name, name);
    }
}

#[test]
fn tables_that_are_not_there() {
    let bytes = sample();
    for name in ["", "Alph", "Alphab", "alpha", "Zeta", "ä"] {
        for end in ["", "/def", "/all", "/1"] {
            let r = response(&bytes, &format!("/v0/tables/{}{}", name, end));
            assert_eq!((r.status, r.body.as_str()), (404, "null"));
        }
    }
    let db = Database { file: &bytes };
    assert!(table_def_json(db, "Zeta").unwrap().is_none());
    assert!(table_all_get(db, "Zeta").unwrap().is_none());
    assert!(table_key_json(db, "Zeta", "1", None).unwrap().is_none());
    assert!(table_key_type(db, "Zeta").unwrap().is_none());
    assert!(table_all_query(db, "Zeta", Some(&vec![])).unwrap().is_none());
}

// ---- Rows ----

#[test]
fn all_rows_come_bucket_by_bucket() {
    let bytes = sample();
    let expected = vec![
        "id=0 name=\"zero\"",
        "id=2 name=\"two\"",
        "id=1 name=\"one\"",
        "id=-1 name=\"minus\"",
        "id=1 name=\"uno\"",
    ];
    assert_eq!(rows(&bytes, "/v0/tables/Alpha/all"), expected);
    let iter = table_all_get(Database { file: &bytes }, "Alpha").unwrap().unwrap();
    assert_eq!(lines(&iter), expected);
    assert!(rows(&bytes, "/v0/tables/Beta/all").is_empty());
}

#[test]
fn every_type_of_field_is_read() {
    let bytes = file(&[sheet(
        b"T",
        &[
            (NOTHING, b"a"),
            (INTEGER, b"b"),
            (FLOAT, b"c"),
            (TEXT, b"d"),
            (BOOLEAN, b"e"),
            (BIG_INT, b"f"),
            (VAR_CHAR, b"g"),
        ],
        vec![vec![
            vec![
                Raw(NOTHING, 5),
                Int(i32::MIN),
                Float(-2.5),
                Text(b""),
                Raw(BOOLEAN, 7),
                Big(-3_000_000_000),
                Xml(b"x/"),
            ],
            vec![Int(1), Big(i64::MAX), Bool(false), Raw(NOTHING, 0)],
        ]],
    )]);
    assert_eq!(
        rows(&bytes, "/v0/tables/T/all"),
        vec![
            "a=nothing b=-2147483648 c=-2.5f d=\"\" e=true f=-3000000000L g=<x/>",
            "a=1 b=9223372036854775807L c=false d=nothing",
        ]
    );
}

#[test]
fn fields_without_a_column_are_not_shown() {
    let bytes = file(&[sheet(
        b"T",
        &[(INTEGER, b"a")],
        vec![vec![vec![Int(1), Int(2)], vec![]]],
    )]);
    assert_eq!(rows(&bytes, "/v0/tables/T/all"), vec!["a=1", ""]);
}

#[test]
fn the_last_value_of_a_name_stands_at_its_place() {
    let bytes = file(&[sheet(
        b"T",
        &[(INTEGER, b"a"), (INTEGER, b"b"), (INTEGER, b"a"), (INTEGER, b"c")],
        vec![vec![vec![Int(1), Int(2), Int(3), Int(4)]]],
    )]);
    assert_eq!(rows(&bytes, "/v0/tables/T/all"), vec!["b=2 a=3 c=4"]);
}

#[test]
fn rows_are_found_by_an_integer() {
    let bytes = sample();
    let one = vec!["id=1 name=\"one\"", "id=1 name=\"uno\""];
    assert_eq!(rows(&bytes, "/v0/tables/Alpha/1"), one);
    assert_eq!(rows(&bytes, "/v0/tables/Alpha/+01"), one);
    assert_eq!(rows(&bytes, "/v0/tables/Alpha/-1"), vec!["id=-1 name=\"minus\""]);
    assert_eq!(rows(&bytes, "/v0/tables/Alpha/2"), vec!["id=2 name=\"two\""]);
    assert!(rows(&bytes, "/v0/tables/Alpha/3").is_empty());
    let iter = table_key_json(Database { file: &bytes }, "Alpha", "1", None).unwrap().unwrap();
    assert_eq!(lines(&iter), one);
}

#[test]
fn a_key_of_another_type_is_not_there() {
    let bytes = sample();
    for key in ["", "one", "1.5", "99999999999"] {
        let r = response(&bytes, &format!("/v0/tables/Alpha/{}", key));
        assert_eq!((r.status, r.body.as_str()), (404, "null"));
    }
}

#[test]
fn rows_are_found_by_a_text_in_its_bucket() {
    let bytes = sample();
    assert_eq!(rows(&bytes, "/v0/tables/Gamma/key"), vec!["key=\"key\" first=true"]);
    assert!(rows(&bytes, "/v0/tables/Gamma/nothing").is_empty());
    let hash = FdbHash::hash("ä") as usize % 7;
    let mut buckets = vec![vec![], vec![], vec![], vec![], vec![], vec![], vec![]];
    buckets[hash].push(vec![Text(b"\xe4"), Int(1)]);
    let bytes = file(&[sheet(b"T", &[(TEXT, b"k"), (INTEGER, b"v")], buckets)]);
    match service(&bytes).try_call("/v0/tables/T/ä", None) {
        Some(Answer::Rows(iter)) => assert_eq!(iter.serialize().len(), 1),
        _ => panic!("rows were expected"),
    }
}

#[test]
fn rows_are_found_by_keys_of_other_types() {
    let bytes = file(&[
        sheet(
            b"Big",
            &[(BIG_INT, b"k")],
            vec![vec![vec![Big(1 << 33)]], vec![vec![Big(-1)], vec![Big((1 << 33) + 1)]]],
        ),
        sheet(b"Bool", &[(BOOLEAN, b"k")], vec![vec![vec![Bool(false)]], vec![vec![Bool(true)]]]),
        sheet(b"None", &[(NOTHING, b"k")], vec![vec![vec![Raw(NOTHING, 0)]], vec![]]),
        sheet(b"Xml", &[(VAR_CHAR, b"k")], vec![vec![vec![Xml(b"x")]]]),
    ]);
    assert_eq!(rows(&bytes, "/v0/tables/Big/8589934592"), vec!["k=8589934592L"]);
    assert_eq!(rows(&bytes, "/v0/tables/Big/-1"), vec!["k=-1L"]);
    assert_eq!(rows(&bytes, "/v0/tables/Bool/TRUE"), vec!["k=true"]);
    assert_eq!(rows(&bytes, "/v0/tables/Bool/0"), vec!["k=false"]);
    assert_eq!(rows(&bytes, "/v0/tables/None/anything"), vec!["k=nothing"]);
    assert_eq!(response(&bytes, "/v0/tables/Xml/x").body, "null");
}

#[test]
fn floats_are_found_in_the_bucket_of_their_bits() {
    let n = 2;
    let mut buckets = vec![vec![], vec![]];
    for x in [1.5f32, 0.0, -0.0, f32::NAN] {
        buckets[x.to_bits() as usize % n].push(vec![Float(x)]);
    }
    let bytes = file(&[sheet(b"T", &[(FLOAT, b"k")], buckets)]);
    assert_eq!(rows(&bytes, "/v0/tables/T/1.5"), vec!["k=1.5f"]);
    assert_eq!(rows(&bytes, "/v0/tables/T/0"), vec!["k=0f", "k=-0f"]);
    assert!(rows(&bytes, "/v0/tables/T/NaN").is_empty());
    assert_eq!(response(&bytes, "/v0/tables/T/x").status, 404);
    let bits = (-0.0f32).to_bits() as usize;
    let apart = vec![vec![], vec![], vec![vec![Float(-0.0)]]];
    assert_eq!(bits % 3, 2);
    let bytes = file(&[sheet(b"T", &[(FLOAT, b"k")], apart)]);
    assert!(rows(&bytes, "/v0/tables/T/0").is_empty());
    assert_eq!(rows(&bytes, "/v0/tables/T/-0"), vec!["k=-0f"]);
}

#[test]
fn rows_found_by_key_are_all_rows_with_that_key() {
    let mut buckets = vec![vec![], vec![], vec![]];
    for i in -6i32..7 {
        buckets[i as u32 as usize % 3].push(vec![Int(i), Int(i * i)]);
    }
    let bytes = file(&[sheet(b"T", &[(INTEGER, b"k"), (INTEGER, b"v")], buckets)]);
    let all = rows(&bytes, "/v0/tables/T/all");
    for i in -6i32..7 {
        let start = format!("k={} ", i);
        let mut expected = all.clone();
        expected.retain(|line| line.starts_with(&start));
        assert_eq!(expected.len(), 1);
        assert_eq!(rows(&bytes, &format!("/v0/tables/T/{}", i)), expected);
    }
}

#[test]
fn filtered_rows_come_one_by_one() {
    let bytes = sample();
    let iter = table_all_get(Database { file: &bytes }, "Alpha").unwrap().unwrap();
    let mut filtered = FilteredRowIter::new(iter.rows, Field::Integer(1));
    assert!(filtered.next().is_some());
    assert!(filtered.next().is_some());
    assert!(filtered.next().is_none());
    assert!(filtered.next().is_none());
    assert!(filtered.collect().is_empty());
}

// ---- Queries ----

fn wanted(names: &[&str]) -> Vec<String> {
    let mut all = Vec::new();
    for name in names {
        all.push((*name).to_owned());
    }
    all
}

fn queried(bytes: &[u8], table: &str, names: &[&str]) -> Vec<String> {
    match service(bytes).query(table, Some(&wanted(names))) {
        Some(Ok(Some(iter))) => lines(&iter),
        _ => panic!("rows were expected"),
    }
}

#[test]
fn queries_show_the_wanted_columns_in_the_order_of_the_table() {
    let bytes = file(&[sheet(
        b"T",
        &[(INTEGER, b"a"), (INTEGER, b"b"), (INTEGER, b"c")],
        vec![vec![vec![Int(1), Int(2), Int(3)], vec![Int(4), Int(5)]]],
    )]);
    assert_eq!(queried(&bytes, "T", &["c", "a"]), vec!["a=1 c=3", "a=4"]);
    assert_eq!(queried(&bytes, "T", &["x", "b"]), vec!["b=2", "b=5"]);
    assert_eq!(queried(&bytes, "T", &[]), vec!["", ""]);
    assert_eq!(queried(&bytes, "T", &["a", "b", "c"]), rows(&bytes, "/v0/tables/T/all"));
    let names = wanted(&["a"]);
    let iter = table_all_query(Database { file: &bytes }, "T", Some(&names)).unwrap().unwrap();
    assert_eq!(lines(&iter), vec!["a=1", "a=4"]);
}

#[test]
fn queries_are_read_with_the_type_of_the_key() {
    let bytes = sample();
    let s = service(&bytes);
    assert!(matches!(s.query_type("Alpha"), Some(Ok(Some(ValueType::Integer)))));
    assert!(matches!(s.query_type("Gamma"), Some(Ok(Some(ValueType::Text)))));
    assert!(matches!(s.query_type("Zeta"), Some(Ok(None))));
    assert!(matches!(s.query("Alpha", None), Some(Ok(None))));
    assert!(matches!(s.query("Zeta", Some(&wanted(&["id"]))), Some(Ok(None))));
    assert_eq!(table_key_type(s.db, "Alpha").unwrap(), Some(ValueType::Integer));
}

#[test]
fn unknown_names_and_the_order_of_names_do_not_matter() {
    let bytes = sample();
    let both = queried(&bytes, "Alpha", &["id", "name"]);
    assert_eq!(queried(&bytes, "Alpha", &["x", "name", "", "id", "id"]), both);
    assert_eq!(both, rows(&bytes, "/v0/tables/Alpha/all"));
    assert_eq!(queried(&bytes, "Alpha", &["x"]), vec![""; both.len()]);
}

// ---- Broken and damaged files ----

#[test]
fn files_that_are_too_short() {
    for bytes in [vec![], vec![0; 7]] {
        for path in ["/v0/tables", "/v0/tables/A", "/v0/tables/A/all", "/v0/tables/A/1"] {
            assert_eq!(error(&bytes, path), CastError::OutOfBounds { offset: 0 });
        }
        let s = service(&bytes);
        assert!(matches!(s.query_type("A"), Some(Err(CastError::OutOfBounds { offset: 0 }))));
        assert!(matches!(s.query("A", None), Some(Err(CastError::OutOfBounds { offset: 0 }))));
    }
}

#[test]
fn arrays_of_tables_that_lead_out_of_the_file() {
    let mut bytes = vec![0; 16];
    set(&mut bytes, 0, 2);
    set(&mut bytes, 4, 8);
    for path in ["/v0/tables", "/v0/tables/A", "/v0/tables/A/all", "/v0/tables/A/1"] {
        assert_eq!(error(&bytes, path), CastError::OutOfBounds { offset: 8 });
    }
}

#[test]
fn the_first_table_that_cannot_be_opened_is_reported() {
    let mut bytes = sample();
    set(&mut bytes, 8 + 8, 0x00ff_0000);
    set(&mut bytes, 8 + 16, 0x00fe_0000);
    assert_eq!(error(&bytes, "/v0/tables"), CastError::OutOfBounds { offset: 0x00ff_0000 });
    let mut bytes = sample();
    set(&mut bytes, 8 + 4, 0x00ff_0000);
    assert_eq!(error(&bytes, "/v0/tables"), CastError::OutOfBounds { offset: 0x00ff_0000 });
    let mut bytes = sample();
    let def = word(&bytes, 8);
    set(&mut bytes, def, 0x00ff_0000);
    let columns = word(&bytes, def + 8) as u32;
    assert_eq!(error(&bytes, "/v0/tables"), CastError::OutOfBounds { offset: columns });
    let mut bytes = sample();
    let data = word(&bytes, 12);
    set(&mut bytes, data, 0x00ff_0000);
    let buckets = word(&bytes, data + 4) as u32;
    assert_eq!(error(&bytes, "/v0/tables/Alpha"), CastError::OutOfBounds { offset: buckets });
    assert_eq!(error(&bytes, "/v0/tables/Alpha/all"), CastError::OutOfBounds { offset: buckets });
    assert_eq!(error(&bytes, "/v0/tables/Alpha/1"), CastError::OutOfBounds { offset: buckets });
    assert_eq!(definition(&bytes, "/v0/tables/Beta").name, "Beta");
}

#[test]
fn names_that_lead_out_of_the_file_are_damage() {
    let mut bytes = sample();
    let def = word(&bytes, 8);
    set(&mut bytes, def + 4, 0x00ff_0000);
    assert!(!listable(Database { file: &bytes }));
    for path in ["/v0/tables", "/v0/tables/Alpha", "/v0/tables/Beta", "/v0/tables/Beta/all"] {
        assert!(is_damaged(&bytes, path));
    }
    assert!(!is_damaged(&bytes, "/v0/openapi.json"));
}

#[test]
fn damaged_columns_concern_their_table_alone() {
    let mut bytes = sample();
    let columns = word(&bytes, word(&bytes, 8) + 8);
    set(&mut bytes, columns + 8, 2);
    for path in ["/v0/tables/Alpha", "/v0/tables/Alpha/all", "/v0/tables/Alpha/1"] {
        assert!(is_damaged(&bytes, path));
    }
    assert_eq!(response(&bytes, "/v0/tables/Alpha/one").body, "null");
    assert_eq!(response(&bytes, "/v0/tables").status, 200);
    assert_eq!(definition(&bytes, "/v0/tables/Beta").name, "Beta");
    let s = service(&bytes);
    assert!(matches!(s.query("Alpha", None), Some(Ok(None))));
    assert!(matches!(s.query_type("Alpha"), Some(Ok(Some(ValueType::Integer)))));
    assert!(s.query("Alpha", Some(&wanted(&["id"]))).is_none());
}

#[test]
fn damaged_rows_concern_their_bucket_alone() {
    let mut bytes = sample();
    let buckets = word(&bytes, word(&bytes, 12) + 4);
    set(&mut bytes, buckets, 0x00ff_0000);
    assert!(is_damaged(&bytes, "/v0/tables/Alpha/all"));
    assert!(is_damaged(&bytes, "/v0/tables/Alpha/2"));
    assert_eq!(rows(&bytes, "/v0/tables/Alpha/-1"), vec!["id=-1 name=\"minus\""]);
    assert_eq!(definition(&bytes, "/v0/tables/Alpha").name, "Alpha");
}

#[test]
fn lists_of_rows_without_an_end_are_damage() {
    let mut bytes = sample();
    let first = word(&bytes, word(&bytes, word(&bytes, 12) + 4));
    set(&mut bytes, first + 4, first as u32);
    assert!(is_damaged(&bytes, "/v0/tables/Alpha/all"));
    assert!(is_damaged(&bytes, "/v0/tables/Alpha/0"));
    assert!(!is_damaged(&bytes, "/v0/tables/Alpha/1"));
}

#[test]
fn damaged_fields_are_noticed() {
    let columns: [(u32, &'static [u8]); 2] = [(INTEGER, b"a"), (INTEGER, b"b")];
    for bad in [Raw(2, 0), Raw(9, 0), Raw(TEXT, 0x00ff_0000), Raw(BIG_INT, 0x00ff_0000)] {
        let bytes = file(&[sheet(b"T", &columns, vec![vec![vec![Int(1), bad]]])]);
        assert!(is_damaged(&bytes, "/v0/tables/T/all"));
        assert!(is_damaged(&bytes, "/v0/tables/T/1"));
        assert!(!is_damaged(&bytes, "/v0/tables/T"));
    }
    let bytes = file(&[sheet(b"T", &columns, vec![vec![vec![Raw(2, 0), Int(1)]]])]);
    assert!(is_damaged(&bytes, "/v0/tables/T/1"));
    let shown = file(&[sheet(b"T", &columns[..1], vec![vec![vec![Int(1), Raw(2, 0)]]])]);
    assert_eq!(rows(&shown, "/v0/tables/T/all"), vec!["a=1"]);
}

#[test]
fn damaged_fields_of_rows_with_other_keys_do_not_matter() {
    let columns: [(u32, &'static [u8]); 2] = [(BIG_INT, b"a"), (INTEGER, b"b")];
    let bytes = file(&[sheet(
        b"T",
        &columns,
        vec![vec![
            vec![Big(1), Int(5)],
            vec![Big(-2), Raw(2, 0)],
            vec![Int(1), Raw(2, 0)],
            vec![Float(1.0), Raw(9, 0)],
            vec![Text(b"1"), Raw(TEXT, 0x00ff_0000)],
            vec![Xml(b"1"), Raw(2, 0)],
            vec![Bool(true), Raw(2, 0)],
            vec![Raw(NOTHING, 1), Raw(2, 0)],
            vec![Big(1 << 32), Raw(2, 0)],
            vec![Big(1), Int(6)],
        ]],
    )]);
    assert_eq!(rows(&bytes, "/v0/tables/T/1"), vec!["a=1L b=5", "a=1L b=6"]);
    assert!(rows(&bytes, "/v0/tables/T/3").is_empty());
    assert!(is_damaged(&bytes, "/v0/tables/T/-2"));
    assert!(is_damaged(&bytes, "/v0/tables/T/4294967296"));
    assert!(is_damaged(&bytes, "/v0/tables/T/all"));
    for (ty, good, bad) in [
        (INTEGER, "/v0/tables/T/2", "/v0/tables/T/-1"),
        (TEXT, "/v0/tables/T/good", "/v0/tables/T/bad"),
        (FLOAT, "/v0/tables/T/1.5", "/v0/tables/T/-0"),
        (BOOLEAN, "/v0/tables/T/0", "/v0/tables/T/1"),
    ] {
        let key = |is_bad: bool| match (ty, is_bad) {
            (INTEGER, false) => Int(2),
            (INTEGER, true) => Int(-1),
            (TEXT, false) => Text(b"good"),
            (TEXT, true) => Text(b"bad"),
            (FLOAT, false) => Float(1.5),
            (FLOAT, true) => Float(0.0),
            (_, is_bad) => Bool(is_bad),
        };
        let bytes = file(&[sheet(
            b"T",
            &[(ty, b"a"), (INTEGER, b"b")],
            vec![vec![vec![key(true), Raw(2, 0)], vec![key(false), Int(7)]]],
        )]);
        assert_eq!(rows(&bytes, good).len(), 1);
        assert!(is_damaged(&bytes, bad));
    }
}

#[test]
fn damaged_fields_in_other_columns_do_not_matter_to_queries() {
    let bytes = file(&[sheet(
        b"T",
        &[(INTEGER, b"a"), (INTEGER, b"\xe4"), (INTEGER, b"c")],
        vec![
            vec![vec![Int(1), Raw(2, 0), Int(3)], vec![Raw(9, 0)]],
            vec![vec![Int(4), Int(5), Int(6)]],
        ],
    )]);
    assert_eq!(queried(&bytes, "T", &["c", "x"]), vec!["c=3", "", "c=6"]);
    assert_eq!(queried(&bytes, "T", &[]), vec!["", "", ""]);
    for names in [["a"], ["ä"]] {
        assert!(service(&bytes).query("T", Some(&wanted(&names))).is_none());
    }
    assert!(matches!(service(&bytes).query("T", None), Some(Ok(None))));
    assert!(matches!(service(&bytes).query_type("T"), Some(Ok(Some(ValueType::Integer)))));
    assert!(is_damaged(&bytes, "/v0/tables/T/all"));
}

#[test]
fn tables_without_a_key_have_no_rows_by_key() {
    let bytes = file(&[sheet(b"T", &[], vec![vec![vec![]]])]);
    assert!(is_damaged(&bytes, "/v0/tables/T/1"));
    assert!(service(&bytes).query_type("T").is_none());
    assert!(service(&bytes).query("T", None).is_none());
    assert!(service(&bytes).query("T", Some(&vec![])).is_none());
    assert_eq!(rows(&bytes, "/v0/tables/T/all"), vec![""]);
    let bytes = file(&[sheet(b"T", &[(INTEGER, b"a")], vec![])]);
    assert!(is_damaged(&bytes, "/v0/tables/T/1"));
    assert_eq!(response(&bytes, "/v0/tables/T/x").body, "null");
    let bytes = file(&[sheet(b"T", &[(INTEGER, b"a")], vec![vec![vec![]]])]);
    assert!(is_damaged(&bytes, "/v0/tables/T/1"));
}

#[test]
fn soundness_is_asked_part_by_part() {
    let bytes = sample();
    let db = Database { file: &bytes };
    for name in ["Alpha", "Zeta"] {
        assert!(is_sound(db, name, Part::Definition));
        assert!(is_sound(db, name, Part::Rows));
        assert!(is_sound(db, name, Part::KeyType));
        assert!(is_sound(db, name, Part::Query(&wanted(&["id"]))));
        assert!(is_sound(db, name, Part::Key("1", None)));
    }
    let empty = file(&[sheet(b"T", &[], vec![])]);
    let db = Database { file: &empty };
    assert!(is_sound(db, "T", Part::Rows));
    assert!(!is_sound(db, "T", Part::KeyType));
    assert!(!is_sound(db, "T", Part::Query(&vec![])));
    assert!(!is_sound(db, "T", Part::Key("1", None)));
}

#[test]
fn files_out_of_order_give_some_table_or_none() {
    let bytes = file(&[
        sheet(b"c", &[(INTEGER, b"x")], vec![]),
        sheet(b"b", &[(INTEGER, b"x")], vec![]),
        sheet(b"a", &[(INTEGER, b"x")], vec![]),
    ]);
    for name in ["a", "b", "c", "d"] {
        match service(&bytes).try_call(&format!("/v0/tables/{}", name), None) {
            Some(Answer::Definition(_)) => {}
            Some(Answer::Reply(r)) => assert_eq!(r.body, "null"),
            _ => panic!("a definition or nothing was expected"),
        }
    }
}

#[test]
fn calls_agree_on_one_of_several_tables_of_one_name() {
    let bytes = file(&[
        sheet(b"a", &[(INTEGER, b"w")], vec![vec![vec![Int(0)]]]),
        sheet(b"b", &[(INTEGER, b"x")], vec![vec![vec![Int(1)]]]),
        sheet(b"b", &[(INTEGER, b"y")], vec![vec![vec![Int(1)]]]),
        sheet(b"b", &[(INTEGER, b"z")], vec![vec![vec![Int(1)]]]),
    ]);
    let def = definition(&bytes, "/v0/tables/b");
    assert_eq!(def.name, "b");
    let line = format!("{}=1", def.columns[0].name);
    for _ in 0..3 {
        let again = definition(&bytes, "/v0/tables/b/def");
        assert_eq!(format!("{:?}", again), format!("{:?}", def));
        assert_eq!(rows(&bytes, "/v0/tables/b/all"), vec![line.as_str()]);
        assert_eq!(rows(&bytes, "/v0/tables/b/1"), vec![line.as_str()]);
        assert_eq!(queried(&bytes, "b", &["x", "y", "z"]), vec![line.as_str()]);
    }
}

// ---- The service ----

#[test]
fn requests_that_do_not_concern_tables() {
    let bytes = vec![];
    let s = service(&bytes);
    assert!(matches!(s.try_call("/v0/openapi.json", None), Some(Answer::OpenApi)));
    assert!(matches!(s.call("/v0/openapi.json", None), Answer::OpenApi));
    match s.call("/v0/locale/a/b", None) {
        Answer::Locale(mut rest) => {
            let rest: &mut Parts<'_> = &mut rest;
            assert_eq!(rest.next(), Some("a"));
            assert_eq!(rest.next(), Some("b"));
            assert_eq!(rest.next(), None);
        }
        _ => panic!("the locale was expected"),
    }
    assert_eq!((s.locale_root, s.openapi, s.db.file.len()), (1, 2, 0));
}

#[test]
fn requests_for_what_no_route_stands_for() {
    for bytes in [vec![], sample()] {
        for path in ["", "/", "/v0", "/v0/x", "/v2/tables", "/v0/tables/a/b/c"] {
            let r = response(&bytes, path);
            assert_eq!((r.status, r.body.as_str()), (404, "404"));
        }
    }
}

#[test]
fn calls_answer_alike() {
    let bytes = sample();
    let s = service(&bytes);
    match s.call("/v0/tables/Alpha/1", None) {
        Answer::Rows(iter) => assert_eq!(lines(&iter), rows(&bytes, "/v0/tables/Alpha/1")),
        _ => panic!("rows were expected"),
    }
    match s.clone().call("/v0/tables", None) {
        Answer::Reply(r) => assert_eq!(r.body, "[\"Alpha\",\"Beta\",\"Gamma\"]"),
        _ => panic!("a response was expected"),
    }
}

#[test]
fn requests_for_one_path_are_answered_alike() {
    let bytes = sample();
    for path in ["/v0/tables/Alpha/all", "/v0/tables/Alpha/1", "/v0/tables/Gamma/key"] {
        assert_eq!(rows(&bytes, path), rows(&bytes, path));
    }
    let plain = definition(&bytes, "/v0/tables/Gamma");
    let def = definition(&bytes, "/v0/tables/Gamma/def");
    assert_eq!(format!("{:?}", plain), format!("{:?}", def));
    let old = response(&bytes, "/v0/tables");
    let new = response(&bytes, "/v1/tables");
    assert_eq!(format!("{:?}", old), format!("{:?}", new));
}

#[test]
fn nodes_of_the_locale_tree_are_sent_as_asked() {
    type Service = ApiService<'static, u8, u8>;
    assert!(matches!(Service::locale(Some((7, Mode::All))), LocaleAnswer::All(7)));
    assert!(matches!(Service::locale(Some((8, Mode::Pod))), LocaleAnswer::Pod(8)));
    match Service::locale::<u8>(None) {
        LocaleAnswer::Reply(r) => assert_eq!((r.status, r.body.as_str()), (404, "404")),
        _ => panic!("a response was expected"),
    }
}

#[test]
fn errors_of_the_file_become_errors_of_the_service() {
    assert_eq!(db_api(Ok(3)).unwrap(), 3);
    let e = db_api::<u8>(Err(CastError::OutOfBounds { offset: 9 })).unwrap_err();
    assert_eq!((e.kind, e.error), (ErrorKind::Other, CastError::OutOfBounds { offset: 9 }));
}
