//! CSV to and from the JSON value model.
//!
//! Reading: the first CSV row is the header; every later row becomes an
//! object from header names to field texts. Writing: the keys of the first
//! object are the header; every object gives the row of its values under
//! those keys.

use vstd::prelude::*;
use crate::data::DataError;
use crate::json::{
    Json, Value, insert_member, json_of, json_of_items, json_of_members, json_wf, items_wf,
    keys_sorted, lemma_json_of_items, lemma_members_insert_values, lemma_json_of_members, lemma_members_insert_sorted,
    members_get, members_insert, members_wf, get_member, serde_json_compact, to_json_text,
    lemma_members_insert_last, lemma_members_get_sorted, key_lt,
};

verus! {

broadcast use vstd::std_specs::vec::group_vec_axioms, vstd::seq::group_seq_axioms;

/// A CSV reader over text in memory; what it holds is opaque.
#[verifier::external_type_specification]
#[verifier::external_body]
#[verifier::reject_recursive_types(R)]
pub struct ExCsvReader<R>(csv::Reader<R>);

/// An error of the CSV library; what it holds is opaque.
#[verifier::external_type_specification]
#[verifier::external_body]
pub struct ExCsvError(csv::Error);

/// The character texts of a sequence of strings.
pub open spec fn texts(v: Seq<String>) -> Seq<Seq<char>> {
    v.map_values(|s: String| s@)
}

/// The rows a CSV reader has still to yield, in order: the fields of a
/// record, or `None` for a record it rejects.
pub uninterp spec fn csv_pending(r: csv::Reader<&[u8]>) -> Seq<Option<Seq<Seq<char>>>>;

/// The rows the CSV library reads from a text with its default settings,
/// the first row included: the fields of each record, or `None` for a
/// record it rejects.
pub uninterp spec fn csv_rows(content: Seq<char>) -> Seq<Option<Seq<Seq<char>>>>;

/// The characters that force a CSV field into quotes: the delimiter, the
/// quote, and the record terminators.
pub open spec fn csv_special(c: char) -> bool {
    c == ',' || c == '"' || c == '\r' || c == '\n'
}

/// A field needs quotes when it holds a special character.
pub open spec fn csv_needs_quotes(f: Seq<char>) -> bool {
    exists|i: int| 0 <= i < f.len() && csv_special(#[trigger] f[i])
}

/// A field's text with each quote doubled.
pub open spec fn double_quotes(f: Seq<char>) -> Seq<char>
    decreases f.len(),
{
    if f.len() == 0 {
        Seq::empty()
    } else {
        double_quotes(f.drop_last()) + if f.last() == '"' { seq!['"', '"'] } else { seq![f.last()] }
    }
}

/// How a field is written: in quotes, quotes doubled, where it needs them;
/// as it is otherwise.
pub open spec fn csv_field(f: Seq<char>) -> Seq<char> {
    if csv_needs_quotes(f) {
        seq!['"'] + double_quotes(f) + seq!['"']
    } else {
        f
    }
}

/// The fields of a record, written and separated by commas.
pub open spec fn csv_joined(fields: Seq<Seq<char>>) -> Seq<char>
    decreases fields.len(),
{
    if fields.len() == 0 {
        Seq::empty()
    } else if fields.len() == 1 {
        csv_field(fields[0])
    } else {
        csv_joined(fields.drop_last()) + seq![','] + csv_field(fields.last())
    }
}

/// The text of one record as the CSV writer's defaults make it: the joined
/// fields, or a pair of quotes where they would be empty, then a newline.
pub open spec fn csv_record_text(fields: Seq<Seq<char>>) -> Seq<char> {
    let joined = csv_joined(fields);
    (if joined.len() == 0 { seq!['"', '"'] } else { joined }) + seq!['\n']
}

/// The text of a table as the CSV writer makes it: its records one after
/// the other.
pub open spec fn csv_table_text(recs: Seq<Seq<Seq<char>>>) -> Seq<char>
    decreases recs.len(),
{
    if recs.len() == 0 {
        Seq::empty()
    } else {
        csv_table_text(recs.drop_last()) + csv_record_text(recs.last())
    }
}

/// Records that all have as many fields as the first, at least one.
pub open spec fn uniform_records(recs: Seq<Seq<Seq<char>>>) -> bool {
    forall|i: int| 0 <= i < recs.len() ==> #[trigger] recs[i].len() == recs[0].len() && recs[i].len() > 0
}

/// The rows a reader yields when it accepts every record.
pub open spec fn accepted(recs: Seq<Seq<Seq<char>>>) -> Seq<Option<Seq<Seq<char>>>> {
    recs.map_values(|r: Seq<Seq<char>>| Some(r))
}

/// Whether a text begins with a byte-order mark (U+FEFF), which the CSV
/// reader drops from the start of its input.
pub open spec fn starts_with_bom(t: Seq<char>) -> bool {
    t.len() > 0 && t[0] == '\u{FEFF}'
}

/// Rows that give back, record for record, any table of uniform records
/// whose written text is `text`, unless that text begins with a
/// byte-order mark.
pub open spec fn reads_back(text: Seq<char>, rows: Seq<Option<Seq<Seq<char>>>>) -> bool {
    forall|recs: Seq<Seq<Seq<char>>>| #[trigger] csv_table_text(recs) == text && uniform_records(recs)
        && !starts_with_bom(text) ==> rows == accepted(recs)
}

/// What reading CSV gives for the tables the data conversions care about:
/// a table of strings written as CSV reads back as itself; rows forming a
/// uniform table under a header of distinct names in key order are
/// written back, through JSON, as the canonical text of those rows; and
/// text already in that canonical form comes back unchanged.
pub open spec fn csv_read_facts(content: Seq<char>, rows: Seq<Option<Seq<Seq<char>>>>) -> bool {
    &&& forall|v: Json| is_string_table(v) && !starts_with_bom(content)
        && #[trigger] spec_json_to_csv(v) == Ok::<Seq<char>, DataError>(content)
        ==> spec_csv_to_json(rows) == Some(v)
    &&& forall|recs: Seq<Seq<Seq<char>>>| #[trigger] accepted(recs) == rows && uniform_records(recs)
        && recs.len() >= 2 && keys_in_order(recs[0])
        ==> (spec_csv_to_json(rows) matches Some(j)
            && spec_json_to_csv(j) == Ok::<Seq<char>, DataError>(csv_table_text(recs)))
    &&& forall|recs: Seq<Seq<Seq<char>>>| #[trigger] csv_table_text(recs) == content && !starts_with_bom(content)
        && uniform_records(recs) && recs.len() >= 2 && keys_in_order(recs[0])
        ==> (spec_csv_to_json(rows) matches Some(j)
            && spec_json_to_csv(j) == Ok::<Seq<char>, DataError>(content))
}

proof fn lemma_csv_read_facts(content: Seq<char>, rows: Seq<Option<Seq<Seq<char>>>>)
    requires
        reads_back(content, rows),
    ensures
        csv_read_facts(content, rows),
{
    assert forall|v: Json| is_string_table(v) && !starts_with_bom(content)
        && #[trigger] spec_json_to_csv(v) == Ok::<Seq<char>, DataError>(content)
        implies spec_csv_to_json(rows) == Some(v) by {
        lemma_string_table_reads_back(v, content, rows);
    }
    assert forall|recs: Seq<Seq<Seq<char>>>| #[trigger] accepted(recs) == rows && uniform_records(recs)
        && recs.len() >= 2 && keys_in_order(recs[0])
        implies (spec_csv_to_json(rows) matches Some(j)
            && spec_json_to_csv(j) == Ok::<Seq<char>, DataError>(csv_table_text(recs))) by {
        lemma_canonical_csv_survives(recs, rows);
    }
    assert forall|recs: Seq<Seq<Seq<char>>>| #[trigger] csv_table_text(recs) == content && !starts_with_bom(content)
        && uniform_records(recs) && recs.len() >= 2 && keys_in_order(recs[0])
        implies (spec_csv_to_json(rows) matches Some(j)
            && spec_json_to_csv(j) == Ok::<Seq<char>, DataError>(content)) by {
        lemma_canonical_csv_survives(recs, rows);
    }
}

/// Opens a CSV reader on the text with `csv::ReaderBuilder` (defaults, but
/// the first row is read as an ordinary record so that it can be taken as
/// the header). The rows it will yield are `csv_rows` of the text.
/// Text that the CSV writer (default settings) made of records with equal,
/// non-zero field counts is read back record for record: `csv_core`'s
/// writer quotes every field holding the delimiter, the quote, `\r` or `\n`
/// and doubles the quotes inside, writes a lone empty field as `""` so that
/// no line is blank, and its reader, with the same defaults (no trimming,
/// no comment character, no escape but doubled quotes), undoes exactly that.
/// The one exception is a text that begins with a byte-order mark (U+FEFF):
/// `csv_core`'s reader strips that mark on its first read, so no clause is
/// given for such a text.
#[verifier::external_body]
fn csv_open<'a>(content: &'a str) -> (r: csv::Reader<&'a [u8]>)
    ensures
        csv_pending(r) == csv_rows(content@),
        reads_back(content@, csv_pending(r)),
{
    csv::ReaderBuilder::new().has_headers(false).from_reader(content.as_bytes())
}

/// Reads the next record with `csv::Reader::read_record`: the first row
/// still pending is consumed and returned, its fields as strings, or its
/// error; with no row left it reports the end.
#[verifier::external_body]
fn csv_next<'a>(r: &mut csv::Reader<&'a [u8]>) -> (res: Result<Option<Vec<String>>, csv::Error>)
    ensures
        csv_pending(*old(r)).len() == 0 ==> res matches Ok(None),
        csv_pending(*old(r)).len() > 0 ==> {
            &&& csv_pending(*final(r)) == csv_pending(*old(r)).drop_first()
            &&& match csv_pending(*old(r))[0] {
                Some(fields) => res matches Ok(Some(v)) && texts(v@) == fields,
                None => res is Err,
            }
        },
{
    let mut record = csv::StringRecord::new();
    match r.read_record(&mut record) {
        Ok(true) => Ok(Some(record.iter().map(|f| f.to_string()).collect())),
        Ok(false) => Ok(None),
        Err(e) => Err(e),
    }
}

/// The message of a CSV library error, as its `Display` writes it.
#[verifier::external_body]
fn csv_error_text(e: &csv::Error) -> String {
    e.to_string()
}

/// Writes one record with a fresh `csv::Writer` (default settings) into
/// memory and returns the text. By `csv_core`'s writer with those settings
/// (comma delimiter, `"` quote doubled to escape, `\n` terminator, quoting
/// where necessary), a field is quoted exactly when it holds a comma, a
/// quote, `\r` or `\n`, and an empty record is written as `""`. Writing into
/// memory cannot fail, and a single record cannot have a field count
/// different from itself.
#[verifier::external_body]
fn csv_record_line(fields: &Vec<String>) -> (r: String)
    ensures
        r@ == csv_record_text(texts(fields@)),
{
    let mut writer = csv::Writer::from_writer(Vec::new());
    let _ = writer.write_record(fields);
    String::from_utf8(writer.into_inner().unwrap_or_default()).unwrap_or_default()
}

/// The object a CSV row makes: header names paired with the fields, as far
/// as both reach, set one after the other (a repeated name keeps the last).
pub open spec fn row_members(header: Seq<Seq<char>>, fields: Seq<Seq<char>>, n: int) -> Seq<(Seq<char>, Json)>
    decreases n,
{
    if n <= 0 {
        Seq::empty()
    } else {
        members_insert(row_members(header, fields, n - 1), header[n - 1], Json::Str(fields[n - 1]))
    }
}

/// The object of one CSV record under a header.
pub open spec fn row_object(header: Seq<Seq<char>>, fields: Seq<Seq<char>>) -> Json {
    let n = if header.len() < fields.len() { header.len() } else { fields.len() };
    Json::Object(row_members(header, fields, n as int))
}

/// The objects of the records, or `None` if one of them was rejected.
pub open spec fn record_objects(header: Seq<Seq<char>>, records: Seq<Option<Seq<Seq<char>>>>) -> Option<Seq<Json>>
    decreases records.len(),
{
    if records.len() == 0 {
        Some(Seq::empty())
    } else {
        match (record_objects(header, records.drop_last()), records.last()) {
            (Some(objs), Some(fields)) => Some(objs.push(row_object(header, fields))),
            _ => None,
        }
    }
}

/// What reading CSV rows gives: an array with one object per record under
/// the header row, or `None` if the reader rejected a row. No rows at all
/// give an empty array.
pub open spec fn spec_csv_to_json(rows: Seq<Option<Seq<Seq<char>>>>) -> Option<Json> {
    if rows.len() == 0 {
        Some(Json::Array(Seq::empty()))
    } else {
        match rows[0] {
            None => None,
            Some(header) => match record_objects(header, rows.drop_first()) {
                Some(objs) => Some(Json::Array(objs)),
                None => None,
            },
        }
    }
}

/// The object of one record: each header name set to its field.
fn row_to_object(header: &Vec<String>, fields: &Vec<String>) -> (r: Value)
    ensures
        json_of(r) == row_object(texts(header@), texts(fields@)),
{
    let n = if header.len() < fields.len() { header.len() } else { fields.len() };
    let mut members: Vec<(String, Value)> = Vec::new();
    let mut i: usize = 0;
    while i < n
        invariant
            n <= header@.len(),
            n <= fields@.len(),
            n == (if header@.len() < fields@.len() { header@.len() } else { fields@.len() }),
            i <= n,
            json_of_members(members@) == row_members(texts(header@), texts(fields@), i as int),
        decreases n - i,
    {
        let key = header[i].clone();
        let text = fields[i].clone();
        insert_member(&mut members, key, Value::String(text));
        i = i + 1;
    }
    Value::Object(members)
}

/// Reads CSV text into an array of objects, one per record, keyed by the
/// header row. A row the reader rejects (one whose field count differs
/// from the header's) fails the conversion with the reader's message.
/// A table of strings that `json_to_csv` wrote reads back as itself, and
/// rows forming a uniform table under a header of distinct names in key
/// order are written back by `json_to_csv` as the canonical text of the
/// same rows (unchanged where the input already was that text).
pub fn csv_to_json(content: &str) -> (r: Result<Value, DataError>)
    ensures
        match spec_csv_to_json(csv_rows(content@)) {
            Some(j) => r matches Ok(v) && json_of(v) == j,
            None => r matches Err(DataError::Csv(_)),
        },
        forall|v: Json| is_string_table(v) && !starts_with_bom(content@)
            && #[trigger] spec_json_to_csv(v) == Ok::<Seq<char>, DataError>(content@)
            ==> (r matches Ok(w) && json_of(w) == v),
        forall|recs: Seq<Seq<Seq<char>>>| #[trigger] accepted(recs) == csv_rows(content@) && uniform_records(recs)
            && recs.len() >= 2 && keys_in_order(recs[0])
            ==> (r matches Ok(w) && spec_json_to_csv(json_of(w)) == Ok::<Seq<char>, DataError>(csv_table_text(recs))),
        forall|recs: Seq<Seq<Seq<char>>>| #[trigger] csv_table_text(recs) == content@ && !starts_with_bom(content@)
            && uniform_records(recs) && recs.len() >= 2 && keys_in_order(recs[0])
            ==> (r matches Ok(w) && spec_json_to_csv(json_of(w)) == Ok::<Seq<char>, DataError>(content@)),
{
    let mut reader = csv_open(content);
    let ghost rows = csv_rows(content@);
    proof {
        lemma_csv_read_facts(content@, rows);
    }
    let header = match csv_next(&mut reader) {
        Ok(Some(h)) => h,
        Ok(None) => {
            let empty: Vec<Value> = Vec::new();
            proof {
                assert(json_of_items(empty@) =~= Seq::<Json>::empty());
            }
            return Ok(Value::Array(empty));
        },
        Err(e) => return Err(DataError::Csv(csv_error_text(&e))),
    };
    let mut objects: Vec<Value> = Vec::new();
    let ghost mut k: int = 1;
    proof {
        assert(rows.drop_first().take(0) =~= Seq::<Option<Seq<Seq<char>>>>::empty());
        assert(json_of_items(objects@) =~= Seq::<Json>::empty());
    }
    loop
        invariant
            rows == csv_rows(content@),
            csv_read_facts(content@, rows),
            rows.len() > 0,
            rows[0] == Some(texts(header@)),
            1 <= k <= rows.len(),
            csv_pending(reader) == rows.skip(k),
            record_objects(texts(header@), rows.drop_first().take(k - 1)) == Some(json_of_items(objects@)),
        decreases rows.len() - k,
    {
        let ghost before = reader;
        match csv_next(&mut reader) {
            Ok(Some(fields)) => {
                proof {
                    assert(rows.skip(k)[0] == rows[k]);
                    assert(rows.drop_first().take(k).drop_last() =~= rows.drop_first().take(k - 1));
                    assert(rows.drop_first().take(k).last() == rows[k]);
                    assert(rows.skip(k).drop_first() =~= rows.skip(k + 1));
                }
                let obj = row_to_object(&header, &fields);
                let ghost prev = objects@;
                objects.push(obj);
                proof {
                    assert(objects@.drop_last() =~= prev);
                    assert(objects@.last() == obj);
                    assert(json_of_items(objects@) == json_of_items(prev).push(json_of(obj)));
                    assert(rows[k] == Some(texts(fields@)));
                    k = k + 1;
                }
            },
            Ok(None) => {
                proof {
                    assert(rows.skip(k).len() == 0);
                    assert(rows.drop_first().take(k - 1) =~= rows.drop_first());
                }
                return Ok(Value::Array(objects));
            },
            Err(e) => {
                proof {
                    assert(rows.skip(k)[0] == rows[k]);
                    assert(rows.drop_first().take(k).drop_last() =~= rows.drop_first().take(k - 1));
                    assert(rows.drop_first().take(k).last() == rows[k]);
                    lemma_record_objects_fails(texts(header@), rows.drop_first(), k);
                }
                return Err(DataError::Csv(csv_error_text(&e)));
            },
        }
    }
}

/// Once a record is rejected, the whole table is.
proof fn lemma_record_objects_fails(header: Seq<Seq<char>>, records: Seq<Option<Seq<Seq<char>>>>, k: int)
    requires
        1 <= k <= records.len(),
        record_objects(header, records.take(k)) is None,
    ensures
        record_objects(header, records) is None,
    decreases records.len() - k,
{
    if k < records.len() {
        assert(records.take(k + 1).drop_last() =~= records.take(k));
        lemma_record_objects_fails(header, records, k + 1);
    } else {
        assert(records.take(k) =~= records);
    }
}


/// The text of a value in a CSV cell: a string as it is, null as nothing,
/// anything else as its compact JSON text.
pub open spec fn spec_csv_cell(j: Json) -> Seq<char> {
    match j {
        Json::Str(s) => s,
        Json::Null => Seq::empty(),
        _ => serde_json_compact(j),
    }
}

/// The keys of an object's members, in order.
pub open spec fn member_keys(ms: Seq<(Seq<char>, Json)>) -> Seq<Seq<char>> {
    ms.map_values(|m: (Seq<char>, Json)| m.0)
}

/// The cell under a header name: the member's cell text, or nothing where
/// the object lacks the name.
pub open spec fn cell_under(ms: Seq<(Seq<char>, Json)>, h: Seq<char>) -> Seq<char> {
    match members_get(ms, h) {
        Some(v) => spec_csv_cell(v),
        None => Seq::empty(),
    }
}

/// The CSV record of an array element under a header, if it is an object.
pub open spec fn csv_record_of(header: Seq<Seq<char>>, j: Json) -> Option<Seq<Seq<char>>> {
    match j {
        Json::Object(ms) => Some(header.map_values(|h: Seq<char>| cell_under(ms, h))),
        _ => None,
    }
}

/// The text of the records of all array elements, or `None` if one of
/// them is not an object.
pub open spec fn csv_body(header: Seq<Seq<char>>, rows: Seq<Json>) -> Option<Seq<char>>
    decreases rows.len(),
{
    if rows.len() == 0 {
        Some(Seq::empty())
    } else {
        match (csv_body(header, rows.drop_last()), csv_record_of(header, rows.last())) {
            (Some(t), Some(rec)) => Some(t + csv_record_text(rec)),
            _ => None,
        }
    }
}

/// What writing a value as CSV gives: an array of objects becomes the
/// header (the keys of the first object) and one record per object.
pub open spec fn spec_json_to_csv(j: Json) -> Result<Seq<char>, DataError> {
    match j {
        Json::Array(rows) => if rows.len() == 0 {
            Ok(Seq::empty())
        } else {
            match rows[0] {
                Json::Object(ms) => match csv_body(member_keys(ms), rows) {
                    Some(t) => Ok(csv_record_text(member_keys(ms)) + t),
                    None => Err(DataError::CsvNonObject),
                },
                _ => Err(DataError::CsvNeedsObject),
            }
        },
        _ => Err(DataError::CsvNeedsArray),
    }
}

/// The text of a value in a CSV cell.
pub fn value_to_csv_cell(v: &Value) -> (r: String)
    ensures
        r@ == spec_csv_cell(json_of(*v)),
        json_of(*v) matches Json::Bool(b) ==> r@ == (if b { "true"@ } else { "false"@ }),
        json_of(*v) is Null ==> r@.len() == 0,
{
    match v {
        Value::String(s) => s.clone(),
        Value::Null => String::new(),
        _ => to_json_text(v),
    }
}

/// The keys of an object's members.
fn keys_of(members: &Vec<(String, Value)>) -> (r: Vec<String>)
    ensures
        texts(r@) == member_keys(json_of_members(members@)),
{
    proof {
        lemma_json_of_members(members@);
    }
    let mut keys: Vec<String> = Vec::new();
    let n = members.len();
    let mut i: usize = 0;
    while i < n
        invariant
            n == members@.len(),
            i <= n,
            json_of_members(members@).len() == n,
            forall|j: int| 0 <= j < n ==> #[trigger] json_of_members(members@)[j] == (members@[j].0@, json_of(members@[j].1)),
            keys@.len() == i,
            forall|j: int| 0 <= j < i ==> #[trigger] keys@[j]@ == members@[j].0@,
        decreases n - i,
    {
        keys.push(members[i].0.clone());
        i = i + 1;
    }
    proof {
        assert(texts(keys@) =~= member_keys(json_of_members(members@)));
    }
    keys
}

/// The record of an object under a header.
fn record_under(header: &Vec<String>, members: &Vec<(String, Value)>) -> (r: Vec<String>)
    ensures
        texts(r@) == texts(header@).map_values(|h: Seq<char>| cell_under(json_of_members(members@), h)),
{
    let mut cells: Vec<String> = Vec::new();
    let n = header.len();
    let mut i: usize = 0;
    while i < n
        invariant
            n == header@.len(),
            i <= n,
            cells@.len() == i,
            forall|j: int| 0 <= j < i ==> #[trigger] cells@[j]@ == cell_under(json_of_members(members@), header@[j]@),
        decreases n - i,
    {
        let cell = match get_member(members, header[i].as_str()) {
            Some(v) => value_to_csv_cell(v),
            None => String::new(),
        };
        cells.push(cell);
        i = i + 1;
    }
    proof {
        assert(texts(cells@) =~= texts(header@).map_values(|h: Seq<char>| cell_under(json_of_members(members@), h)));
    }
    cells
}

/// Writes an array of objects as CSV: the keys of the first object make
/// the header, and each object gives one record of its values under those
/// keys (empty where it lacks one).
pub fn json_to_csv(value: &Value) -> (r: Result<String, DataError>)
    ensures
        match (r, spec_json_to_csv(json_of(*value))) {
            (Ok(out), Ok(t)) => out@ == t,
            (Err(e), Err(f)) => e == f,
            _ => false,
        },
{
    let rows = match value {
        Value::Array(rows) => rows,
        _ => return Err(DataError::CsvNeedsArray),
    };
    proof {
        lemma_json_of_items(rows@);
    }
    let n = rows.len();
    if n == 0 {
        return Ok(String::new());
    }
    let header = match &rows[0] {
        Value::Object(ms) => keys_of(ms),
        _ => return Err(DataError::CsvNeedsObject),
    };
    let ghost h = texts(header@);
    let mut out = csv_record_line(&header);
    let ghost head = out@;
    let mut i: usize = 0;
    proof {
        assert(json_of_items(rows@).take(0) =~= Seq::<Json>::empty());
    }
    while i < n
        invariant
            n == rows@.len(),
            i <= n,
            *value == Value::Array(*rows),
            json_of_items(rows@).len() == n,
            forall|j: int| 0 <= j < n ==> #[trigger] json_of_items(rows@)[j] == json_of(rows@[j]),
            h == texts(header@),
            json_of(rows@[0]) matches Json::Object(m0) && member_keys(m0) == h,
            csv_body(h, json_of_items(rows@).take(i as int)) == Some(out@.subrange(head.len() as int, out@.len() as int)),
            out@.subrange(0, head.len() as int) == head,
            head.len() <= out@.len(),
        decreases n - i,
    {
        let ghost js = json_of_items(rows@);
        proof {
            assert(js.take(i + 1).drop_last() =~= js.take(i as int));
            assert(js.take(i + 1).last() == json_of(rows@[i as int]));
        }
        match &rows[i] {
            Value::Object(ms) => {
                let record = record_under(&header, ms);
                let line = csv_record_line(&record);
                let ghost before = out@;
                out.append(line.as_str());
                proof {
                    lemma_json_of_members(ms@);
                    assert(out@.subrange(head.len() as int, out@.len() as int)
                        =~= before.subrange(head.len() as int, before.len() as int) + line@);
                    assert(out@.subrange(0, head.len() as int) =~= before.subrange(0, head.len() as int));
                }
            },
            _ => {
                proof {
                    lemma_csv_body_fails(h, js, i as int + 1);
                }
                return Err(DataError::CsvNonObject);
            },
        }
        i = i + 1;
    }
    proof {
        let ghost js = json_of_items(rows@);
        assert(js.take(n as int) =~= js);
        assert(out@ =~= head + out@.subrange(head.len() as int, out@.len() as int));
        if let Value::Object(ms) = rows@[0] {
            assert(js[0] == json_of(rows@[0]));
        }
    }
    Ok(out)
}

/// Once an element is not an object, the whole array fails.
proof fn lemma_csv_body_fails(header: Seq<Seq<char>>, rows: Seq<Json>, k: int)
    requires
        1 <= k <= rows.len(),
        csv_body(header, rows.take(k)) is None,
    ensures
        csv_body(header, rows) is None,
    decreases rows.len() - k,
{
    if k < rows.len() {
        assert(rows.take(k + 1).drop_last() =~= rows.take(k));
        lemma_csv_body_fails(header, rows, k + 1);
    } else {
        assert(rows.take(k) =~= rows);
    }
}


/// An object of strings whose keys are `keys`, in key order, each once.
pub open spec fn string_object(o: Json, keys: Seq<Seq<char>>) -> bool {
    match o {
        Json::Object(ms) => keys_sorted(ms) && member_keys(ms) == keys
            && forall|i: int| 0 <= i < ms.len() ==> (#[trigger] ms[i]).1 is Str,
        _ => false,
    }
}

/// A table of strings: an array of objects holding strings under the same
/// keys (at least one, each once, in key order).
pub open spec fn is_string_table(j: Json) -> bool {
    match j {
        Json::Array(rows) => rows.len() > 0 ==> match rows[0] {
            Json::Object(m0) => m0.len() > 0
                && forall|i: int| 0 <= i < rows.len() ==> string_object(#[trigger] rows[i], member_keys(m0)),
            _ => false,
        },
        _ => false,
    }
}

/// The records `json_to_csv` writes for array elements under a header.
pub open spec fn table_records(header: Seq<Seq<char>>, rows: Seq<Json>) -> Seq<Seq<Seq<char>>> {
    rows.map_values(|o: Json| match csv_record_of(header, o) {
        Some(r) => r,
        None => Seq::<Seq<char>>::empty(),
    })
}

proof fn lemma_csv_body_table(header: Seq<Seq<char>>, rows: Seq<Json>)
    requires
        forall|i: int| 0 <= i < rows.len() ==> #[trigger] rows[i] is Object,
    ensures
        csv_body(header, rows) == Some(csv_table_text(table_records(header, rows))),
    decreases rows.len(),
{
    if rows.len() > 0 {
        let p = rows.drop_last();
        assert forall|i: int| 0 <= i < p.len() implies #[trigger] p[i] is Object by {
            assert(p[i] == rows[i]);
        }
        lemma_csv_body_table(header, p);
        let recs = table_records(header, rows);
        assert(recs.drop_last() =~= table_records(header, p));
        assert(rows.last() == rows[rows.len() - 1]);
        assert(recs.last() == recs[rows.len() - 1]);
    } else {
        assert(table_records(header, rows) =~= Seq::<Seq<Seq<char>>>::empty());
    }
}

proof fn lemma_table_text_prepend(h: Seq<Seq<char>>, recs: Seq<Seq<Seq<char>>>)
    ensures
        csv_table_text(seq![h] + recs) == csv_record_text(h) + csv_table_text(recs),
    decreases recs.len(),
{
    let s = seq![h] + recs;
    if recs.len() == 0 {
        assert(s.drop_last() =~= Seq::<Seq<Seq<char>>>::empty());
        assert(s.last() == h);
        assert(csv_table_text(s.drop_last()) =~= Seq::<char>::empty());
        assert(csv_table_text(recs) =~= Seq::<char>::empty());
        assert(csv_record_text(h) + csv_table_text(recs) =~= csv_record_text(h));
        assert(Seq::<char>::empty() + csv_record_text(h) =~= csv_record_text(h));
    } else {
        lemma_table_text_prepend(h, recs.drop_last());
        assert(s.drop_last() =~= seq![h] + recs.drop_last());
        assert(s.last() == recs.last());
        assert(csv_record_text(h) + csv_table_text(recs.drop_last()) + csv_record_text(recs.last())
            =~= csv_record_text(h) + (csv_table_text(recs.drop_last()) + csv_record_text(recs.last())));
    }
}

proof fn lemma_row_members_take(ms: Seq<(Seq<char>, Json)>, fields: Seq<Seq<char>>, k: int)
    requires
        keys_sorted(ms),
        0 <= k <= ms.len(),
        forall|j: int| 0 <= j < ms.len() ==> Json::Str(#[trigger] fields[j]) == ms[j].1,
    ensures
        row_members(member_keys(ms), fields, k) == ms.take(k),
    decreases k,
{
    if k > 0 {
        lemma_row_members_take(ms, fields, k - 1);
        let p = ms.take(k - 1);
        assert(member_keys(ms)[k - 1] == ms[k - 1].0);
        assert(Json::Str(fields[k - 1]) == ms[k - 1].1);
        assert forall|j: int| 0 <= j < p.len() implies key_lt(#[trigger] p[j].0, ms[k - 1].0) by {
            assert(p[j] == ms[j]);
        }
        lemma_members_insert_last(p, ms[k - 1].0, ms[k - 1].1);
        assert(p.push((ms[k - 1].0, ms[k - 1].1)) =~= ms.take(k));
    } else {
        assert(ms.take(0) =~= Seq::<(Seq<char>, Json)>::empty());
    }
}

/// An object of strings is what reading its own record under its own keys makes.
proof fn lemma_row_object_of_string_object(o: Json, header: Seq<Seq<char>>)
    requires
        string_object(o, header),
    ensures
        csv_record_of(header, o) matches Some(rec) && rec.len() == header.len() && row_object(header, rec) == o,
{
    if let Json::Object(ms) = o {
        let rec = header.map_values(|h: Seq<char>| cell_under(ms, h));
        assert forall|j: int| 0 <= j < ms.len() implies Json::Str(#[trigger] rec[j]) == ms[j].1 by {
            assert(header[j] == ms[j].0);
            lemma_members_get_sorted(ms, j);
            assert(ms[j].1 is Str);
        }
        lemma_row_members_take(ms, rec, ms.len() as int);
        assert(ms.take(ms.len() as int) =~= ms);
    }
}

proof fn lemma_record_objects_table(header: Seq<Seq<char>>, rows: Seq<Json>)
    requires
        forall|i: int| 0 <= i < rows.len() ==> string_object(#[trigger] rows[i], header),
    ensures
        record_objects(header, accepted(table_records(header, rows))) == Some(rows),
    decreases rows.len(),
{
    let x = accepted(table_records(header, rows));
    if rows.len() > 0 {
        let p = rows.drop_last();
        assert forall|i: int| 0 <= i < p.len() implies string_object(#[trigger] p[i], header) by {
            assert(p[i] == rows[i]);
        }
        lemma_record_objects_table(header, p);
        assert(x.drop_last() =~= accepted(table_records(header, p)));
        let o = rows[rows.len() - 1];
        assert(string_object(o, header));
        lemma_row_object_of_string_object(o, header);
        assert(x.last() == x[rows.len() - 1]);
        assert(p.push(o) =~= rows);
    } else {
        assert(x =~= Seq::<Option<Seq<Seq<char>>>>::empty());
        assert(rows =~= Seq::<Json>::empty());
    }
}

/// CSV that the writer made of a table of strings, read by a reader that
/// gives back what the writer wrote, is that table again.
proof fn lemma_string_table_reads_back(v: Json, t: Seq<char>, rows: Seq<Option<Seq<Seq<char>>>>)
    requires
        is_string_table(v),
        spec_json_to_csv(v) == Ok::<Seq<char>, DataError>(t),
        reads_back(t, rows),
        !starts_with_bom(t),
    ensures
        spec_csv_to_json(rows) == Some(v),
{
    if let Json::Array(items) = v {
        if items.len() == 0 {
            let recs = Seq::<Seq<Seq<char>>>::empty();
            assert(csv_table_text(recs) == t);
            assert(uniform_records(recs));
            assert(accepted(recs) =~= Seq::<Option<Seq<Seq<char>>>>::empty());
            assert(items =~= Seq::<Json>::empty());
        } else if let Json::Object(m0) = items[0] {
            let header = member_keys(m0);
            assert forall|i: int| 0 <= i < items.len() implies #[trigger] items[i] is Object by {
                assert(string_object(items[i], header));
            }
            lemma_csv_body_table(header, items);
            let body = table_records(header, items);
            let recs = seq![header] + body;
            lemma_table_text_prepend(header, body);
            assert(csv_table_text(recs) == t);
            assert forall|i: int| 0 <= i < recs.len() implies #[trigger] recs[i].len() == recs[0].len() && recs[i].len() > 0 by {
                assert(recs[0] == header);
                if i > 0 {
                    assert(recs[i] == body[i - 1]);
                    assert(string_object(items[i - 1], header));
                    lemma_row_object_of_string_object(items[i - 1], header);
                }
            }
            assert(rows == accepted(recs));
            assert(rows[0] == Some(header));
            assert(rows.drop_first() =~= accepted(body));
            lemma_record_objects_table(header, items);
        }
    }
}

/// Header names that are distinct and in key order.
pub open spec fn keys_in_order(h: Seq<Seq<char>>) -> bool {
    forall|i: int, j: int| 0 <= i < j < h.len() ==> key_lt(#[trigger] h[i], #[trigger] h[j])
}

/// The members a record makes under a header: each name with its field.
pub open spec fn zip_members(header: Seq<Seq<char>>, fields: Seq<Seq<char>>) -> Seq<(Seq<char>, Json)> {
    Seq::new(header.len(), |j: int| (header[j], Json::Str(fields[j])))
}

/// The objects records make under a header.
pub open spec fn zip_objects(header: Seq<Seq<char>>, body: Seq<Seq<Seq<char>>>) -> Seq<Json> {
    body.map_values(|f: Seq<Seq<char>>| Json::Object(zip_members(header, f)))
}

proof fn lemma_row_object_in_order(header: Seq<Seq<char>>, fields: Seq<Seq<char>>)
    requires
        keys_in_order(header),
        fields.len() == header.len(),
    ensures
        row_object(header, fields) == Json::Object(zip_members(header, fields)),
        csv_record_of(header, Json::Object(zip_members(header, fields))) == Some(fields),
{
    let z = zip_members(header, fields);
    assert(keys_sorted(z)) by {
        assert forall|a: int, b: int| 0 <= a < b < z.len() implies key_lt(#[trigger] z[a].0, #[trigger] z[b].0) by {
            assert(z[a].0 == header[a]);
            assert(z[b].0 == header[b]);
        }
    }
    assert(member_keys(z) =~= header);
    lemma_row_members_take(z, fields, z.len() as int);
    assert(z.take(z.len() as int) =~= z);
    let cells = header.map_values(|h: Seq<char>| cell_under(z, h));
    assert forall|j: int| 0 <= j < header.len() implies #[trigger] cells[j] == fields[j] by {
        lemma_members_get_sorted(z, j);
        assert(z[j] == (header[j], Json::Str(fields[j])));
    }
    assert(cells =~= fields);
}

proof fn lemma_record_objects_in_order(header: Seq<Seq<char>>, body: Seq<Seq<Seq<char>>>)
    requires
        keys_in_order(header),
        forall|i: int| 0 <= i < body.len() ==> (#[trigger] body[i]).len() == header.len(),
    ensures
        record_objects(header, accepted(body)) == Some(zip_objects(header, body)),
    decreases body.len(),
{
    let x = accepted(body);
    if body.len() > 0 {
        let p = body.drop_last();
        assert forall|i: int| 0 <= i < p.len() implies (#[trigger] p[i]).len() == header.len() by {
            assert(p[i] == body[i]);
        }
        lemma_record_objects_in_order(header, p);
        assert(x.drop_last() =~= accepted(p));
        assert(x.last() == x[body.len() - 1]);
        let f = body[body.len() - 1];
        lemma_row_object_in_order(header, f);
        assert(zip_objects(header, p).push(Json::Object(zip_members(header, f))) =~= zip_objects(header, body));
    } else {
        assert(x =~= Seq::<Option<Seq<Seq<char>>>>::empty());
        assert(zip_objects(header, body) =~= Seq::<Json>::empty());
    }
}

/// CSV text made of at least one record under a header whose names are
/// distinct and in key order reads into objects that are written back as
/// the same text.
proof fn lemma_canonical_csv_survives(recs: Seq<Seq<Seq<char>>>, rows: Seq<Option<Seq<Seq<char>>>>)
    requires
        uniform_records(recs),
        recs.len() >= 2,
        keys_in_order(recs[0]),
        rows == accepted(recs),
    ensures
        spec_csv_to_json(rows) == Some(Json::Array(zip_objects(recs[0], recs.drop_first()))),
        spec_json_to_csv(Json::Array(zip_objects(recs[0], recs.drop_first())))
            == Ok::<Seq<char>, DataError>(csv_table_text(recs)),
{
    let header = recs[0];
    let body = recs.drop_first();
    let objs = zip_objects(header, body);
    assert forall|i: int| 0 <= i < body.len() implies (#[trigger] body[i]).len() == header.len() by {
        assert(body[i] == recs[i + 1]);
    }
    assert(rows[0] == Some(header));
    assert(rows.drop_first() =~= accepted(body));
    lemma_record_objects_in_order(header, body);
    assert forall|i: int| 0 <= i < objs.len() implies #[trigger] objs[i] is Object by {
    }
    lemma_csv_body_table(header, objs);
    assert(table_records(header, objs) =~= body) by {
        assert forall|i: int| 0 <= i < body.len() implies #[trigger] table_records(header, objs)[i] == body[i] by {
            lemma_row_object_in_order(header, body[i]);
        }
    }
    lemma_row_object_in_order(header, body[0]);
    assert(member_keys(zip_members(header, body[0])) =~= header);
    lemma_table_text_prepend(header, body);
    assert(seq![header] + body =~= recs);
}

/// Every member of a row object holds a string.
proof fn lemma_row_members_wf(header: Seq<Seq<char>>, fields: Seq<Seq<char>>, n: int)
    ensures
        keys_sorted(row_members(header, fields, n)),
        forall|i: int| 0 <= i < row_members(header, fields, n).len()
            ==> (#[trigger] row_members(header, fields, n)[i]).1 is Str,
    decreases n,
{
    if n > 0 {
        let ms = row_members(header, fields, n - 1);
        lemma_row_members_wf(header, fields, n - 1);
        lemma_members_insert_sorted(ms, header[n - 1], Json::Str(fields[n - 1]));
        lemma_members_insert_values(ms, header[n - 1], Json::Str(fields[n - 1]));
    }
}

/// Members that all hold strings are well formed.
proof fn lemma_string_members_wf(ms: Seq<(Seq<char>, Json)>)
    requires
        forall|i: int| 0 <= i < ms.len() ==> (#[trigger] ms[i]).1 is Str,
    ensures
        members_wf(ms),
    decreases ms.len(),
{
    if ms.len() > 0 {
        let p = ms.drop_last();
        assert forall|i: int| 0 <= i < p.len() implies (#[trigger] p[i]).1 is Str by {
            assert(p[i] == ms[i]);
        }
        lemma_string_members_wf(p);
        assert(ms.last().1 is Str);
        assert(json_wf(ms.last().1));
    }
}

/// The objects of the records are all well formed.
proof fn lemma_record_objects_wf(header: Seq<Seq<char>>, records: Seq<Option<Seq<Seq<char>>>>)
    ensures
        record_objects(header, records) matches Some(objs) ==> items_wf(objs),
    decreases records.len(),
{
    if records.len() > 0 {
        lemma_record_objects_wf(header, records.drop_last());
        if let (Some(objs), Some(fields)) = (record_objects(header, records.drop_last()), records.last()) {
            let n = if header.len() < fields.len() { header.len() } else { fields.len() };
            lemma_row_members_wf(header, fields, n as int);
            lemma_string_members_wf(row_members(header, fields, n as int));
            let o = row_object(header, fields);
            let all = objs.push(o);
            assert(all.drop_last() =~= objs);
            assert(all.last() == o);
            assert(json_wf(o));
            assert(items_wf(all));
        }
    }
}

/// CSV read into JSON gives an array of objects with sorted keys, each key
/// once, holding strings: what the JSON library's map makes of the rows.
pub proof fn lemma_csv_to_json_well_formed(rows: Seq<Option<Seq<Seq<char>>>>)
    ensures
        spec_csv_to_json(rows) matches Some(j) ==> j is Array && json_wf(j),
{
    if rows.len() > 0 {
        if let Some(header) = rows[0] {
            lemma_record_objects_wf(header, rows.drop_first());
        }
    }
}

/// A string cell is the string itself; null is an empty cell.
pub proof fn lemma_csv_cell_of_string(s: Seq<char>)
    ensures
        spec_csv_cell(Json::Str(s)) == s,
        spec_csv_cell(Json::Null) == Seq::<char>::empty(),
{
}

/// What a CSV cell holds: a string as it is, nothing for null, and for
/// every other value (booleans, numbers, arrays, objects) its compact JSON
/// text.
pub proof fn lemma_csv_cells(j: Json)
    ensures
        j matches Json::Str(s) ==> spec_csv_cell(j) == s,
        j is Null ==> spec_csv_cell(j).len() == 0,
        !(j is Str) && !(j is Null) ==> spec_csv_cell(j) == serde_json_compact(j),
{
}

/// The record written for an object under a header has one field per
/// header name, in order: the cell of the member with that name, or an
/// empty field where the object has none.
pub proof fn lemma_csv_record_fields(header: Seq<Seq<char>>, ms: Seq<(Seq<char>, Json)>)
    ensures
        csv_record_of(header, Json::Object(ms)) matches Some(rec) && rec.len() == header.len()
            && forall|i: int| 0 <= i < header.len() ==> #[trigger] rec[i] == match members_get(ms, header[i]) {
                Some(v) => spec_csv_cell(v),
                None => Seq::<char>::empty(),
            },
{
}

proof fn lemma_csv_body_objects(header: Seq<Seq<char>>, rows: Seq<Json>)
    ensures
        csv_body(header, rows) is Some <==> forall|i: int| 0 <= i < rows.len() ==> #[trigger] rows[i] is Object,
    decreases rows.len(),
{
    if rows.len() > 0 {
        let p = rows.drop_last();
        lemma_csv_body_objects(header, p);
        assert forall|i: int| 0 <= i < p.len() implies #[trigger] p[i] == rows[i] by {}
        assert(rows.last() == rows[rows.len() - 1]);
        assert(csv_record_of(header, rows.last()) is Some <==> rows.last() is Object);
        if csv_body(header, rows) is Some {
            assert forall|i: int| 0 <= i < rows.len() implies #[trigger] rows[i] is Object by {
                if i < p.len() {
                    assert(p[i] is Object);
                }
            }
        }
        if forall|i: int| 0 <= i < rows.len() ==> #[trigger] rows[i] is Object {
            assert forall|i: int| 0 <= i < p.len() implies #[trigger] p[i] is Object by {
                assert(rows[i] is Object);
            }
            assert(rows[rows.len() - 1] is Object);
        }
    }
}

/// What writing a value as CSV gives: anything but an array is refused;
/// an empty array is the empty text; an array whose first element is not
/// an object is refused; an array of objects is the header made of the
/// first object's keys, then one record per object under that header, in
/// order; an array of objects and other values is refused.
pub proof fn lemma_json_to_csv_cases(j: Json)
    ensures
        !(j is Array) ==> spec_json_to_csv(j) == Err::<Seq<char>, DataError>(DataError::CsvNeedsArray),
        j matches Json::Array(rows) ==> (rows.len() == 0
            ==> spec_json_to_csv(j) == Ok::<Seq<char>, DataError>(Seq::empty())),
        j matches Json::Array(rows) ==> ((rows.len() > 0 && !(rows[0] is Object))
            ==> spec_json_to_csv(j) == Err::<Seq<char>, DataError>(DataError::CsvNeedsObject)),
        j matches Json::Array(rows) ==> ((rows.len() > 0 && rows[0] is Object)
            ==> (if forall|i: int| 0 <= i < rows.len() ==> #[trigger] rows[i] is Object {
                spec_json_to_csv(j) == Ok::<Seq<char>, DataError>(
                    csv_record_text(member_keys(rows[0]->Object_0))
                    + csv_table_text(table_records(member_keys(rows[0]->Object_0), rows)))
            } else {
                spec_json_to_csv(j) == Err::<Seq<char>, DataError>(DataError::CsvNonObject)
            })),
{
    if let Json::Array(rows) = j {
        if rows.len() > 0 {
            if let Json::Object(ms) = rows[0] {
                lemma_csv_body_objects(member_keys(ms), rows);
                if forall|i: int| 0 <= i < rows.len() ==> #[trigger] rows[i] is Object {
                    lemma_csv_body_table(member_keys(ms), rows);
                }
            }
        }
    }
}

} // verus!
