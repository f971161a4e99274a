//! Tables: CSV read and written by the csv crate, TSV, and JSON arrays of
//! objects.
use vstd::prelude::*;
use vstd::utf8::*;
use crate::config_formats::{find_key, key_position, lemma_key_position, map_insert, object_insert};
use crate::json::{
    Json, JsonValue, compact_json, entries_view, items_view, json_compact, json_parse, json_pretty,
    lemma_json_array, lemma_json_object, number_in, parse_json, pretty_json, read_number,
};
use crate::pdf_text::{dec, dec_chars, str_lines, text_lines, views};
use crate::text::{
    bytes_view, decode_text, extend_chars, index_of, prefixed, push_str, str_chars,
    string_from_chars, utf8_bytes, utf8_failure,
};

verus! {

/// A list of records seen as plain values.
pub open spec fn record_view(r: Seq<Vec<char>>) -> Seq<Seq<char>> {
    r.map_values(|f: Vec<char>| f@)
}

// ── Reading CSV ─────────────────────────────────────────────────

/// A `csv::Reader` over bytes in memory, with default settings: a header
/// row, `,` between fields, and records of equal length. The reader's
/// buffered input keeps Verus from reading its type, so it stays behind this
/// struct.
#[verifier::external_body]
pub struct CsvInput {
    rdr: csv::Reader<std::io::Cursor<Vec<u8>>>,
}

/// The bytes a CSV reader reads.
pub uninterp spec fn csv_input_source(r: CsvInput) -> Seq<u8>;

/// How many times a CSV reader has been asked for the next record.
pub uninterp spec fn csv_input_taken(r: CsvInput) -> nat;

/// What `csv::Reader::headers` gives for `src`: the fields of the header
/// row, or the display text of its error.
pub uninterp spec fn csv_headers(src: Seq<u8>) -> Result<Seq<Seq<char>>, Seq<char>>;

/// What the `k`-th call of `csv::Reader::read_record` gives for `src`:
/// `None` at the end, else the fields of the record or the display text of
/// the error met reading it.
pub uninterp spec fn csv_record(src: Seq<u8>, k: nat) -> Option<Result<Seq<Seq<char>>, Seq<char>>>;

/// The number of results the reader yields for `src` before it reports the
/// end.
pub uninterp spec fn csv_record_count(src: Seq<u8>) -> nat;

/// A record result seen as plain values.
pub open spec fn record_result_view(r: Result<Vec<Vec<char>>, String>) -> Result<Seq<Seq<char>>, Seq<char>> {
    match r {
        Ok(v) => Ok(record_view(v@)),
        Err(e) => Err(e@),
    }
}

/// Calls `csv::Reader::from_reader` on a cursor over a copy of the bytes.
#[verifier::external_body]
fn csv_input_new(input: &[u8]) -> (r: CsvInput)
    ensures
        csv_input_source(r) == input@,
        csv_input_taken(r) == 0,
{
    CsvInput { rdr: csv::Reader::from_reader(std::io::Cursor::new(input.to_vec())) }
}

/// Calls `csv::Reader::headers` and hands back the fields; the error as its
/// display text.
#[verifier::external_body]
fn csv_read_headers(r: &mut CsvInput) -> (res: Result<Vec<Vec<char>>, String>)
    ensures
        csv_input_source(*final(r)) == csv_input_source(*old(r)),
        csv_input_taken(*final(r)) == csv_input_taken(*old(r)),
        record_result_view(res) == csv_headers(csv_input_source(*old(r))),
{
    match r.rdr.headers() {
        Ok(h) => Ok(h.iter().map(|f| f.chars().collect()).collect()),
        Err(e) => Err(e.to_string()),
    }
}

/// Calls `csv::Reader::read_record`: `Ok(true)` hands back the record's
/// fields, `Ok(false)` is the end (`None`), the error its display text. The
/// reader yields one result per record and then reports the end on every
/// call.
#[verifier::external_body]
fn csv_next_record(r: &mut CsvInput) -> (res: Option<Result<Vec<Vec<char>>, String>>)
    ensures
        csv_input_source(*final(r)) == csv_input_source(*old(r)),
        csv_input_taken(*final(r)) == csv_input_taken(*old(r)) + 1,
        res is None <==> csv_input_taken(*old(r)) >= csv_record_count(csv_input_source(*old(r))),
        res is None ==> csv_record(csv_input_source(*old(r)), csv_input_taken(*old(r))) is None,
        res matches Some(x) ==> csv_record(csv_input_source(*old(r)), csv_input_taken(*old(r)))
            == Some(record_result_view(x)),
{
    let mut record = csv::StringRecord::new();
    match r.rdr.read_record(&mut record) {
        Ok(true) => Some(Ok(record.iter().map(|f| f.chars().collect()).collect())),
        Ok(false) => None,
        Err(e) => Some(Err(e.to_string())),
    }
}

// ── Writing CSV ─────────────────────────────────────────────────

/// A `csv::Writer` into memory, with default settings. The writer's trait
/// bounds keep Verus from reading its type, so it stays behind this struct.
#[verifier::external_body]
pub struct CsvOutput {
    wtr: csv::Writer<Vec<u8>>,
}

/// The records written so far.
pub uninterp spec fn csv_output_records(w: CsvOutput) -> Seq<Seq<Seq<char>>>;

/// The display text of the error with which `csv::Writer::write_record`
/// refuses `record` after the records `done`, or `None` where it writes it.
pub uninterp spec fn csv_write_error(done: Seq<Seq<Seq<char>>>, record: Seq<Seq<char>>) -> Option<Seq<char>>;

/// What `csv::Writer::into_inner` gives after the records `done`: the CSV
/// bytes, or the display text of its error.
pub uninterp spec fn csv_output_bytes(done: Seq<Seq<Seq<char>>>) -> Result<Seq<u8>, Seq<char>>;

/// Calls `csv::Writer::from_writer` on an empty vector.
#[verifier::external_body]
fn csv_output_new() -> (w: CsvOutput)
    ensures
        csv_output_records(w) == Seq::<Seq<Seq<char>>>::empty(),
{
    CsvOutput { wtr: csv::Writer::from_writer(Vec::new()) }
}

/// Calls `csv::Writer::write_record` with the fields as strings.
#[verifier::external_body]
fn csv_write(w: &mut CsvOutput, record: &Vec<Vec<char>>) -> (res: Result<(), String>)
    ensures
        res is Ok <==> csv_write_error(csv_output_records(*old(w)), record_view(record@)) is None,
        res matches Err(m) ==> csv_write_error(csv_output_records(*old(w)), record_view(record@))
            == Some(m@),
        res is Ok ==> csv_output_records(*final(w)) == csv_output_records(*old(w)).push(
            record_view(record@),
        ),
{
    let fields: Vec<String> = record.iter().map(|f| f.iter().collect()).collect();
    w.wtr.write_record(&fields).map_err(|e| e.to_string())
}

/// Calls `csv::Writer::into_inner`, which flushes the writer.
#[verifier::external_body]
fn csv_into_bytes(w: CsvOutput) -> (res: Result<Vec<u8>, String>)
    ensures
        bytes_view(res) == csv_output_bytes(csv_output_records(w)),
{
    w.wtr.into_inner().map_err(|e| e.to_string())
}

/// Writes the records in order; the first refusal ends the writing.
pub open spec fn write_failure(records: Seq<Seq<Seq<char>>>, n: nat) -> Option<Seq<char>>
    decreases n,
{
    if n == 0 {
        None
    } else {
        match write_failure(records, (n - 1) as nat) {
            Some(m) => Some(m),
            None => match csv_write_error(records.take(n - 1), records[n - 1]) {
                Some(m) => Some("CSV write error: "@ + m),
                None => None,
            },
        }
    }
}

/// The result of writing the records as CSV.
pub open spec fn csv_write_result(records: Seq<Seq<Seq<char>>>) -> Result<Seq<u8>, Seq<char>> {
    match write_failure(records, records.len()) {
        Some(m) => Err(m),
        None => match csv_output_bytes(records) {
            Ok(b) => Ok(b),
            Err(m) => Err("CSV flush error: "@ + m),
        },
    }
}

proof fn lemma_write_failure_stays(records: Seq<Seq<Seq<char>>>, k: nat, n: nat)
    requires
        k <= n,
        write_failure(records, k) is Some,
    ensures
        write_failure(records, n) == write_failure(records, k),
    decreases n - k,
{
    if k < n {
        lemma_write_failure_stays(records, k, (n - 1) as nat);
    }
}

/// The records of a table as plain values.
pub open spec fn table_view(t: Seq<Vec<Vec<char>>>) -> Seq<Seq<Seq<char>>> {
    t.map_values(|r: Vec<Vec<char>>| record_view(r@))
}

/// Writes the records as CSV.
pub fn write_csv(records: &Vec<Vec<Vec<char>>>) -> (r: Result<Vec<u8>, String>)
    ensures
        bytes_view(r) == csv_write_result(table_view(records@)),
{
    let ghost rs = table_view(records@);
    let mut w = csv_output_new();
    let mut i: usize = 0;
    while i < records.len()
        invariant
            i <= records.len(),
            rs == table_view(records@),
            write_failure(rs, i as nat) is None,
            csv_output_records(w) == rs.take(i as int),
        decreases records.len() - i,
    {
        match csv_write(&mut w, &records[i]) {
            Ok(()) => {},
            Err(m) => {
                proof {
                    assert(rs.take(i as int + 1).take(i as int) =~= rs.take(i as int));
                    assert(write_failure(rs, (i + 1) as nat) == Some("CSV write error: "@ + m@));
                    lemma_write_failure_stays(rs, (i + 1) as nat, rs.len());
                }
                return Err(prefixed("CSV write error: ", &m));
            },
        }
        assert(rs.take(i as int + 1).take(i as int) =~= rs.take(i as int));
        assert(csv_output_records(w) =~= rs.take(i as int + 1));
        i = i + 1;
    }
    assert(rs.take(records.len() as int) =~= rs);
    match csv_into_bytes(w) {
        Ok(b) => Ok(b),
        Err(m) => Err(prefixed("CSV flush error: ", &m)),
    }
}

// ── CSV to JSON ─────────────────────────────────────────────────

/// The JSON value of a CSV field: a number where it reads as one JSON can
/// hold, else the text.
pub open spec fn csv_field_value(f: Seq<char>) -> Json {
    match number_in(f) {
        Some(Some(t)) => Json::Number(t),
        _ => Json::Str(f),
    }
}

/// The key of column `i`: its header, or `col` and its number where the
/// header row is shorter.
pub open spec fn column_key(headers: Seq<Seq<char>>, i: int) -> Seq<char> {
    if 0 <= i < headers.len() {
        headers[i]
    } else {
        "col"@ + dec(i as nat)
    }
}

/// A record as the entries of a JSON object, keyed by column.
pub open spec fn record_object(headers: Seq<Seq<char>>, fields: Seq<Seq<char>>) -> Seq<(Seq<char>, Json)>
    decreases fields.len(),
{
    if fields.len() == 0 {
        Seq::empty()
    } else {
        map_insert(
            record_object(headers, fields.drop_last()),
            column_key(headers, fields.len() - 1),
            csv_field_value(fields.last()),
        )
    }
}

/// The objects of the first `k` records, or the first error among them.
pub open spec fn csv_rows(src: Seq<u8>, headers: Seq<Seq<char>>, k: nat) -> Result<Seq<Json>, Seq<char>>
    decreases k,
{
    if k == 0 {
        Ok(Seq::empty())
    } else {
        match csv_rows(src, headers, (k - 1) as nat) {
            Err(m) => Err(m),
            Ok(rows) => match csv_record(src, (k - 1) as nat) {
                Some(Ok(f)) => Ok(rows.push(Json::Object(record_object(headers, f)))),
                Some(Err(m)) => Err("CSV parse error: "@ + m),
                None => Ok(rows),
            },
        }
    }
}

/// The result of turning CSV into a JSON array of objects.
pub open spec fn csv_json_result(src: Seq<u8>) -> Result<Seq<u8>, Seq<char>> {
    match csv_headers(src) {
        Err(m) => Err("Failed to read CSV headers: "@ + m),
        Ok(h) => match csv_rows(src, h, csv_record_count(src)) {
            Err(m) => Err(m),
            Ok(rows) => match json_pretty(Json::Array(rows)) {
                Ok(t) => Ok(encode_utf8(t)),
                Err(m) => Err("JSON serialization error: "@ + m),
            },
        },
    }
}

proof fn lemma_csv_rows_err_stays(src: Seq<u8>, h: Seq<Seq<char>>, k: nat, n: nat)
    requires
        k <= n,
        csv_rows(src, h, k) is Err,
    ensures
        csv_rows(src, h, n) == csv_rows(src, h, k),
    decreases n - k,
{
    if k < n {
        lemma_csv_rows_err_stays(src, h, k, (n - 1) as nat);
    }
}

/// The entries of one record's object.
fn record_entries(headers: &Vec<Vec<char>>, fields: &Vec<Vec<char>>) -> (r: Vec<(String, JsonValue)>)
    ensures
        entries_view(r@) == record_object(record_view(headers@), record_view(fields@)),
{
    let ghost hv = record_view(headers@);
    let ghost fv = record_view(fields@);
    let mut map: Vec<(String, JsonValue)> = Vec::new();
    let mut i: usize = 0;
    while i < fields.len()
        invariant
            i <= fields.len(),
            hv == record_view(headers@),
            fv == record_view(fields@),
            entries_view(map@) == record_object(hv, fv.take(i as int)),
        decreases fields.len() - i,
    {
        let key: String = if i < headers.len() {
            string_from_chars(&headers[i])
        } else {
            let mut k: Vec<char> = Vec::new();
            push_str(&mut k, "col");
            let d = dec_chars(i);
            extend_chars(&mut k, &d);
            string_from_chars(&k)
        };
        let value = match read_number(&fields[i]) {
            Some(Some(t)) => JsonValue::Number(t),
            _ => JsonValue::Str(string_from_chars(&fields[i])),
        };
        assert(value.json() == csv_field_value(fields@[i as int]@));
        assert(key@ == column_key(hv, i as int));
        object_insert(&mut map, key, value);
        proof {
            let t = fv.take(i as int + 1);
            assert(t.drop_last() =~= fv.take(i as int));
            assert(t.last() == fields@[i as int]@);
        }
        i = i + 1;
    }
    assert(fv.take(fields.len() as int) =~= fv);
    map
}

/// CSV with a header row turned into a pretty-printed JSON array with one
/// object per record.
pub fn csv_to_json(input: &[u8]) -> (r: Result<Vec<u8>, String>)
    ensures
        bytes_view(r) == csv_json_result(input@),
{
    let mut rdr = csv_input_new(input);
    let headers = match csv_read_headers(&mut rdr) {
        Ok(h) => h,
        Err(m) => return Err(prefixed("Failed to read CSV headers: ", &m)),
    };
    let ghost h = record_view(headers@);
    let ghost count = csv_record_count(input@);
    let mut records: Vec<JsonValue> = Vec::new();
    assert(items_view(records@) =~= Seq::<Json>::empty());
    loop
        invariant_except_break
            csv_input_taken(rdr) <= count,
            csv_rows(input@, h, csv_input_taken(rdr)) == Ok::<Seq<Json>, Seq<char>>(items_view(records@)),
        invariant
            csv_input_source(rdr) == input@,
            count == csv_record_count(input@),
            h == record_view(headers@),
            csv_headers(input@) == Ok::<Seq<Seq<char>>, Seq<char>>(h),
        ensures
            csv_rows(input@, h, count) == Ok::<Seq<Json>, Seq<char>>(items_view(records@)),
        decreases count - csv_input_taken(rdr),
    {
        let ghost k = csv_input_taken(rdr);
        match csv_next_record(&mut rdr) {
            None => {
                break;
            },
            Some(Err(m)) => {
                proof {
                    assert(csv_rows(input@, h, (k + 1) as nat) == Err::<Seq<Json>, Seq<char>>("CSV parse error: "@ + m@));
                    lemma_csv_rows_err_stays(input@, h, (k + 1) as nat, count);
                }
                return Err(prefixed("CSV parse error: ", &m));
            },
            Some(Ok(fields)) => {
                let entries = record_entries(&headers, &fields);
                let ghost before = records@;
                proof {
                    lemma_json_object(entries);
                }
                records.push(JsonValue::Object(entries));
                assert(items_view(records@) =~= items_view(before).push(
                    Json::Object(record_object(h, record_view(fields@))),
                ));
            },
        }
    }
    proof {
        lemma_json_array(records);
    }
    let value = JsonValue::Array(records);
    match pretty_json(&value) {
        Ok(t) => {
            let cs = str_chars(t.as_str());
            Ok(utf8_bytes(&cs))
        },
        Err(m) => Err(prefixed("JSON serialization error: ", &m)),
    }
}

// ── CSV to TSV ──────────────────────────────────────────────────

/// Fields joined by tabs.
pub open spec fn tab_join(fields: Seq<Seq<char>>) -> Seq<char>
    decreases fields.len(),
{
    if fields.len() == 0 {
        Seq::empty()
    } else if fields.len() == 1 {
        fields[0]
    } else {
        tab_join(fields.drop_last()) + "\t"@ + fields.last()
    }
}

/// The TSV lines of the first `k` records, or the first error among them.
pub open spec fn tsv_lines(src: Seq<u8>, k: nat) -> Result<Seq<char>, Seq<char>>
    decreases k,
{
    if k == 0 {
        Ok(Seq::empty())
    } else {
        match tsv_lines(src, (k - 1) as nat) {
            Err(m) => Err(m),
            Ok(t) => match csv_record(src, (k - 1) as nat) {
                Some(Ok(f)) => Ok(t + tab_join(f) + "\n"@),
                Some(Err(m)) => Err("CSV parse error: "@ + m),
                None => Ok(t),
            },
        }
    }
}

/// The result of turning CSV into TSV.
pub open spec fn csv_tsv_result(src: Seq<u8>) -> Result<Seq<u8>, Seq<char>> {
    match csv_headers(src) {
        Err(m) => Err("Failed to read CSV headers: "@ + m),
        Ok(h) => match tsv_lines(src, csv_record_count(src)) {
            Ok(t) => Ok(encode_utf8(tab_join(h) + "\n"@ + t)),
            Err(m) => Err(m),
        },
    }
}

proof fn lemma_tsv_lines_err_stays(src: Seq<u8>, k: nat, n: nat)
    requires
        k <= n,
        tsv_lines(src, k) is Err,
    ensures
        tsv_lines(src, n) == tsv_lines(src, k),
    decreases n - k,
{
    if k < n {
        lemma_tsv_lines_err_stays(src, k, (n - 1) as nat);
    }
}

/// Appends the fields joined by tabs.
fn push_tab_joined(out: &mut Vec<char>, fields: &Vec<Vec<char>>)
    ensures
        final(out)@ == old(out)@ + tab_join(record_view(fields@)),
{
    let ghost fv = record_view(fields@);
    let ghost start = out@;
    let mut i: usize = 0;
    while i < fields.len()
        invariant
            i <= fields.len(),
            fv == record_view(fields@),
            out@ == start + tab_join(fv.take(i as int)),
        decreases fields.len() - i,
    {
        if i > 0 {
            push_str(out, "\t");
        }
        extend_chars(out, &fields[i]);
        proof {
            let t = fv.take(i as int + 1);
            assert(t.drop_last() =~= fv.take(i as int));
            if i == 0 {
                assert(tab_join(t) == fields@[0]@);
            }
        }
        i = i + 1;
    }
    assert(fv.take(fields.len() as int) =~= fv);
}

/// CSV with a header row turned into TSV.
pub fn csv_to_tsv(input: &[u8]) -> (r: Result<Vec<u8>, String>)
    ensures
        bytes_view(r) == csv_tsv_result(input@),
{
    let mut rdr = csv_input_new(input);
    let headers = match csv_read_headers(&mut rdr) {
        Ok(h) => h,
        Err(m) => return Err(prefixed("Failed to read CSV headers: ", &m)),
    };
    let mut output: Vec<char> = Vec::new();
    push_tab_joined(&mut output, &headers);
    push_str(&mut output, "\n");
    let ghost head = output@;
    let ghost count = csv_record_count(input@);
    let mut body: Vec<char> = Vec::new();
    assert(body@ =~= Seq::<char>::empty());
    loop
        invariant_except_break
            csv_input_taken(rdr) <= count,
            tsv_lines(input@, csv_input_taken(rdr)) == Ok::<Seq<char>, Seq<char>>(body@),
        invariant
            csv_input_source(rdr) == input@,
            count == csv_record_count(input@),
            csv_headers(input@) == Ok::<Seq<Seq<char>>, Seq<char>>(record_view(headers@)),
            output@ == head,
            head == tab_join(record_view(headers@)) + "\n"@,
        ensures
            tsv_lines(input@, count) == Ok::<Seq<char>, Seq<char>>(body@),
        decreases count - csv_input_taken(rdr),
    {
        let ghost k = csv_input_taken(rdr);
        match csv_next_record(&mut rdr) {
            None => {
                break;
            },
            Some(Err(m)) => {
                proof {
                    assert(tsv_lines(input@, (k + 1) as nat) == Err::<Seq<char>, Seq<char>>("CSV parse error: "@ + m@));
                    lemma_tsv_lines_err_stays(input@, (k + 1) as nat, count);
                }
                return Err(prefixed("CSV parse error: ", &m));
            },
            Some(Ok(fields)) => {
                push_tab_joined(&mut body, &fields);
                push_str(&mut body, "\n");
            },
        }
    }
    extend_chars(&mut output, &body);
    Ok(utf8_bytes(&output))
}

// ── JSON to CSV ─────────────────────────────────────────────────

/// The header row gains the keys of the entries it lacks, in order.
pub open spec fn add_keys(headers: Seq<Seq<char>>, entries: Seq<(Seq<char>, Json)>) -> Seq<Seq<char>>
    decreases entries.len(),
{
    if entries.len() == 0 {
        headers
    } else {
        let h = add_keys(headers, entries.drop_last());
        if h.contains(entries.last().0) {
            h
        } else {
            h.push(entries.last().0)
        }
    }
}

/// Every key of every object among the items, in the order met.
pub open spec fn csv_header_row(items: Seq<Json>) -> Seq<Seq<char>>
    decreases items.len(),
{
    if items.len() == 0 {
        Seq::empty()
    } else {
        match items.last() {
            Json::Object(es) => add_keys(csv_header_row(items.drop_last()), es),
            _ => csv_header_row(items.drop_last()),
        }
    }
}

/// The cell of a column: a string as it is, another value as compact JSON,
/// nothing for a missing key.
pub open spec fn cell_text(entries: Seq<(Seq<char>, Json)>, key: Seq<char>) -> Seq<char> {
    match key_position(entries, key) {
        None => Seq::empty(),
        Some(i) => match entries[i].1 {
            Json::Str(s) => s,
            v => json_compact(v),
        },
    }
}

/// The row of an object under the header row.
pub open spec fn csv_row(headers: Seq<Seq<char>>, entries: Seq<(Seq<char>, Json)>) -> Seq<Seq<char>> {
    Seq::new(headers.len(), |j: int| cell_text(entries, headers[j]))
}

/// The rows of the objects among the items; other items give no row.
pub open spec fn object_rows(items: Seq<Json>, headers: Seq<Seq<char>>) -> Seq<Seq<Seq<char>>>
    decreases items.len(),
{
    if items.len() == 0 {
        Seq::empty()
    } else {
        object_rows(items.drop_last(), headers) + match items.last() {
            Json::Object(es) => seq![csv_row(headers, es)],
            _ => Seq::empty(),
        }
    }
}

/// The result of turning a JSON array of objects into CSV.
pub open spec fn json_csv_result(input: Seq<u8>) -> Result<Seq<u8>, Seq<char>> {
    if !valid_utf8(input) {
        Err(utf8_failure(input))
    } else {
        match json_parse(decode_utf8(input)) {
            Err(m) => Err("Invalid JSON: "@ + m),
            Ok(Json::Array(items)) => if items.len() == 0 {
                Ok(Seq::empty())
            } else {
                let h = csv_header_row(items);
                csv_write_result(seq![h] + object_rows(items, h))
            },
            Ok(_) => Err("JSON must be an array of objects"@),
        }
    }
}

fn contains_key(headers: &Vec<Vec<char>>, k: &String) -> (r: bool)
    ensures
        r == record_view(headers@).contains(k@),
{
    let ghost hv = record_view(headers@);
    let kc = str_chars(k.as_str());
    let mut i: usize = 0;
    while i < headers.len()
        invariant
            i <= headers.len(),
            hv == record_view(headers@),
            kc@ == k@,
            forall|j: int| 0 <= j < i ==> hv[j] != k@,
        decreases headers.len() - i,
    {
        if headers[i].len() == kc.len() && crate::text::matches_at(&headers[i], 0, &kc) {
            assert(headers@[i as int]@.subrange(0, kc@.len() as int) =~= headers@[i as int]@);
            assert(hv[i as int] == k@);
            return true;
        }
        proof {
            if hv[i as int] == k@ {
                assert(headers@[i as int]@.subrange(0, kc@.len() as int) =~= headers@[i as int]@);
            }
        }
        i = i + 1;
    }
    assert(!hv.contains(k@)) by {
        if hv.contains(k@) {
            let j = choose|j: int| 0 <= j < hv.len() && hv[j] == k@;
            assert(hv[j] != k@);
        }
    }
    false
}

/// The row of an object's entries under the header row.
fn object_row(headers: &Vec<Vec<char>>, entries: &Vec<(String, JsonValue)>) -> (r: Vec<Vec<char>>)
    ensures
        record_view(r@) == csv_row(record_view(headers@), entries_view(entries@)),
{
    let ghost hv = record_view(headers@);
    let ghost es = entries_view(entries@);
    proof {
        lemma_key_position(es, Seq::empty());
    }
    let mut row: Vec<Vec<char>> = Vec::new();
    let mut j: usize = 0;
    while j < headers.len()
        invariant
            j <= headers.len(),
            hv == record_view(headers@),
            es == entries_view(entries@),
            record_view(row@) == csv_row(hv, es).take(j as int),
        decreases headers.len() - j,
    {
        proof {
            lemma_key_position(es, hv[j as int]);
        }
        let cell: Vec<char> = match find_key(entries, &headers[j]) {
            None => Vec::new(),
            Some(i) => match &entries[i].1 {
                JsonValue::Str(s) => str_chars(s.as_str()),
                v => {
                    let c = compact_json(v);
                    str_chars(c.as_str())
                },
            },
        };
        assert(hv[j as int] == headers@[j as int]@);
        assert(cell@ == cell_text(es, hv[j as int]));
        let ghost before = row@;
        row.push(cell);
        assert(record_view(row@) =~= record_view(before).push(cell@));
        assert(csv_row(hv, es).take(j as int + 1) =~= csv_row(hv, es).take(j as int).push(
            cell_text(es, hv[j as int]),
        ));
        j = j + 1;
    }
    assert(csv_row(hv, es).take(headers.len() as int) =~= csv_row(hv, es));
    row
}

/// A JSON array of objects turned into CSV: one column per key met, one row
/// per object.
pub fn json_to_csv(input: &[u8]) -> (r: Result<Vec<u8>, String>)
    ensures
        bytes_view(r) == json_csv_result(input@),
{
    let text = decode_text(input)?;
    let data = match parse_json(&text) {
        Ok(v) => v,
        Err(m) => return Err(prefixed("Invalid JSON: ", &m)),
    };
    let array = match data {
        JsonValue::Array(a) => a,
        _ => {
            let mut msg: Vec<char> = Vec::new();
            push_str(&mut msg, "JSON must be an array of objects");
            return Err(string_from_chars(&msg));
        },
    };
    proof {
        lemma_json_array(array);
    }
    let ghost items = items_view(array@);
    if array.len() == 0 {
        return Ok(Vec::new());
    }
    let mut headers: Vec<Vec<char>> = Vec::new();
    let mut i: usize = 0;
    while i < array.len()
        invariant
            i <= array.len(),
            items == items_view(array@),
            record_view(headers@) == csv_header_row(items.take(i as int)),
        decreases array.len() - i,
    {
        proof {
            let t = items.take(i as int + 1);
            assert(t.drop_last() =~= items.take(i as int));
            assert(t.last() == array@[i as int].json());
        }
        match &array[i] {
            JsonValue::Object(map) => {
                proof {
                    lemma_json_object(*map);
                }
                let ghost es = entries_view(map@);
                let ghost h0 = record_view(headers@);
                let mut k: usize = 0;
                while k < map.len()
                    invariant
                        k <= map.len(),
                        es == entries_view(map@),
                        record_view(headers@) == add_keys(h0, es.take(k as int)),
                    decreases map.len() - k,
                {
                    proof {
                        let t = es.take(k as int + 1);
                        assert(t.drop_last() =~= es.take(k as int));
                    }
                    if !contains_key(&headers, &map[k].0) {
                        let key = str_chars(map[k].0.as_str());
                        let ghost before = headers@;
                        headers.push(key);
                        assert(record_view(headers@) =~= record_view(before).push(map@[k as int].0@));
                    }
                    k = k + 1;
                }
                assert(es.take(map.len() as int) =~= es);
            },
            _ => {},
        }
        i = i + 1;
    }
    assert(items.take(array.len() as int) =~= items);
    let ghost hv = record_view(headers@);
    let mut records: Vec<Vec<Vec<char>>> = Vec::new();
    records.push(headers.clone());
    assert(record_view(records@[0]@) == hv) by {
        assert(record_view(records@[0]@) =~= hv);
    }
    let mut j: usize = 0;
    while j < array.len()
        invariant
            j <= array.len(),
            items == items_view(array@),
            hv == record_view(headers@),
            table_view(records@) == seq![hv] + object_rows(items.take(j as int), hv),
        decreases array.len() - j,
    {
        proof {
            let t = items.take(j as int + 1);
            assert(t.drop_last() =~= items.take(j as int));
            assert(t.last() == array@[j as int].json());
        }
        let ghost before = records@;
        match &array[j] {
            JsonValue::Object(map) => {
                proof {
                    lemma_json_object(*map);
                }
                let row = object_row(&headers, map);
                records.push(row);
                assert(table_view(records@) =~= table_view(before).push(csv_row(hv, entries_view(map@))));
            },
            _ => {
                assert(table_view(records@) =~= table_view(before));
            },
        }
        j = j + 1;
    }
    assert(items.take(array.len() as int) =~= items);
    write_csv(&records)
}

// ── TSV to CSV ──────────────────────────────────────────────────

/// `str::split('\t')`: the pieces between tabs, an empty line giving one
/// empty piece.
pub open spec fn split_tabs(s: Seq<char>) -> Seq<Seq<char>>
    decreases s.len(),
{
    let k = index_of(s, '\t');
    if k < 0 || k >= s.len() {
        seq![s]
    } else {
        seq![s.take(k)] + split_tabs(s.skip(k + 1))
    }
}

/// The result of turning TSV into CSV.
pub open spec fn tsv_csv_result(input: Seq<u8>) -> Result<Seq<u8>, Seq<char>> {
    if !valid_utf8(input) {
        Err(utf8_failure(input))
    } else {
        csv_write_result(str_lines(decode_utf8(input)).map_values(|l: Seq<char>| split_tabs(l)))
    }
}

/// A line split at its tabs.
fn split_at_tabs(line: &[char]) -> (r: Vec<Vec<char>>)
    ensures
        record_view(r@) == split_tabs(line@),
{
    let mut out: Vec<Vec<char>> = Vec::new();
    let mut i: usize = 0;
    assert(line@.skip(0) =~= line@);
    loop
        invariant
            i <= line@.len(),
            record_view(out@) + split_tabs(line@.skip(i as int)) == split_tabs(line@),
        decreases line@.len() - i,
    {
        let ghost rest = line@.skip(i as int);
        let j = crate::text::find_char(line, i, '\t');
        proof {
            crate::text::lemma_index_of_bounds(rest, '\t');
        }
        let mut piece: Vec<char> = Vec::new();
        let mut k = i;
        while k < j
            invariant
                i <= k <= j <= line@.len(),
                piece@ == line@.subrange(i as int, k as int),
            decreases j - k,
        {
            piece.push(line[k]);
            k = k + 1;
            assert(piece@ =~= line@.subrange(i as int, k as int));
        }
        let ghost before = record_view(out@);
        out.push(piece);
        if j >= line.len() {
            assert(rest =~= line@.subrange(i as int, j as int));
            assert(record_view(out@) =~= before.push(rest));
            assert(split_tabs(rest) == seq![rest]);
            assert(before + seq![rest] =~= record_view(out@));
            return out;
        }
        assert(rest.take(j - i) =~= line@.subrange(i as int, j as int));
        assert(rest.skip(j - i + 1) =~= line@.skip(j + 1));
        assert(record_view(out@) + split_tabs(line@.skip(j + 1)) =~= before + split_tabs(rest));
        i = j + 1;
    }
}

/// TSV turned into CSV, line by line.
pub fn tsv_to_csv(input: &[u8]) -> (r: Result<Vec<u8>, String>)
    ensures
        bytes_view(r) == tsv_csv_result(input@),
{
    let text = decode_text(input)?;
    let lines = text_lines(&text);
    let ghost ls = views(lines@);
    let mut records: Vec<Vec<Vec<char>>> = Vec::new();
    let mut i: usize = 0;
    while i < lines.len()
        invariant
            i <= lines.len(),
            ls == views(lines@),
            ls == str_lines(text@),
            records@.len() == i,
            forall|k: int| 0 <= k < i ==> #[trigger] record_view(records@[k]@) == split_tabs(ls[k]),
        decreases lines.len() - i,
    {
        let fields = split_at_tabs(&lines[i]);
        assert(lines@[i as int]@ == ls[i as int]);
        records.push(fields);
        i = i + 1;
    }
    assert(table_view(records@) =~= str_lines(text@).map_values(|l: Seq<char>| split_tabs(l)));
    write_csv(&records)
}

} // verus!
