//! JSON values as the data conversions read and write them, serde_json's
//! reading and printing of them, and the numbers that plain text holds.
use vstd::prelude::*;
use crate::document::text_view;
use crate::pdf_text::{dec, digit_char};

verus! {

/// A JSON value seen as plain values: numbers by their text, objects as
/// their (key, value) entries in order.
pub enum Json {
    Null,
    Bool(bool),
    Number(Seq<char>),
    Str(Seq<char>),
    Array(Seq<Json>),
    Object(Seq<(Seq<char>, Json)>),
}

/// A JSON value: numbers are held by their text.
pub enum JsonValue {
    Null,
    Bool(bool),
    Number(String),
    Str(String),
    Array(Vec<JsonValue>),
    Object(Vec<(String, JsonValue)>),
}

impl JsonValue {
    /// The value as plain values.
    pub open spec fn json(&self) -> Json
        decreases self,
    {
        match self {
            JsonValue::Null => Json::Null,
            JsonValue::Bool(b) => Json::Bool(*b),
            JsonValue::Number(n) => Json::Number(n@),
            JsonValue::Str(s) => Json::Str(s@),
            JsonValue::Array(items) => Json::Array(Seq::new(items.len() as nat, |i: int|
                if 0 <= i < items.len() {
                    proof {
                        assert(decreases_to!(items => items@));
                        assert(decreases_to!(items@ => items@[i]));
                    }
                    items@[i].json()
                } else {
                    Json::Null
                }
            )),
            JsonValue::Object(entries) => Json::Object(Seq::new(entries.len() as nat, |i: int|
                if 0 <= i < entries.len() {
                    proof {
                        assert(decreases_to!(entries => entries@));
                        assert(decreases_to!(entries@ => entries@[i]));
                        assert(decreases_to!(entries@[i] => entries@[i].1));
                    }
                    (entries@[i].0@, entries@[i].1.json())
                } else {
                    (Seq::empty(), Json::Null)
                }
            )),
        }
    }
}

/// Object entries as plain values.
pub open spec fn entries_view(es: Seq<(String, JsonValue)>) -> Seq<(Seq<char>, Json)> {
    es.map_values(|e: (String, JsonValue)| (e.0@, e.1.json()))
}

/// Array items as plain values.
pub open spec fn items_view(items: Seq<JsonValue>) -> Seq<Json> {
    items.map_values(|v: JsonValue| v.json())
}

pub proof fn lemma_json_object(entries: Vec<(String, JsonValue)>)
    ensures
        JsonValue::Object(entries).json() == Json::Object(entries_view(entries@)),
{
    assert(JsonValue::Object(entries).json()->Object_0 =~= entries_view(entries@));
}

pub proof fn lemma_json_array(items: Vec<JsonValue>)
    ensures
        JsonValue::Array(items).json() == Json::Array(items_view(items@)),
{
    assert(JsonValue::Array(items).json()->Array_0 =~= items_view(items@));
}

// ── serde_json ──────────────────────────────────────────────────

#[verifier::external_type_specification]
#[verifier::external_body]
pub struct ExSerdeValue(serde_json::Value);

/// The value `serde_json::from_str::<serde_json::Value>` reads from `text`
/// (objects with their entries in the map's order), or the display text of
/// its error.
pub uninterp spec fn json_parse(text: Seq<char>) -> Result<Json, Seq<char>>;

/// What `serde_json::to_string_pretty` prints for the value made of `v`:
/// the text, or the display text of its error.
pub uninterp spec fn json_pretty(v: Json) -> Result<Seq<char>, Seq<char>>;

/// What the `Display` of the `serde_json::Value` made of `v` prints.
pub uninterp spec fn json_compact(v: Json) -> Seq<char>;

/// Converts a `serde_json::Value` into a `JsonValue` node for node: a
/// number keeps its display text, an object its entries in the map's order.
#[verifier::external_body]
fn value_from_serde(v: &serde_json::Value) -> JsonValue {
    match v {
        serde_json::Value::Null => JsonValue::Null,
        serde_json::Value::Bool(b) => JsonValue::Bool(*b),
        serde_json::Value::Number(n) => JsonValue::Number(n.to_string()),
        serde_json::Value::String(s) => JsonValue::Str(s.clone()),
        serde_json::Value::Array(a) => JsonValue::Array(a.iter().map(value_from_serde).collect()),
        serde_json::Value::Object(m) => JsonValue::Object(m.iter().map(|(k, x)| (k.clone(), value_from_serde(x))).collect()),
    }
}

/// Converts a `JsonValue` into a `serde_json::Value` node for node: a number
/// is read back from its text (every number this library holds is the
/// display text of a `serde_json::Number`), entries go into the map in order.
#[verifier::external_body]
fn value_to_serde(v: &JsonValue) -> serde_json::Value {
    match v {
        JsonValue::Null => serde_json::Value::Null,
        JsonValue::Bool(b) => serde_json::Value::Bool(*b),
        JsonValue::Number(n) => n.parse().map(serde_json::Value::Number).unwrap_or_else(|_| serde_json::Value::String(n.clone())),
        JsonValue::Str(s) => serde_json::Value::String(s.clone()),
        JsonValue::Array(a) => serde_json::Value::Array(a.iter().map(value_to_serde).collect()),
        JsonValue::Object(es) => serde_json::Value::Object(es.iter().map(|(k, x)| (k.clone(), value_to_serde(x))).collect()),
    }
}

/// Calls `serde_json::from_str::<serde_json::Value>`; the error is handed
/// back as its display text.
#[verifier::external_body]
pub fn parse_json(text: &[char]) -> (r: Result<JsonValue, String>)
    ensures
        r is Ok <==> json_parse(text@) is Ok,
        r matches Ok(v) ==> (json_parse(text@) matches Ok(j) && j == v.json()),
        r matches Err(m) ==> (json_parse(text@) matches Err(e) && e == m@),
{
    let s: String = text.iter().collect();
    match serde_json::from_str::<serde_json::Value>(&s) {
        Ok(v) => Ok(value_from_serde(&v)),
        Err(e) => Err(e.to_string()),
    }
}

/// Calls `serde_json::to_string_pretty`; the error is handed back as its
/// display text.
#[verifier::external_body]
pub fn pretty_json(v: &JsonValue) -> (r: Result<String, String>)
    ensures
        text_view(r) == json_pretty(v.json()),
{
    serde_json::to_string_pretty(&value_to_serde(v)).map_err(|e| e.to_string())
}

/// Prints the value with the `Display` of `serde_json::Value`.
#[verifier::external_body]
pub fn compact_json(v: &JsonValue) -> (r: String)
    ensures
        r@ == json_compact(v.json()),
{
    value_to_serde(v).to_string()
}

// ── Numbers in text ─────────────────────────────────────────────

/// Decimal digits only.
pub open spec fn all_digits(s: Seq<char>) -> bool {
    forall|i: int| 0 <= i < s.len() ==> '0' <= #[trigger] s[i] <= '9'
}

/// The value of a string of decimal digits.
pub open spec fn digits_value(s: Seq<char>) -> int
    decreases s.len(),
{
    if s.len() == 0 {
        0
    } else {
        digits_value(s.drop_last()) * 10 + (s.last() as int - 48)
    }
}

/// What `str::parse::<i64>` gives: an optional `+` or `-` followed by at
/// least one decimal digit and nothing else, whose value fits in `i64`.
pub open spec fn i64_parse(s: Seq<char>) -> Option<int> {
    let neg = s.len() > 0 && s[0] == '-';
    let body = if s.len() > 0 && (s[0] == '+' || s[0] == '-') {
        s.drop_first()
    } else {
        s
    };
    let v = if neg {
        -digits_value(body)
    } else {
        digits_value(body)
    };
    if body.len() > 0 && all_digits(body) && i64::MIN <= v <= i64::MAX {
        Some(v)
    } else {
        None
    }
}

/// A prefix of a digit string is worth no more than the whole, and nothing
/// is worth less than zero.
proof fn lemma_digits_prefix(s: Seq<char>, k: int)
    requires
        all_digits(s),
        0 <= k <= s.len(),
    ensures
        0 <= digits_value(s.take(k)) <= digits_value(s),
    decreases s.len(),
{
    if s.len() == 0 {
        assert(s.take(k) =~= s);
    } else if k == s.len() {
        assert(s.take(k) =~= s);
        lemma_digits_prefix(s.drop_last(), 0);
    } else {
        assert(s.drop_last().take(k) =~= s.take(k));
        lemma_digits_prefix(s.drop_last(), k);
        assert(s.drop_last().take(s.len() - 1) =~= s.drop_last());
        lemma_digits_prefix(s.drop_last(), s.len() - 1);
    }
}

/// Reads a whole `i64` the way `str::parse::<i64>` does: an optional sign,
/// then decimal digits and nothing else, within range.
fn parse_i64(s: &[char]) -> (r: Option<i64>)
    ensures
        r is Some <==> i64_parse(s@) is Some,
        r matches Some(n) ==> i64_parse(s@) == Some(n as int),
{
    let n = s.len();
    let neg = n > 0 && s[0] == '-';
    let start: usize = if n > 0 && (s[0] == '+' || s[0] == '-') {
        1
    } else {
        0
    };
    let ghost body = s@.skip(start as int);
    proof {
        if start == 1 {
            assert(body =~= s@.drop_first());
        } else {
            assert(body =~= s@);
        }
        assert(i64_parse(s@) is Some ==> all_digits(body));
        assert(i64_parse(s@) is Some ==> digits_value(body) <= 9223372036854775808);
    }
    if start == n {
        return None;
    }
    let mut acc: u128 = 0;
    let mut i: usize = start;
    assert(body.take(0) =~= Seq::<char>::empty());
    while i < n
        invariant
            start <= i <= n,
            n == s@.len(),
            body == s@.skip(start as int),
            all_digits(body.take(i - start)),
            acc == digits_value(body.take(i - start)),
            acc <= 9223372036854775808,
            i64_parse(s@) is Some ==> all_digits(body),
            i64_parse(s@) is Some ==> digits_value(body) <= 9223372036854775808,
        decreases n - i,
    {
        let c = s[i];
        assert(body[i - start] == c);
        if !('0' <= c && c <= '9') {
            assert(!all_digits(body));
            return None;
        }
        let d: u128 = ((c as u32) - 48) as u128;
        acc = acc * 10 + d;
        proof {
            let t = body.take(i - start + 1);
            assert(t.drop_last() =~= body.take(i - start));
            assert(t.last() == c);
            assert(acc == digits_value(t));
        }
        i = i + 1;
        if acc > 9223372036854775808 {
            proof {
                if all_digits(body) {
                    lemma_digits_prefix(body, i - start);
                }
            }
            return None;
        }
    }
    assert(body.take(i - start) =~= body);
    if neg {
        if acc == 9223372036854775808 {
            Some(i64::MIN)
        } else {
            Some(-(acc as i64))
        }
    } else if acc > 9223372036854775807 {
        None
    } else {
        Some(acc as i64)
    }
}

/// What the float reading of `s` gives: `None` where `s` does not parse as
/// a 64-bit float, `Some(None)` where it parses to a value that
/// `serde_json::Number::from_f64` refuses (infinite or NaN), and otherwise
/// the display text of that number.
pub uninterp spec fn float_number(s: Seq<char>) -> Option<Option<Seq<char>>>;

/// Parses `s` with `str::parse` as a 64-bit float and makes a JSON number of
/// it with `serde_json::Number::from_f64`, handing back its display text.
#[verifier::external_body]
fn parse_float_number(s: &[char]) -> (r: Option<Option<String>>)
    ensures
        r is None <==> float_number(s@) is None,
        r matches Some(None) ==> float_number(s@) == Some(None::<Seq<char>>),
        r matches Some(Some(t)) ==> float_number(s@) == Some(Some(t@)),
{
    let t: String = s.iter().collect();
    t.parse().ok().map(|x| serde_json::Number::from_f64(x).map(|n| n.to_string()))
}

/// The text of an integer, as `serde_json::Number` prints an `i64`.
pub open spec fn int_text(n: int) -> Seq<char> {
    if n < 0 {
        seq!['-'] + dec((-n) as nat)
    } else {
        dec(n as nat)
    }
}

/// The decimal digits of a `u64`.
pub fn dec_u64(n: u64) -> (r: Vec<char>)
    ensures
        r@ == dec(n as nat),
    decreases n,
{
    let d = (n % 10) as u8;
    let c = (48u8 + d) as char;
    assert(c == digit_char((n % 10) as nat));
    if n < 10 {
        let mut v: Vec<char> = Vec::new();
        v.push(c);
        assert(v@ =~= seq![digit_char(n as nat)]);
        v
    } else {
        let mut v = dec_u64(n / 10);
        v.push(c);
        v
    }
}

/// The text of an `i64`.
pub fn i64_text(n: i64) -> (r: Vec<char>)
    ensures
        r@ == int_text(n as int),
{
    if n < 0 {
        let m: u64 = if n == i64::MIN {
            9223372036854775808u64
        } else {
            (-n) as u64
        };
        let digits = dec_u64(m);
        let mut out: Vec<char> = Vec::new();
        out.push('-');
        crate::text::extend_chars(&mut out, &digits);
        assert(out@ =~= seq!['-'] + dec((-n) as nat));
        out
    } else {
        dec_u64(n as u64)
    }
}

/// The JSON number a text stands for, when it is an integer or a float that
/// JSON can hold: `None` where it is neither, `Some(None)` where it is a
/// float JSON cannot hold.
pub open spec fn number_in(s: Seq<char>) -> Option<Option<Seq<char>>> {
    match i64_parse(s) {
        Some(n) => Some(Some(int_text(n))),
        None => float_number(s),
    }
}

/// Reads a number from text: first as an `i64`, then as a float.
pub fn read_number(s: &[char]) -> (r: Option<Option<String>>)
    ensures
        r is None <==> number_in(s@) is None,
        r matches Some(None) ==> number_in(s@) == Some(None::<Seq<char>>),
        r matches Some(Some(t)) ==> number_in(s@) == Some(Some(t@)),
{
    match parse_i64(s) {
        Some(n) => {
            let t = i64_text(n);
            Some(Some(crate::text::string_from_chars(&t)))
        },
        None => parse_float_number(s),
    }
}

} // verus!
