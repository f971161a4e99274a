//! JSON to and from YAML and TOML. The YAML and TOML sides cover flat
//! documents: `key: value` lines, `key = value` lines and `[section]` tables.
use vstd::prelude::*;
use vstd::utf8::*;
use crate::document::text_view;
use crate::json::{
    Json, JsonValue, compact_json, entries_view, items_view, json_compact, json_parse, json_pretty,
    lemma_json_array, lemma_json_object, number_in, parse_json, pretty_json, read_number,
};
use crate::pdf_text::{str_lines, text_lines, views};
use crate::text::{
    bytes_view, decode_text, extend_chars, index_of, prefixed, push_str, str_chars,
    string_from_chars, trim, trim_chars, trim_start, trim_start_chars, utf8_bytes, utf8_failure,
};

verus! {

// ── JSON to YAML ────────────────────────────────────────────────

/// `indent` levels of two spaces.
pub open spec fn spaces(indent: nat) -> Seq<char>
    decreases indent,
{
    if indent == 0 {
        Seq::empty()
    } else {
        spaces((indent - 1) as nat) + "  "@
    }
}

/// The YAML text of a value at an indentation level: scalars on the line,
/// arrays as `- ` items and objects as `key: ` entries on the lines below.
pub open spec fn yaml_of(v: Json, indent: nat) -> Seq<char>
    decreases v,
{
    match v {
        Json::Null => "null\n"@,
        Json::Bool(b) => if b {
            "true\n"@
        } else {
            "false\n"@
        },
        Json::Number(n) => n + "\n"@,
        Json::Str(s) => s + "\n"@,
        Json::Array(items) => "\n"@ + yaml_items(items, indent),
        Json::Object(entries) => (if indent > 0 {
            "\n"@
        } else {
            Seq::empty()
        }) + yaml_entries(entries, indent),
    }
}

/// The `- ` lines of array items.
pub open spec fn yaml_items(items: Seq<Json>, indent: nat) -> Seq<char>
    decreases items,
{
    if items.len() == 0 {
        Seq::empty()
    } else {
        proof {
            assert(decreases_to!(items => items[items.len() - 1]));
        }
        yaml_items(items.drop_last(), indent) + spaces(indent) + "- "@ + trim_start(
            yaml_of(items[items.len() - 1], indent + 1),
        )
    }
}

/// The `key: ` lines of object entries.
pub open spec fn yaml_entries(entries: Seq<(Seq<char>, Json)>, indent: nat) -> Seq<char>
    decreases entries,
{
    if entries.len() == 0 {
        Seq::empty()
    } else {
        proof {
            assert(decreases_to!(entries => entries[entries.len() - 1]));
            assert(decreases_to!(entries[entries.len() - 1] => entries[entries.len() - 1].1));
        }
        yaml_entries(entries.drop_last(), indent) + spaces(indent) + entries[entries.len() - 1].0
            + ": "@ + trim_start(yaml_of(entries[entries.len() - 1].1, indent + 1))
    }
}

/// Characters of a string literal, as a new vector.
fn chars_of(s: &str) -> (r: Vec<char>)
    ensures
        r@ == s@,
{
    str_chars(s)
}

/// The YAML text of a value at indentation `indent`, whose two-space prefix
/// is `prefix`.
fn json_value_to_yaml(value: &JsonValue, prefix: &Vec<char>, Ghost(indent): Ghost<nat>) -> (r: Vec<char>)
    requires
        prefix@ == spaces(indent),
    ensures
        r@ == yaml_of(value.json(), indent),
    decreases value,
{
    match value {
        JsonValue::Null => chars_of("null\n"),
        JsonValue::Bool(b) => if *b {
            chars_of("true\n")
        } else {
            chars_of("false\n")
        },
        JsonValue::Number(n) => {
            let mut out = str_chars(n.as_str());
            push_str(&mut out, "\n");
            out
        },
        JsonValue::Str(t) => {
            let mut out = str_chars(t.as_str());
            push_str(&mut out, "\n");
            out
        },
        JsonValue::Array(arr) => {
            proof {
                lemma_json_array(*arr);
            }
            let ghost items = items_view(arr@);
            let mut inner: Vec<char> = Vec::new();
            extend_chars(&mut inner, prefix);
            push_str(&mut inner, "  ");
            let mut out = chars_of("\n");
            let mut i: usize = 0;
            while i < arr.len()
                invariant
                    i <= arr.len(),
                    items == items_view(arr@),
                    *value == JsonValue::Array(*arr),
                    prefix@ == spaces(indent),
                    inner@ == spaces(indent + 1),
                    out@ == "\n"@ + yaml_items(items.take(i as int), indent),
                decreases arr.len() - i,
            {
                proof {
                    assert(decreases_to!(*value => value->Array_0));
                    assert(decreases_to!(*arr => arr@));
                    assert(decreases_to!(arr@ => arr@[i as int]));
                }
                let item = json_value_to_yaml(&arr[i], &inner, Ghost(indent + 1));
                let trimmed = trim_start_chars(&item);
                extend_chars(&mut out, prefix);
                push_str(&mut out, "- ");
                extend_chars(&mut out, &trimmed);
                proof {
                    let t = items.take(i as int + 1);
                    assert(t.drop_last() =~= items.take(i as int));
                    assert(t[t.len() - 1] == arr@[i as int].json());
                }
                i = i + 1;
            }
            assert(items.take(arr.len() as int) =~= items);
            out
        },
        JsonValue::Object(entries) => {
            proof {
                lemma_json_object(*entries);
            }
            let ghost es = entries_view(entries@);
            let mut inner: Vec<char> = Vec::new();
            extend_chars(&mut inner, prefix);
            push_str(&mut inner, "  ");
            let mut out: Vec<char> = if prefix.len() > 0 {
                chars_of("\n")
            } else {
                Vec::new()
            };
            let ghost head = out@;
            assert(head == (if indent > 0 { "\n"@ } else { Seq::<char>::empty() })) by {
                if indent > 0 {
                    assert(spaces(indent).len() > 0) by {
                        assert(spaces(indent) == spaces((indent - 1) as nat) + "  "@);
                        reveal_strlit("  ");
                    }
                }
            }
            let mut i: usize = 0;
            while i < entries.len()
                invariant
                    i <= entries.len(),
                    es == entries_view(entries@),
                    *value == JsonValue::Object(*entries),
                    prefix@ == spaces(indent),
                    inner@ == spaces(indent + 1),
                    out@ == head + yaml_entries(es.take(i as int), indent),
                decreases entries.len() - i,
            {
                proof {
                    assert(decreases_to!(*value => value->Object_0));
                    assert(decreases_to!(*entries => entries@));
                    assert(decreases_to!(entries@ => entries@[i as int]));
                    assert(decreases_to!(entries@[i as int] => entries@[i as int].1));
                }
                let item = json_value_to_yaml(&entries[i].1, &inner, Ghost(indent + 1));
                let trimmed = trim_start_chars(&item);
                extend_chars(&mut out, prefix);
                push_str(&mut out, entries[i].0.as_str());
                push_str(&mut out, ": ");
                extend_chars(&mut out, &trimmed);
                proof {
                    let t = es.take(i as int + 1);
                    assert(t.drop_last() =~= es.take(i as int));
                    assert(t[t.len() - 1] == (entries@[i as int].0@, entries@[i as int].1.json()));
                }
                i = i + 1;
            }
            assert(es.take(entries.len() as int) =~= es);
            out
        },
    }
}

/// The result of turning JSON into YAML.
pub open spec fn json_yaml_result(input: Seq<u8>) -> Result<Seq<u8>, Seq<char>> {
    if !valid_utf8(input) {
        Err(utf8_failure(input))
    } else {
        match json_parse(decode_utf8(input)) {
            Ok(j) => Ok(encode_utf8(yaml_of(j, 0))),
            Err(m) => Err("Invalid JSON: "@ + m),
        }
    }
}

/// JSON turned into YAML.
pub fn json_to_yaml(input: &[u8]) -> (r: Result<Vec<u8>, String>)
    ensures
        bytes_view(r) == json_yaml_result(input@),
{
    let text = decode_text(input)?;
    let value = match parse_json(&text) {
        Ok(v) => v,
        Err(m) => return Err(prefixed("Invalid JSON: ", &m)),
    };
    let prefix: Vec<char> = Vec::new();
    assert(prefix@ =~= spaces(0));
    let yaml = json_value_to_yaml(&value, &prefix, Ghost(0));
    Ok(utf8_bytes(&yaml))
}

// ── JSON to TOML ────────────────────────────────────────────────

/// A value on the right of a TOML `=`: strings quoted, numbers and booleans
/// bare, null as an empty string, arrays and objects as their compact JSON
/// in quotes.
pub open spec fn toml_scalar(v: Json) -> Seq<char> {
    match v {
        Json::Str(s) => "\""@ + s + "\""@,
        Json::Number(n) => n,
        Json::Bool(b) => if b {
            "true"@
        } else {
            "false"@
        },
        Json::Null => "\"\""@,
        _ => "\""@ + json_compact(v) + "\""@,
    }
}

/// Array items as TOML scalars joined by `, `.
pub open spec fn toml_scalars(items: Seq<Json>) -> Seq<char>
    decreases items.len(),
{
    if items.len() == 0 {
        Seq::empty()
    } else if items.len() == 1 {
        toml_scalar(items[0])
    } else {
        toml_scalars(items.drop_last()) + ", "@ + toml_scalar(items.last())
    }
}

/// The `key = value` lines of the entries that are not tables.
pub open spec fn toml_plain(entries: Seq<(Seq<char>, Json)>) -> Seq<char>
    decreases entries.len(),
{
    if entries.len() == 0 {
        Seq::empty()
    } else {
        toml_plain(entries.drop_last()) + match entries.last().1 {
            Json::Object(_) => Seq::empty(),
            Json::Array(arr) => entries.last().0 + " = ["@ + toml_scalars(arr) + "]\n"@,
            other => entries.last().0 + " = "@ + toml_scalar(other) + "\n"@,
        }
    }
}

/// The dotted name of a table inside the table `prefix`.
pub open spec fn section_name(prefix: Seq<char>, key: Seq<char>) -> Seq<char> {
    if prefix.len() == 0 {
        key
    } else {
        prefix + "."@ + key
    }
}

/// The TOML text of an object: its plain entries, then each table entry as
/// a `[section]` with its own text. Other values give no text.
pub open spec fn toml_of(v: Json, prefix: Seq<char>) -> Seq<char>
    decreases v,
{
    match v {
        Json::Object(entries) => toml_plain(entries) + toml_sections(entries, prefix),
        _ => Seq::empty(),
    }
}

/// The `[section]` parts of the table entries.
pub open spec fn toml_sections(entries: Seq<(Seq<char>, Json)>, prefix: Seq<char>) -> Seq<char>
    decreases entries,
{
    if entries.len() == 0 {
        Seq::empty()
    } else {
        proof {
            assert(decreases_to!(entries => entries[entries.len() - 1]));
            assert(decreases_to!(entries[entries.len() - 1] => entries[entries.len() - 1].1));
        }
        let e = entries[entries.len() - 1];
        toml_sections(entries.drop_last(), prefix) + match e.1 {
            Json::Object(_) => "\n["@ + section_name(prefix, e.0) + "]\n"@ + toml_of(
                e.1,
                section_name(prefix, e.0),
            ),
            _ => Seq::empty(),
        }
    }
}

fn toml_scalar_text(v: &JsonValue) -> (r: Vec<char>)
    ensures
        r@ == toml_scalar(v.json()),
{
    match v {
        JsonValue::Str(t) => {
            let mut out = chars_of("\"");
            push_str(&mut out, t.as_str());
            push_str(&mut out, "\"");
            out
        },
        JsonValue::Number(n) => str_chars(n.as_str()),
        JsonValue::Bool(b) => if *b {
            chars_of("true")
        } else {
            chars_of("false")
        },
        JsonValue::Null => chars_of("\"\""),
        _ => {
            let c = compact_json(v);
            let mut out = chars_of("\"");
            push_str(&mut out, c.as_str());
            push_str(&mut out, "\"");
            out
        },
    }
}

fn toml_array_text(arr: &Vec<JsonValue>) -> (r: Vec<char>)
    ensures
        r@ == toml_scalars(items_view(arr@)),
{
    let ghost items = items_view(arr@);
    let mut out: Vec<char> = Vec::new();
    let mut i: usize = 0;
    while i < arr.len()
        invariant
            i <= arr.len(),
            items == items_view(arr@),
            out@ == toml_scalars(items.take(i as int)),
        decreases arr.len() - i,
    {
        if i > 0 {
            push_str(&mut out, ", ");
        }
        let t = toml_scalar_text(&arr[i]);
        extend_chars(&mut out, &t);
        proof {
            let p = items.take(i as int + 1);
            assert(p.drop_last() =~= items.take(i as int));
            if i == 0 {
                assert(out@ =~= toml_scalar(p[0]));
            }
        }
        i = i + 1;
    }
    assert(items.take(arr.len() as int) =~= items);
    out
}

/// The TOML text of a value inside the table `prefix`.
fn json_value_to_toml(value: &JsonValue, prefix: &Vec<char>) -> (r: Vec<char>)
    ensures
        r@ == toml_of(value.json(), prefix@),
    decreases value,
{
    match value {
        JsonValue::Object(entries) => {
            proof {
                lemma_json_object(*entries);
            }
            let ghost es = entries_view(entries@);
            let mut out: Vec<char> = Vec::new();
            let mut i: usize = 0;
            while i < entries.len()
                invariant
                    i <= entries.len(),
                    es == entries_view(entries@),
                    out@ == toml_plain(es.take(i as int)),
                decreases entries.len() - i,
            {
                match &entries[i].1 {
                    JsonValue::Object(_) => {},
                    JsonValue::Array(arr) => {
                        proof {
                            lemma_json_array(*arr);
                        }
                        push_str(&mut out, entries[i].0.as_str());
                        push_str(&mut out, " = [");
                        let items = toml_array_text(arr);
                        extend_chars(&mut out, &items);
                        push_str(&mut out, "]\n");
                    },
                    other => {
                        push_str(&mut out, entries[i].0.as_str());
                        push_str(&mut out, " = ");
                        let t = toml_scalar_text(other);
                        extend_chars(&mut out, &t);
                        push_str(&mut out, "\n");
                    },
                }
                proof {
                    let p = es.take(i as int + 1);
                    assert(p.drop_last() =~= es.take(i as int));
                    assert(p.last() == (entries@[i as int].0@, entries@[i as int].1.json()));
                }
                i = i + 1;
            }
            assert(es.take(entries.len() as int) =~= es);
            let ghost plain = out@;
            let mut j: usize = 0;
            while j < entries.len()
                invariant
                    j <= entries.len(),
                    es == entries_view(entries@),
                    *value == JsonValue::Object(*entries),
                    out@ == plain + toml_sections(es.take(j as int), prefix@),
                decreases entries.len() - j,
            {
                match &entries[j].1 {
                    JsonValue::Object(_) => {
                        let mut section: Vec<char> = Vec::new();
                        if prefix.len() == 0 {
                            push_str(&mut section, entries[j].0.as_str());
                        } else {
                            extend_chars(&mut section, prefix);
                            push_str(&mut section, ".");
                            push_str(&mut section, entries[j].0.as_str());
                        }
                        push_str(&mut out, "\n[");
                        extend_chars(&mut out, &section);
                        push_str(&mut out, "]\n");
                        proof {
                            assert(decreases_to!(*value => value->Object_0));
                            assert(decreases_to!(*entries => entries@));
                            assert(decreases_to!(entries@ => entries@[j as int]));
                            assert(decreases_to!(entries@[j as int] => entries@[j as int].1));
                        }
                        let inner = json_value_to_toml(&entries[j].1, &section);
                        extend_chars(&mut out, &inner);
                    },
                    _ => {},
                }
                proof {
                    let p = es.take(j as int + 1);
                    assert(p.drop_last() =~= es.take(j as int));
                    assert(p[p.len() - 1] == (entries@[j as int].0@, entries@[j as int].1.json()));
                }
                j = j + 1;
            }
            assert(es.take(entries.len() as int) =~= es);
            out
        },
        _ => Vec::new(),
    }
}

/// The result of turning JSON into TOML.
pub open spec fn json_toml_result(input: Seq<u8>) -> Result<Seq<u8>, Seq<char>> {
    if !valid_utf8(input) {
        Err(utf8_failure(input))
    } else {
        match json_parse(decode_utf8(input)) {
            Ok(j) => Ok(encode_utf8(toml_of(j, Seq::empty()))),
            Err(m) => Err("Invalid JSON: "@ + m),
        }
    }
}

/// JSON turned into TOML.
pub fn json_to_toml(input: &[u8]) -> (r: Result<Vec<u8>, String>)
    ensures
        bytes_view(r) == json_toml_result(input@),
{
    let text = decode_text(input)?;
    let value = match parse_json(&text) {
        Ok(v) => v,
        Err(m) => return Err(prefixed("Invalid JSON: ", &m)),
    };
    let prefix: Vec<char> = Vec::new();
    assert(prefix@ =~= Seq::<char>::empty());
    let toml = json_value_to_toml(&value, &prefix);
    Ok(utf8_bytes(&toml))
}

// ── Objects as maps ─────────────────────────────────────────────

/// The position of the entry with key `k`.
pub open spec fn key_position(entries: Seq<(Seq<char>, Json)>, k: Seq<char>) -> Option<int>
    decreases entries.len(),
{
    if entries.len() == 0 {
        None
    } else {
        match key_position(entries.drop_last(), k) {
            Some(i) => Some(i),
            None => if entries.last().0 == k {
                Some(entries.len() - 1)
            } else {
                None
            },
        }
    }
}

/// `serde_json::Map::insert`: the value of an existing key is replaced, a
/// new key is added.
pub open spec fn map_insert(entries: Seq<(Seq<char>, Json)>, k: Seq<char>, v: Json) -> Seq<(Seq<char>, Json)> {
    match key_position(entries, k) {
        Some(i) => entries.update(i, (k, v)),
        None => entries.push((k, v)),
    }
}

pub proof fn lemma_key_position(entries: Seq<(Seq<char>, Json)>, k: Seq<char>)
    ensures
        key_position(entries, k) matches Some(i) ==> 0 <= i < entries.len() && entries[i].0 == k
            && forall|j: int| 0 <= j < i ==> entries[j].0 != k,
        key_position(entries, k) is None ==> forall|j: int| 0 <= j < entries.len() ==> entries[j].0 != k,
    decreases entries.len(),
{
    if entries.len() > 0 {
        let d = entries.drop_last();
        lemma_key_position(d, k);
        assert(forall|j: int| #![trigger entries[j]] 0 <= j < d.len() ==> d[j] == entries[j]);
    }
}

/// Finds the entry with the given key.
pub fn find_key(entries: &Vec<(String, JsonValue)>, k: &[char]) -> (r: Option<usize>)
    ensures
        r matches Some(i) ==> key_position(entries_view(entries@), k@) == Some(i as int),
        r is None ==> key_position(entries_view(entries@), k@) is None,
{
    let ghost es = entries_view(entries@);
    proof {
        lemma_key_position(es, k@);
    }
    let mut i: usize = 0;
    while i < entries.len()
        invariant
            i <= entries.len(),
            es == entries_view(entries@),
            forall|j: int| 0 <= j < i ==> es[j].0 != k@,
            key_position(es, k@) matches Some(p) ==> 0 <= p < es.len() && es[p].0 == k@
                && forall|j: int| 0 <= j < p ==> es[j].0 != k@,
            key_position(es, k@) is None ==> forall|j: int| 0 <= j < es.len() ==> es[j].0 != k@,
        decreases entries.len() - i,
    {
        if crate::text::eq_str(k, entries[i].0.as_str()) {
            assert(es[i as int].0 == k@);
            return Some(i);
        }
        i = i + 1;
    }
    None
}

/// Inserts into an object's entries as `serde_json::Map::insert` does.
pub fn object_insert(entries: &mut Vec<(String, JsonValue)>, k: String, v: JsonValue)
    ensures
        entries_view(final(entries)@) == map_insert(entries_view(old(entries)@), k@, v.json()),
{
    let kc = str_chars(k.as_str());
    proof {
        lemma_key_position(entries_view(entries@), k@);
    }
    match find_key(entries, &kc) {
        Some(i) => {
            let ghost before = entries@;
            let _old = entries.remove(i);
            entries.insert(i, (k, v));
            assert(entries@ =~= before.update(i as int, (k, v)));
            assert(entries_view(entries@) =~= entries_view(before).update(i as int, (k@, v.json())));
        },
        None => {
            let ghost before = entries@;
            entries.push((k, v));
            assert(entries_view(entries@) =~= entries_view(before).push((k@, v.json())));
        },
    }
}

// ── Scalars in text ─────────────────────────────────────────────

/// `str::trim_start_matches` with a character.
pub open spec fn trim_start_matches(s: Seq<char>, c: char) -> Seq<char>
    decreases s.len(),
{
    if s.len() > 0 && s[0] == c {
        trim_start_matches(s.drop_first(), c)
    } else {
        s
    }
}

/// `str::trim_end_matches` with a character.
pub open spec fn trim_end_matches(s: Seq<char>, c: char) -> Seq<char>
    decreases s.len(),
{
    if s.len() > 0 && s.last() == c {
        trim_end_matches(s.drop_last(), c)
    } else {
        s
    }
}

/// `str::trim_matches` with a character.
pub open spec fn trim_matches(s: Seq<char>, c: char) -> Seq<char> {
    trim_end_matches(trim_start_matches(s, c), c)
}

fn trim_matches_chars(s: &[char], c: char) -> (r: Vec<char>)
    ensures
        r@ == trim_matches(s@, c),
{
    let mut a: usize = 0;
    assert(s@.skip(0) =~= s@);
    while a < s.len() && s[a] == c
        invariant
            a <= s.len(),
            trim_start_matches(s@.skip(a as int), c) == trim_start_matches(s@, c),
        decreases s.len() - a,
    {
        assert(s@.skip(a as int).drop_first() =~= s@.skip(a as int + 1));
        a = a + 1;
    }
    let mut b: usize = s.len();
    assert(s@.subrange(a as int, b as int) =~= s@.skip(a as int));
    while b > a && s[b - 1] == c
        invariant
            a <= b <= s.len(),
            trim_end_matches(s@.subrange(a as int, b as int), c) == trim_matches(s@, c),
        decreases b - a,
    {
        assert(s@.subrange(a as int, b as int).drop_last() =~= s@.subrange(a as int, b - 1));
        b = b - 1;
    }
    let mut out: Vec<char> = Vec::new();
    let mut i = a;
    while i < b
        invariant
            a <= i <= b <= s.len(),
            out@ == s@.subrange(a as int, i as int),
        decreases b - i,
    {
        out.push(s[i]);
        i = i + 1;
        assert(out@ =~= s@.subrange(a as int, i as int));
    }
    out
}

/// The JSON value of a YAML scalar: `null`, `~` and nothing are null,
/// `true` and `false` booleans, numbers numbers; other text is a string,
/// without surrounding quotes unless it was a float JSON cannot hold.
pub open spec fn yaml_value(s: Seq<char>) -> Json {
    if s.len() == 0 || s == "null"@ || s == "~"@ {
        Json::Null
    } else if s == "true"@ {
        Json::Bool(true)
    } else if s == "false"@ {
        Json::Bool(false)
    } else {
        match number_in(s) {
            Some(Some(t)) => Json::Number(t),
            Some(None) => Json::Str(s),
            None => Json::Str(trim_matches(trim_matches(s, '"'), '\'')),
        }
    }
}

fn parse_yaml_value(s: &[char]) -> (r: JsonValue)
    ensures
        r.json() == yaml_value(s@),
{
    if s.len() == 0 || crate::text::eq_str(s, "null") || crate::text::eq_str(s, "~") {
        JsonValue::Null
    } else if crate::text::eq_str(s, "true") {
        JsonValue::Bool(true)
    } else if crate::text::eq_str(s, "false") {
        JsonValue::Bool(false)
    } else {
        match read_number(s) {
            Some(Some(t)) => JsonValue::Number(t),
            Some(None) => JsonValue::Str(string_from_chars(s)),
            None => {
                let a = trim_matches_chars(s, '"');
                let b = trim_matches_chars(&a, '\'');
                JsonValue::Str(string_from_chars(&b))
            },
        }
    }
}

/// The JSON value of a TOML value: quoted text is a string without its
/// quotes, `true` and `false` booleans, numbers numbers, anything else a
/// string as written.
pub open spec fn toml_value(s: Seq<char>) -> Json {
    let s = trim(s);
    if s.len() > 0 && ((s[0] == '"' && s.last() == '"') || (s[0] == '\'' && s.last() == '\'')) {
        Json::Str(s.subrange(1, s.len() - 1))
    } else if s == "true"@ {
        Json::Bool(true)
    } else if s == "false"@ {
        Json::Bool(false)
    } else {
        match number_in(s) {
            Some(Some(t)) => Json::Number(t),
            _ => Json::Str(s),
        }
    }
}

/// A TOML value that is a lone quote character, on which the value reader
/// slices out of bounds.
pub open spec fn toml_value_lone_quote(s: Seq<char>) -> bool {
    trim(s).len() == 1 && (trim(s)[0] == '"' || trim(s)[0] == '\'')
}

fn parse_toml_value(s: &[char]) -> (r: JsonValue)
    requires
        !toml_value_lone_quote(s@),
    ensures
        r.json() == toml_value(s@),
{
    let t = trim_chars(s);
    let n = t.len();
    if n > 0 && ((t[0] == '"' && t[n - 1] == '"') || (t[0] == '\'' && t[n - 1] == '\'')) {
        let mut inner: Vec<char> = Vec::new();
        let mut i: usize = 1;
        while i < n - 1
            invariant
                2 <= n == t.len(),
                1 <= i <= n - 1,
                inner@ == t@.subrange(1, i as int),
            decreases n - 1 - i,
        {
            inner.push(t[i]);
            i = i + 1;
            assert(inner@ =~= t@.subrange(1, i as int));
        }
        JsonValue::Str(string_from_chars(&inner))
    } else if crate::text::eq_str(&t, "true") {
        JsonValue::Bool(true)
    } else if crate::text::eq_str(&t, "false") {
        JsonValue::Bool(false)
    } else {
        match read_number(&t) {
            Some(Some(num)) => JsonValue::Number(num),
            _ => JsonValue::Str(string_from_chars(&t)),
        }
    }
}

// ── YAML to JSON ────────────────────────────────────────────────

/// The entries of a flat YAML document, line by line: blank lines, `#`
/// comments, `---` and lines without `:` are passed over; `key: value` sets
/// the trimmed key to the value.
pub open spec fn yaml_map(lines: Seq<Seq<char>>) -> Seq<(Seq<char>, Json)>
    decreases lines.len(),
{
    if lines.len() == 0 {
        Seq::empty()
    } else {
        let prev = yaml_map(lines.drop_last());
        let line = trim(lines.last());
        if line.len() == 0 || line[0] == '#' || line == "---"@ {
            prev
        } else {
            let k = index_of(line, ':');
            if k < line.len() {
                map_insert(prev, trim(line.take(k)), yaml_value(trim(line.skip(k + 1))))
            } else {
                prev
            }
        }
    }
}

/// The result of turning YAML into JSON.
pub open spec fn yaml_json_result(input: Seq<u8>) -> Result<Seq<u8>, Seq<char>> {
    if !valid_utf8(input) {
        Err(utf8_failure(input))
    } else {
        match json_pretty(Json::Object(yaml_map(str_lines(decode_utf8(input))))) {
            Ok(t) => Ok(encode_utf8(t)),
            Err(m) => Err("JSON serialization error: "@ + m),
        }
    }
}

/// Splits `line` at its first `c`, as `str::split_once`.
fn split_at_first(line: &[char], c: char) -> (r: Option<(Vec<char>, Vec<char>)>)
    ensures
        index_of(line@, c) < line@.len() <==> r is Some,
        r matches Some((a, b)) ==> a@ == line@.take(index_of(line@, c)) && b@ == line@.skip(
            index_of(line@, c) + 1,
        ),
{
    let k = crate::text::find_char(line, 0, c);
    assert(line@.skip(0) =~= line@);
    if k >= line.len() {
        return None;
    }
    let mut a: Vec<char> = Vec::new();
    let mut i: usize = 0;
    while i < k
        invariant
            i <= k < line.len(),
            a@ == line@.take(i as int),
        decreases k - i,
    {
        a.push(line[i]);
        i = i + 1;
        assert(a@ =~= line@.take(i as int));
    }
    let mut b: Vec<char> = Vec::new();
    let mut j = k + 1;
    while j < line.len()
        invariant
            k + 1 <= j <= line.len(),
            b@ == line@.subrange(k + 1, j as int),
        decreases line.len() - j,
    {
        b.push(line[j]);
        j = j + 1;
        assert(b@ =~= line@.subrange(k + 1, j as int));
    }
    assert(b@ =~= line@.skip(k + 1));
    Some((a, b))
}

/// The flat YAML document's entries as a JSON object.
fn simple_yaml_parse(text: &[char]) -> (r: JsonValue)
    ensures
        r.json() == Json::Object(yaml_map(str_lines(text@))),
{
    let lines = text_lines(text);
    let ghost ls = views(lines@);
    let mut map: Vec<(String, JsonValue)> = Vec::new();
    let mut i: usize = 0;
    while i < lines.len()
        invariant
            i <= lines.len(),
            ls == views(lines@),
            ls == str_lines(text@),
            entries_view(map@) == yaml_map(ls.take(i as int)),
        decreases lines.len() - i,
    {
        let line = trim_chars(&lines[i]);
        proof {
            let t = ls.take(i as int + 1);
            assert(t.drop_last() =~= ls.take(i as int));
            assert(t.last() == lines@[i as int]@);
        }
        if line.len() == 0 || line[0] == '#' || crate::text::eq_str(&line, "---") {
        } else {
            match split_at_first(&line, ':') {
                Some((key, val)) => {
                    let k = trim_chars(&key);
                    let v = trim_chars(&val);
                    let value = parse_yaml_value(&v);
                    object_insert(&mut map, string_from_chars(&k), value);
                },
                None => {},
            }
        }
        i = i + 1;
    }
    assert(ls.take(lines.len() as int) =~= ls);
    proof {
        lemma_json_object(map);
    }
    JsonValue::Object(map)
}

/// Flat YAML turned into pretty-printed JSON.
pub fn yaml_to_json(input: &[u8]) -> (r: Result<Vec<u8>, String>)
    ensures
        bytes_view(r) == yaml_json_result(input@),
{
    let text = decode_text(input)?;
    let value = simple_yaml_parse(&text);
    match pretty_json(&value) {
        Ok(t) => {
            let cs = str_chars(t.as_str());
            Ok(utf8_bytes(&cs))
        },
        Err(m) => Err(prefixed("JSON serialization error: ", &m)),
    }
}

// ── TOML to JSON ────────────────────────────────────────────────

/// `key = value` inside the table `sec`: the table is made where it is
/// missing, and a key of that name that holds no table is left as it is.
pub open spec fn table_insert(root: Seq<(Seq<char>, Json)>, sec: Seq<char>, key: Seq<char>, v: Json) -> Seq<(Seq<char>, Json)> {
    match key_position(root, sec) {
        None => root.push((sec, Json::Object(seq![(key, v)]))),
        Some(i) => match root[i].1 {
            Json::Object(m) => root.update(i, (sec, Json::Object(map_insert(m, key, v)))),
            _ => root,
        },
    }
}

/// What a trimmed TOML line is: blank or comment, a `[section]` header, or
/// a `key = value` pair split at its first `=` (anything else is passed
/// over).
pub open spec fn toml_line_header(line: Seq<char>) -> bool {
    line.len() > 0 && line[0] == '[' && line.last() == ']'
}

pub open spec fn toml_line_skipped(line: Seq<char>) -> bool {
    line.len() == 0 || line[0] == '#'
}

/// The root entries and the current section after the lines, in order.
pub open spec fn toml_state(lines: Seq<Seq<char>>) -> (Seq<(Seq<char>, Json)>, Option<Seq<char>>)
    decreases lines.len(),
{
    if lines.len() == 0 {
        (Seq::empty(), None)
    } else {
        let prev = toml_state(lines.drop_last());
        let line = trim(lines.last());
        if toml_line_skipped(line) {
            prev
        } else if toml_line_header(line) {
            (prev.0, Some(trim(line.subrange(1, line.len() - 1))))
        } else {
            let k = index_of(line, '=');
            if k < line.len() {
                let key = trim(line.take(k));
                let parsed = toml_value(line.skip(k + 1));
                match prev.1 {
                    Some(sec) => (table_insert(prev.0, sec, key, parsed), prev.1),
                    None => (map_insert(prev.0, key, parsed), prev.1),
                }
            } else {
                prev
            }
        }
    }
}

/// No `key = value` line of the document has a lone quote as its value.
pub open spec fn toml_values_readable(lines: Seq<Seq<char>>) -> bool {
    forall|i: int| 0 <= i < lines.len() ==> {
        let line = trim(#[trigger] lines[i]);
        !toml_line_skipped(line) && !toml_line_header(line) && index_of(line, '=') < line.len()
            ==> !toml_value_lone_quote(line.skip(index_of(line, '=') + 1))
    }
}

/// The result of turning TOML into JSON.
pub open spec fn toml_json_result(input: Seq<u8>) -> Result<Seq<u8>, Seq<char>> {
    if !valid_utf8(input) {
        Err(utf8_failure(input))
    } else {
        match json_pretty(Json::Object(toml_state(str_lines(decode_utf8(input))).0)) {
            Ok(t) => Ok(encode_utf8(t)),
            Err(m) => Err("JSON serialization error: "@ + m),
        }
    }
}

/// Inserts `key = value` into the table `sec` of the root entries.
fn table_insert_exec(root: &mut Vec<(String, JsonValue)>, sec: &[char], key: String, v: JsonValue)
    ensures
        entries_view(final(root)@) == table_insert(entries_view(old(root)@), sec@, key@, v.json()),
{
    proof {
        lemma_key_position(entries_view(root@), sec@);
    }
    match find_key(root, sec) {
        None => {
            let ghost before = root@;
            let mut inner: Vec<(String, JsonValue)> = Vec::new();
            let ghost kv = key@;
            let ghost vj = v.json();
            inner.push((key, v));
            proof {
                lemma_json_object(inner);
                assert(entries_view(inner@) =~= seq![(kv, vj)]);
            }
            root.push((string_from_chars(sec), JsonValue::Object(inner)));
            assert(entries_view(root@) =~= entries_view(before).push((sec@, Json::Object(seq![(kv, vj)]))));
        },
        Some(i) => {
            let ghost before = root@;
            let (k0, val) = root.remove(i);
            assert(k0@ == sec@);
            match val {
                JsonValue::Object(mut m) => {
                    proof {
                        lemma_json_object(m);
                    }
                    let ghost mv = entries_view(m@);
                    object_insert(&mut m, key, v);
                    proof {
                        lemma_json_object(m);
                    }
                    root.insert(i, (k0, JsonValue::Object(m)));
                    assert(root@ =~= before.update(i as int, root@[i as int]));
                    assert(entries_view(root@) =~= entries_view(before).update(
                        i as int,
                        (sec@, Json::Object(map_insert(mv, key@, v.json()))),
                    ));
                },
                other => {
                    root.insert(i, (k0, other));
                    assert(root@ =~= before);
                },
            }
        },
    }
}

/// The flat TOML document's root entries as a JSON object.
fn simple_toml_parse(text: &[char]) -> (r: JsonValue)
    requires
        toml_values_readable(str_lines(text@)),
    ensures
        r.json() == Json::Object(toml_state(str_lines(text@)).0),
{
    let lines = text_lines(text);
    let ghost ls = views(lines@);
    let mut root: Vec<(String, JsonValue)> = Vec::new();
    let mut section: Option<Vec<char>> = None;
    let mut i: usize = 0;
    while i < lines.len()
        invariant
            i <= lines.len(),
            ls == views(lines@),
            ls == str_lines(text@),
            toml_values_readable(ls),
            entries_view(root@) == toml_state(ls.take(i as int)).0,
            match section {
                Some(s) => toml_state(ls.take(i as int)).1 == Some(s@),
                None => toml_state(ls.take(i as int)).1 is None,
            },
        decreases lines.len() - i,
    {
        let line = trim_chars(&lines[i]);
        proof {
            let t = ls.take(i as int + 1);
            assert(t.drop_last() =~= ls.take(i as int));
            assert(t.last() == lines@[i as int]@);
            assert(ls[i as int] == lines@[i as int]@);
        }
        let n = line.len();
        if n == 0 || line[0] == '#' {
        } else if line[0] == '[' && line[n - 1] == ']' {
            let mut inner: Vec<char> = Vec::new();
            let mut j: usize = 1;
            while j < n - 1
                invariant
                    n == line.len(),
                    1 <= n,
                    1 <= j <= if n >= 2 { n - 1 } else { 1 },
                    inner@ == line@.subrange(1, j as int),
                decreases n - j,
            {
                inner.push(line[j]);
                j = j + 1;
                assert(inner@ =~= line@.subrange(1, j as int));
            }
            assert(n >= 2) by {
                if n == 1 {
                    assert(line@[0] == line@.last());
                }
            }
            section = Some(trim_chars(&inner));
        } else {
            match split_at_first(&line, '=') {
                Some((key, val)) => {
                    let k = trim_chars(&key);
                    let value = parse_toml_value(&val);
                    match &section {
                        Some(sec) => {
                            table_insert_exec(&mut root, sec, string_from_chars(&k), value);
                        },
                        None => {
                            object_insert(&mut root, string_from_chars(&k), value);
                        },
                    }
                },
                None => {},
            }
        }
        i = i + 1;
    }
    assert(ls.take(lines.len() as int) =~= ls);
    proof {
        lemma_json_object(root);
    }
    JsonValue::Object(root)
}

/// Flat TOML turned into pretty-printed JSON.
pub fn toml_to_json(input: &[u8]) -> (r: Result<Vec<u8>, String>)
    requires
        valid_utf8(input@) ==> toml_values_readable(str_lines(decode_utf8(input@))),
    ensures
        bytes_view(r) == toml_json_result(input@),
{
    let text = decode_text(input)?;
    let value = simple_toml_parse(&text);
    match pretty_json(&value) {
        Ok(t) => {
            let cs = str_chars(t.as_str());
            Ok(utf8_bytes(&cs))
        },
        Err(m) => Err(prefixed("JSON serialization error: ", &m)),
    }
}

/// Whether no `key = value` line of the text has a lone quote as its value.
pub fn toml_readable(text: &[char]) -> (r: bool)
    ensures
        r == toml_values_readable(str_lines(text@)),
{
    let lines = text_lines(text);
    let ghost ls = views(lines@);
    let mut i: usize = 0;
    while i < lines.len()
        invariant
            i <= lines.len(),
            ls == views(lines@),
            ls == str_lines(text@),
            forall|j: int| 0 <= j < i ==> {
                let line = trim(#[trigger] ls[j]);
                !toml_line_skipped(line) && !toml_line_header(line) && index_of(line, '=')
                    < line.len() ==> !toml_value_lone_quote(line.skip(index_of(line, '=') + 1))
            },
        decreases lines.len() - i,
    {
        assert(ls[i as int] == lines@[i as int]@);
        let line = trim_chars(&lines[i]);
        let n = line.len();
        if n == 0 || line[0] == '#' || (line[0] == '[' && line[n - 1] == ']') {
        } else {
            match split_at_first(&line, '=') {
                Some((_key, val)) => {
                    let v = trim_chars(&val);
                    if v.len() == 1 && (v[0] == '"' || v[0] == '\'') {
                        return false;
                    }
                },
                None => {},
            }
        }
        i = i + 1;
    }
    true
}

// ── What the writers and readers agree on ──────────────────────

/// A text with no white space at either end is its own trim.
proof fn lemma_trim_plain(s: Seq<char>)
    requires
        s.len() > 0,
        !crate::text::is_whitespace(s[0]),
        !crate::text::is_whitespace(s.last()),
    ensures
        trim(s) == s,
{
    assert(trim_start(s) == s);
    assert(crate::text::trim_end(s) == s);
}

/// The JSON literal of a boolean.
pub open spec fn bool_literal(b: bool) -> Seq<char> {
    if b {
        "true"@
    } else {
        "false"@
    }
}

/// A boolean's literal, with white space around it, reads back as that
/// boolean in YAML and in TOML.
proof fn lemma_bool_literal_reads(b: bool, pre: Seq<char>, post: Seq<char>)
    requires
        forall|i: int| 0 <= i < pre.len() ==> crate::text::is_whitespace(#[trigger] pre[i]),
        forall|i: int| 0 <= i < post.len() ==> crate::text::is_whitespace(#[trigger] post[i]),
    ensures
        trim(pre + bool_literal(b) + post) == bool_literal(b),
        yaml_value(bool_literal(b)) == Json::Bool(b),
        toml_value(pre + bool_literal(b) + post) == Json::Bool(b),
    decreases pre.len() + post.len(),
{
    reveal_strlit("true");
    reveal_strlit("false");
    reveal_strlit("null");
    reveal_strlit("~");
    assert("true"@[0] != "null"@[0] && "false"@[0] != "null"@[0]);
    assert("true"@[0] != "~"@[0] && "false"@[0] != "~"@[0] && "true"@[0] != "false"@[0]);
    let w = bool_literal(b);
    let s = pre + w + post;
    if pre.len() > 0 {
        assert(crate::text::is_whitespace(s[0]));
        assert(s.drop_first() =~= pre.drop_first() + w + post);
        lemma_bool_literal_reads(b, pre.drop_first(), post);
        assert(trim_start(s) == trim_start(s.drop_first()));
    } else if post.len() > 0 {
        assert(crate::text::is_whitespace(s.last()));
        assert(s.drop_last() =~= pre + w + post.drop_last());
        lemma_bool_literal_reads(b, pre, post.drop_last());
        assert(s =~= w + post);
        assert(trim_start(s) == s);
        assert(trim_start(s.drop_last()) == s.drop_last());
        assert(crate::text::trim_end(s) == crate::text::trim_end(s.drop_last()));
    } else {
        assert(s =~= w);
        lemma_trim_plain(w);
    }
}

/// Every JSON boolean is written as its literal, by the YAML writer (on a
/// line of its own) and by the TOML writer, so the two booleans are written
/// differently; and what either writer writes for a boolean reads back as
/// that same boolean, with the YAML reader and with the TOML reader alike.
/// JSON null written as YAML reads back as null.
pub proof fn law_scalar_roundtrip(b: bool, indent: nat)
    ensures
        yaml_of(Json::Bool(b), indent) == bool_literal(b) + "\n"@,
        toml_scalar(Json::Bool(b)) == bool_literal(b),
        yaml_of(Json::Bool(true), indent) != yaml_of(Json::Bool(false), indent),
        toml_scalar(Json::Bool(true)) != toml_scalar(Json::Bool(false)),
        yaml_value(trim(yaml_of(Json::Bool(b), indent))) == Json::Bool(b),
        toml_value(yaml_of(Json::Bool(b), indent)) == Json::Bool(b),
        toml_value(toml_scalar(Json::Bool(b))) == Json::Bool(b),
        yaml_value(trim(toml_scalar(Json::Bool(b)))) == Json::Bool(b),
        yaml_value(trim(yaml_of(Json::Null, indent))) == Json::Null,
{
    reveal_strlit("true");
    reveal_strlit("false");
    reveal_strlit("true\n");
    reveal_strlit("false\n");
    reveal_strlit("\n");
    reveal_strlit("null\n");
    reveal_strlit("null");
    let e: Seq<char> = Seq::empty();
    lemma_bool_literal_reads(b, e, "\n"@);
    assert(e + bool_literal(b) + "\n"@ =~= bool_literal(b) + "\n"@);
    lemma_bool_literal_reads(b, e, e);
    assert(e + bool_literal(b) + e =~= bool_literal(b));
    assert(yaml_of(Json::Bool(b), indent) =~= bool_literal(b) + "\n"@);
    assert("true\n"@[0] != "false\n"@[0]);
    assert("true"@[0] != "false"@[0]);
    let n = "null\n"@;
    assert(crate::text::is_whitespace(n.last()));
    assert(n.drop_last() =~= "null"@);
    lemma_trim_plain("null"@);
    assert(trim_start(n) == n);
    assert(crate::text::trim_end(n) == crate::text::trim_end(n.drop_last()));
}

/// A single line followed by a line break is read as that one line.
proof fn lemma_one_line(l: Seq<char>)
    requires
        l.len() > 0,
        l.last() != '\r',
        forall|i: int| 0 <= i < l.len() ==> #[trigger] l[i] != '\n',
    ensures
        str_lines(l + "\n"@) == seq![l],
{
    reveal_strlit("\n");
    let s = l + "\n"@;
    assert forall|i: int| 0 <= i < l.len() implies s[i] != '\n' by {
        assert(s[i] == l[i]);
    }
    crate::text::lemma_index_of(s, '\n', l.len() as int);
    assert(s.take(l.len() as int) =~= l);
    assert(s.skip((l.len() + 1) as int) =~= Seq::<char>::empty());
    assert(index_of(s, '\n') == l.len());
    assert(crate::pdf_text::strip_cr(l) == l);
    assert(str_lines(Seq::<char>::empty()) =~= Seq::<Seq<char>>::empty());
    assert(str_lines(s) == seq![crate::pdf_text::strip_cr(s.take(l.len() as int))] + str_lines(
        s.skip((l.len() + 1) as int),
    ));
    assert(str_lines(s) =~= seq![l]);
}

/// A key that a flat YAML or TOML line carries as written: not empty, no
/// white space at either end, not starting a comment, and holding neither a
/// line break nor the separator `sep` (`:` for YAML, `=` for TOML).
pub open spec fn plain_key(k: Seq<char>, sep: char) -> bool {
    &&& k.len() > 0
    &&& !crate::text::is_whitespace(k[0])
    &&& !crate::text::is_whitespace(k.last())
    &&& k[0] != '#'
    &&& k[0] != '['
    &&& forall|i: int| 0 <= i < k.len() ==> #[trigger] k[i] != sep && k[i] != '\n'
}

/// Writing an object of one boolean entry as YAML, and reading the YAML back,
/// gives the same object: the key and the same boolean.
pub proof fn law_yaml_document_roundtrip(k: Seq<char>, b: bool)
    requires
        plain_key(k, ':'),
    ensures
        yaml_map(str_lines(yaml_of(Json::Object(seq![(k, Json::Bool(b))]), 0))) == seq![
            (k, Json::Bool(b)),
        ],
{
    reveal_strlit(": ");
    reveal_strlit(" ");
    reveal_strlit("true");
    reveal_strlit("false");
    reveal_strlit("\n");
    reveal_strlit("---");
    let w = bool_literal(b);
    let es = seq![(k, Json::Bool(b))];
    let v = Json::Bool(b);
    law_scalar_roundtrip(b, 1);
    assert(trim_start(yaml_of(v, 1)) == yaml_of(v, 1));
    assert(es.drop_last() =~= Seq::<(Seq<char>, Json)>::empty());
    let l = k + ": "@ + w;
    assert(spaces(0) =~= Seq::<char>::empty());
    assert(yaml_entries(es.drop_last(), 0) =~= Seq::<char>::empty());
    assert(es[es.len() - 1] == (k, v));
    assert(yaml_entries(es, 0) == yaml_entries(es.drop_last(), 0) + spaces(0) + k + ": "@
        + trim_start(yaml_of(v, 1)));
    assert(yaml_of(Json::Object(es), 0) == Seq::<char>::empty() + yaml_entries(es, 0));
    assert(yaml_of(Json::Object(es), 0) =~= l + "\n"@);
    assert forall|i: int| 0 <= i < l.len() implies #[trigger] l[i] != '\n' by {
        if i >= k.len() + 2 {
            assert(l[i] == w[i - k.len() - 2]);
        }
    }
    lemma_one_line(l);
    let ls = seq![l];
    assert(ls.drop_last() =~= Seq::<Seq<char>>::empty());
    assert(ls.last() == l);
    lemma_trim_plain(l);
    assert(l[0] == k[0]);
    assert(l.len() != "---"@.len());
    assert forall|i: int| 0 <= i < k.len() implies l[i] != ':' by {
        assert(l[i] == k[i]);
    }
    crate::text::lemma_index_of(l, ':', k.len() as int);
    assert(l.take(k.len() as int) =~= k);
    lemma_trim_plain(k);
    let e: Seq<char> = Seq::empty();
    assert(l.skip((k.len() + 1) as int) =~= " "@ + w + e);
    lemma_bool_literal_reads(b, " "@, e);
    assert(trim(l.skip((k.len() + 1) as int)) == w);
    assert(key_position(Seq::<(Seq<char>, Json)>::empty(), k) is None);
    assert(map_insert(Seq::<(Seq<char>, Json)>::empty(), k, v) =~= es);
    assert(yaml_map(ls.drop_last()) == Seq::<(Seq<char>, Json)>::empty());
    assert(trim(ls.last()) == l);
    assert(index_of(l, ':') == k.len());
    assert(yaml_map(ls) == map_insert(
        Seq::<(Seq<char>, Json)>::empty(),
        trim(l.take(k.len() as int)),
        yaml_value(trim(l.skip((k.len() + 1) as int))),
    ));
    assert(str_lines(yaml_of(Json::Object(es), 0)) == ls);
}

/// Writing an object of one boolean entry as TOML, and reading the TOML back,
/// gives the same object: the key and the same boolean.
pub proof fn law_toml_document_roundtrip(k: Seq<char>, b: bool)
    requires
        plain_key(k, '='),
    ensures
        toml_state(str_lines(toml_of(Json::Object(seq![(k, Json::Bool(b))]), Seq::empty()))).0
            == seq![(k, Json::Bool(b))],
{
    reveal_strlit(" = ");
    reveal_strlit(" ");
    reveal_strlit("true");
    reveal_strlit("false");
    reveal_strlit("\n");
    let w = bool_literal(b);
    let es = seq![(k, Json::Bool(b))];
    let v = Json::Bool(b);
    law_scalar_roundtrip(b, 0);
    assert(es.drop_last() =~= Seq::<(Seq<char>, Json)>::empty());
    let l = k + " = "@ + w;
    assert(es.last() == (k, v));
    assert(toml_plain(es.drop_last()) =~= Seq::<char>::empty());
    assert(toml_plain(es) == toml_plain(es.drop_last()) + (k + " = "@ + toml_scalar(v) + "\n"@));
    assert(toml_plain(es) =~= l + "\n"@);
    assert(es[es.len() - 1] == (k, v));
    assert(toml_sections(es.drop_last(), Seq::empty()) =~= Seq::<char>::empty());
    assert(toml_sections(es, Seq::empty()) =~= Seq::<char>::empty());
    assert(toml_of(Json::Object(es), Seq::empty()) =~= l + "\n"@);
    assert forall|i: int| 0 <= i < l.len() implies #[trigger] l[i] != '\n' by {
        if i >= k.len() + 3 {
            assert(l[i] == w[i - k.len() - 3]);
        }
    }
    lemma_one_line(l);
    let ls = seq![l];
    assert(ls.drop_last() =~= Seq::<Seq<char>>::empty());
    assert(ls.last() == l);
    lemma_trim_plain(l);
    assert(l[0] == k[0]);
    assert(l.last() == w.last());
    assert forall|i: int| 0 <= i < k.len() implies l[i] != '=' by {
        assert(l[i] == k[i]);
    }
    assert(l[k.len() as int] == ' ');
    crate::text::lemma_index_of(l, '=', (k.len() + 1) as int);
    let kk = l.take((k.len() + 1) as int);
    assert(kk =~= k.push(' '));
    assert(kk.drop_last() =~= k);
    lemma_trim_plain(k);
    assert(trim_start(kk) == kk);
    assert(crate::text::trim_end(kk) == crate::text::trim_end(k));
    let e: Seq<char> = Seq::empty();
    assert(l.skip((k.len() + 2) as int) =~= " "@ + w + e);
    lemma_bool_literal_reads(b, " "@, e);
    assert(toml_value(l.skip((k.len() + 2) as int)) == v);
    assert(trim(kk) == k);
    assert(key_position(Seq::<(Seq<char>, Json)>::empty(), k) is None);
    assert(map_insert(Seq::<(Seq<char>, Json)>::empty(), k, v) =~= es);
    let empty_state: (Seq<(Seq<char>, Json)>, Option<Seq<char>>) = (Seq::empty(), None);
    assert(toml_state(ls.drop_last()) == empty_state);
    assert(trim(ls.last()) == l);
    assert(!toml_line_skipped(l));
    assert(!toml_line_header(l));
    assert(index_of(l, '=') == k.len() + 1);
    assert(toml_state(ls) == (map_insert(Seq::<(Seq<char>, Json)>::empty(), trim(kk), toml_value(
        l.skip((k.len() + 2) as int),
    )), None::<Seq<char>>));
    assert(str_lines(toml_of(Json::Object(es), Seq::empty())) == ls);
}

} // verus!
