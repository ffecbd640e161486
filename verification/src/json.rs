//! JSON documents as the store reads and rewrites them before they become
//! typed data: a value tree with objects as key/value lists, and the lenient
//! readers that pick a text, a flag or a count out of an object.
use vstd::prelude::*;
use vstd::string::*;
use serde_json::Value;
use crate::text::{concat, dec_seq, decimal, lowercase, owned, same_text, to_lower, trim, trim_seq};

verus! {

broadcast use vstd::string::group_string_axioms;

/// A JSON number as serde_json keeps it: a non-negative integer, a negative
/// integer, or a float (held as the text serde_json prints for it).
#[derive(Debug, Clone, PartialEq)]
pub enum Number {
    PosInt(u64),
    NegInt(i64),
    Float(String),
}

/// A JSON value. An object is its fields in order; no key occurs twice.
#[derive(Debug, PartialEq)]
pub enum Json {
    Null,
    Bool(bool),
    Number(Number),
    Str(String),
    Array(Vec<Json>),
    Object(Vec<(String, Json)>),
}

/// The value of the first field named `key`.
pub open spec fn field_of(fields: Seq<(String, Json)>, key: Seq<char>) -> Option<Json>
    decreases fields.len(),
{
    if fields.len() == 0 {
        None
    } else if fields[0].0@ == key {
        Some(fields[0].1)
    } else {
        field_of(fields.drop_first(), key)
    }
}

/// `Number::as_u64`.
pub open spec fn as_u64_spec(n: Number) -> Option<u64> {
    match n {
        Number::PosInt(u) => Some(u),
        _ => None,
    }
}

/// `Number::as_i64`.
pub open spec fn as_i64_spec(n: Number) -> Option<i64> {
    match n {
        Number::PosInt(u) => if u <= i64::MAX { Some(u as i64) } else { None },
        Number::NegInt(i) => Some(i),
        Number::Float(_) => None,
    }
}

impl Number {
    /// `Number::as_i64`.
    pub fn as_i64(&self) -> (r: Option<i64>)
        ensures
            r == as_i64_spec(*self),
    {
        match self {
            Number::PosInt(u) => if *u <= 9223372036854775807u64 { Some(*u as i64) } else { None },
            Number::NegInt(i) => Some(*i),
            Number::Float(_) => None,
        }
    }
}

/// The text serde_json prints for a number.
pub open spec fn number_text(n: Number) -> Seq<char> {
    match n {
        Number::PosInt(u) => dec_seq(u as nat),
        Number::NegInt(i) => if i < 0 { seq!['-'] + dec_seq((-i) as nat) } else { dec_seq(i as nat) },
        Number::Float(t) => t@,
    }
}

impl Json {
    /// `Value::get` with a key: the field of an object, nothing for anything else.
    pub open spec fn get_spec(self, key: Seq<char>) -> Option<Json> {
        match self {
            Json::Object(fields) => field_of(fields@, key),
            _ => None,
        }
    }

    pub open spec fn has(self, key: Seq<char>) -> bool {
        self.get_spec(key) is Some
    }

    pub fn get(&self, key: &str) -> (r: Option<&Json>)
        ensures
            match r {
                Some(v) => self.get_spec(key@) == Some(*v),
                None => self.get_spec(key@) is None,
            },
    {
        match self {
            Json::Object(fields) => {
                let mut i: usize = 0;
                assert(fields@.skip(0) =~= fields@);
                assert(self.get_spec(key@) == field_of(fields@, key@));
                while i < fields.len()
                    invariant
                        i <= fields@.len(),
                        self.get_spec(key@) == field_of(fields@, key@),
                        field_of(fields@, key@) == field_of(fields@.skip(i as int), key@),
                    decreases fields@.len() - i,
                {
                    proof {
                        assert(fields@.skip(i as int).drop_first() =~= fields@.skip(i + 1));
                        assert(fields@.skip(i as int)[0] == fields@[i as int]);
                    }
                    if same_text(fields[i].0.as_str(), key) {
                        assert(field_of(fields@.skip(i as int), key@) == Some(fields@[i as int].1));
                        return Some(&fields[i].1);
                    }
                    i = i + 1;
                }
                None
            },
            _ => None,
        }
    }

    pub fn is_object(&self) -> (r: bool)
        ensures
            r == (*self is Object),
    {
        match self {
            Json::Object(_) => true,
            _ => false,
        }
    }

    /// `Value::as_u64`.
    pub fn as_u64(&self) -> (r: Option<u64>)
        ensures
            r == match *self {
                Json::Number(n) => as_u64_spec(n),
                _ => None,
            },
    {
        match self {
            Json::Number(Number::PosInt(u)) => Some(*u),
            _ => None,
        }
    }

    /// `Value::as_bool`.
    pub fn as_bool(&self) -> (r: Option<bool>)
        ensures
            r == match *self {
                Json::Bool(b) => Some(b),
                _ => None,
            },
    {
        match self {
            Json::Bool(b) => Some(*b),
            _ => None,
        }
    }
}

// ---------------------------------------------------------------- lenient readers

/// What a field gives as text: a non-blank string trimmed, a flag or a
/// number by its JSON text; nothing for null, blank text, lists and objects.
pub open spec fn scalar_text(v: Json) -> Option<Seq<char>> {
    match v {
        Json::Str(t) => if trim_seq(t@).len() > 0 { Some(trim_seq(t@)) } else { None },
        Json::Bool(b) => Some(if b { "true"@ } else { "false"@ }),
        Json::Number(n) => Some(number_text(n)),
        _ => None,
    }
}

/// The first of `keys` whose field gives a text, and that text.
pub open spec fn text_of_spec(obj: Json, keys: Seq<Seq<char>>) -> Option<Seq<char>>
    decreases keys.len(),
{
    if keys.len() == 0 {
        None
    } else {
        match obj.get_spec(keys[0]) {
            Some(v) => match scalar_text(v) {
                Some(t) => Some(t),
                None => text_of_spec(obj, keys.drop_first()),
            },
            None => text_of_spec(obj, keys.drop_first()),
        }
    }
}

/// What a field gives as a flag: a bool; `true`/`1` or `false`/`0` as text
/// (any case, blanks around ignored); an integer, non-zero meaning true.
pub open spec fn flag_value(v: Json) -> Option<bool> {
    match v {
        Json::Bool(b) => Some(b),
        Json::Str(t) => {
            let l = lowercase(trim_seq(t@));
            if l == "true"@ || l == "1"@ {
                Some(true)
            } else if l == "false"@ || l == "0"@ {
                Some(false)
            } else {
                None
            }
        },
        Json::Number(n) => match as_i64_spec(n) {
            Some(i) => Some(i != 0),
            None => None,
        },
        _ => None,
    }
}

/// The first of `keys` whose field gives a flag, and that flag.
pub open spec fn bool_of_spec(obj: Json, keys: Seq<Seq<char>>) -> Option<bool>
    decreases keys.len(),
{
    if keys.len() == 0 {
        None
    } else {
        match obj.get_spec(keys[0]) {
            Some(v) => match flag_value(v) {
                Some(b) => Some(b),
                None => bool_of_spec(obj, keys.drop_first()),
            },
            None => bool_of_spec(obj, keys.drop_first()),
        }
    }
}

/// The first of `keys` whose field is a non-negative integer, capped at `u32::MAX`.
pub open spec fn number_of_spec(obj: Json, keys: Seq<Seq<char>>) -> Option<u32>
    decreases keys.len(),
{
    if keys.len() == 0 {
        None
    } else {
        match obj.get_spec(keys[0]) {
            Some(Json::Number(n)) => match as_u64_spec(n) {
                Some(u) => Some(if u > u32::MAX { u32::MAX } else { u as u32 }),
                None => number_of_spec(obj, keys.drop_first()),
            },
            _ => number_of_spec(obj, keys.drop_first()),
        }
    }
}

pub open spec fn key_views(keys: Seq<&str>) -> Seq<Seq<char>> {
    keys.map_values(|k: &str| k@)
}

fn number_string(n: &Number) -> (r: String)
    ensures
        r@ == number_text(*n),
{
    match n {
        Number::PosInt(u) => decimal(*u),
        Number::NegInt(i) => {
            if *i < 0 {
                let m: u64 = if *i == i64::MIN {
                    9223372036854775808u64
                } else {
                    (-*i) as u64
                };
                let d = decimal(m);
                proof {
                    reveal_strlit("-");
                }
                concat("-", d.as_str())
            } else {
                decimal(*i as u64)
            }
        },
        Number::Float(t) => t.clone(),
    }
}

fn scalar_text_of(v: &Json) -> (r: Option<String>)
    ensures
        match r {
            Some(t) => scalar_text(*v) == Some(t@),
            None => scalar_text(*v) is None,
        },
{
    match v {
        Json::Str(t) => {
            let s = trim(t.as_str());
            if s.unicode_len() > 0 {
                Some(s)
            } else {
                None
            }
        },
        Json::Bool(b) => if *b {
            Some(owned("true"))
        } else {
            Some(owned("false"))
        },
        Json::Number(n) => Some(number_string(n)),
        _ => None,
    }
}

/// The first of `keys` whose field gives a text (see `scalar_text`).
pub fn text_of(obj: &Json, keys: &[&str]) -> (r: Option<String>)
    ensures
        match r {
            Some(t) => text_of_spec(*obj, key_views(keys@)) == Some(t@),
            None => text_of_spec(*obj, key_views(keys@)) is None,
        },
{
    let ghost ks = key_views(keys@);
    let mut i: usize = 0;
    assert(ks.skip(0) =~= ks);
    while i < keys.len()
        invariant
            i <= keys@.len(),
            ks == key_views(keys@),
            text_of_spec(*obj, ks) == text_of_spec(*obj, ks.skip(i as int)),
        decreases keys@.len() - i,
    {
        proof {
            assert(ks.skip(i as int).drop_first() =~= ks.skip(i + 1));
            assert(ks.skip(i as int)[0] == keys@[i as int]@);
        }
        if let Some(v) = obj.get(keys[i]) {
            if let Some(t) = scalar_text_of(v) {
                return Some(t);
            }
        }
        i = i + 1;
    }
    None
}

fn flag_of(v: &Json) -> (r: Option<bool>)
    ensures
        r == flag_value(*v),
{
    match v {
        Json::Bool(b) => Some(*b),
        Json::Str(t) => {
            let s = trim(t.as_str());
            let l = to_lower(s.as_str());
            if same_text(l.as_str(), "true") || same_text(l.as_str(), "1") {
                Some(true)
            } else if same_text(l.as_str(), "false") || same_text(l.as_str(), "0") {
                Some(false)
            } else {
                None
            }
        },
        Json::Number(Number::PosInt(u)) => if *u <= i64::MAX as u64 {
            Some(*u != 0)
        } else {
            None
        },
        Json::Number(Number::NegInt(i)) => Some(*i != 0),
        _ => None,
    }
}

/// The first of `keys` whose field gives a flag (see `flag_value`).
pub fn bool_of(obj: &Json, keys: &[&str]) -> (r: Option<bool>)
    ensures
        r == bool_of_spec(*obj, key_views(keys@)),
{
    let ghost ks = key_views(keys@);
    let mut i: usize = 0;
    assert(ks.skip(0) =~= ks);
    while i < keys.len()
        invariant
            i <= keys@.len(),
            ks == key_views(keys@),
            bool_of_spec(*obj, ks) == bool_of_spec(*obj, ks.skip(i as int)),
        decreases keys@.len() - i,
    {
        proof {
            assert(ks.skip(i as int).drop_first() =~= ks.skip(i + 1));
            assert(ks.skip(i as int)[0] == keys@[i as int]@);
        }
        if let Some(v) = obj.get(keys[i]) {
            if let Some(b) = flag_of(v) {
                return Some(b);
            }
        }
        i = i + 1;
    }
    None
}

/// The first of `keys` whose field is a non-negative integer, capped at `u32::MAX`.
pub fn number_of(obj: &Json, keys: &[&str]) -> (r: Option<u32>)
    ensures
        r == number_of_spec(*obj, key_views(keys@)),
{
    let ghost ks = key_views(keys@);
    let mut i: usize = 0;
    assert(ks.skip(0) =~= ks);
    while i < keys.len()
        invariant
            i <= keys@.len(),
            ks == key_views(keys@),
            number_of_spec(*obj, ks) == number_of_spec(*obj, ks.skip(i as int)),
        decreases keys@.len() - i,
    {
        proof {
            assert(ks.skip(i as int).drop_first() =~= ks.skip(i + 1));
            assert(ks.skip(i as int)[0] == keys@[i as int]@);
        }
        if let Some(v) = obj.get(keys[i]) {
            if let Some(u) = v.as_u64() {
                return Some(if u > u32::MAX as u64 { u32::MAX } else { u as u32 });
            }
        }
        i = i + 1;
    }
    None
}


// ---------------------------------------------------------------- printing

#[verifier::external_type_specification]
#[verifier::external_body]
pub struct ExValue(Value);

/// What serde_json prints for a value (`Value::to_string`, the compact form).
pub uninterp spec fn json_compact(v: Json) -> Seq<char>;

/// The same value as serde_json's `Value`, built with its constructors.
#[verifier::external_body]
fn to_serde(v: &Json) -> Value {
    match v {
        Json::Null => Value::Null,
        Json::Bool(b) => Value::Bool(*b),
        Json::Number(Number::PosInt(u)) => Value::from(*u),
        Json::Number(Number::NegInt(i)) => Value::from(*i),
        Json::Number(Number::Float(t)) => serde_json::from_str(t).unwrap_or_default(),
        Json::Str(s) => Value::String(s.clone()),
        Json::Array(items) => Value::Array(items.iter().map(to_serde).collect()),
        Json::Object(fields) => Value::Object(fields.iter().map(|(k, x)| (k.clone(), to_serde(x))).collect()),
    }
}

/// serde_json's `Value::to_string` of the value: its compact JSON text.
#[verifier::external_body]
pub(crate) fn compact_text(v: &Json) -> (r: String)
    ensures
        r@ == json_compact(*v),
{
    to_serde(v).to_string()
}

// ---------------------------------------------------------------- parsing

/// What serde_json's `from_str::<Value>` makes of a text: the value, or the
/// text of its error.
pub uninterp spec fn json_parse(text: Seq<char>) -> Result<Json, Seq<char>>;

/// The library's form of a serde_json number value: serde_json keeps it as
/// a non-negative integer, a negative integer or a float, and `as_u64`,
/// `as_i64` tell which.
#[verifier::external_body]
fn number_from_serde(n: &Value) -> Number {
    match (n.as_u64(), n.as_i64()) {
        (Some(u), _) => Number::PosInt(u),
        (None, Some(i)) => Number::NegInt(i),
        (None, None) => Number::Float(n.to_string()),
    }
}

/// The library's tree of serde_json's `Value`, built field by field.
#[verifier::external_body]
fn from_serde(v: &Value) -> Json {
    match v {
        Value::Null => Json::Null,
        Value::Bool(b) => Json::Bool(*b),
        Value::Number(_) => Json::Number(number_from_serde(v)),
        Value::String(s) => Json::Str(s.clone()),
        Value::Array(items) => Json::Array(items.iter().map(from_serde).collect()),
        Value::Object(fields) => Json::Object(fields.iter().map(|(k, x)| (k.clone(), from_serde(x))).collect()),
    }
}

/// serde_json's `from_str::<Value>` of `text`, as the library's tree, or the
/// text of its error.
#[verifier::external_body]
fn serde_parse(text: &str) -> (r: Result<Json, String>)
    ensures
        match r {
            Ok(j) => json_parse(text@) == Ok::<Json, Seq<char>>(j),
            Err(e) => json_parse(text@) == Err::<Json, Seq<char>>(e@),
        },
{
    match serde_json::from_str::<Value>(text) {
        Ok(v) => Ok(from_serde(&v)),
        Err(e) => Err(e.to_string()),
    }
}

/// A text read as JSON: the value, or serde_json's own words on why not.
pub fn parse_value(text: &str) -> (r: Result<Json, String>)
    ensures
        match json_parse(text@) {
            Ok(j) => r == Ok::<Json, String>(j),
            Err(e) => r matches Err(m) && m@ == e,
        },
{
    serde_parse(text)
}

/// The message for a document that does not parse: cut short or malformed
/// when the parser says so (its message names the end of the input or what
/// it expected), unreadable otherwise.
pub open spec fn parse_failure_message(error: Seq<char>) -> Seq<char> {
    if crate::text::contains_seq(error, "EOF"@) || crate::text::contains_seq(error, "expected"@) {
        "数据文件被截断或格式不对，已停止写入"@
    } else {
        "数据文件读不了，已停止写入"@
    }
}

/// A stored document's text read as a JSON value, or the message to show
/// when it does not parse.
pub fn parse_document(text: &str) -> (r: Result<Json, String>)
    ensures
        match json_parse(text@) {
            Ok(j) => r == Ok::<Json, String>(j),
            Err(e) => r matches Err(m) && m@ == parse_failure_message(e),
        },
{
    match serde_parse(text) {
        Ok(j) => Ok(j),
        Err(e) => {
            if crate::text::contains(e.as_str(), "EOF") || crate::text::contains(e.as_str(), "expected") {
                Err(owned("数据文件被截断或格式不对，已停止写入"))
            } else {
                Err(owned("数据文件读不了，已停止写入"))
            }
        },
    }
}

} // verus!
