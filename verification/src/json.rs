//! JSON values as the library reads and builds them. A number is held by its
//! JSON text, so that no floating-point value is needed.
use vstd::prelude::*;
use crate::text::{str_eq, to_chars, dec, scan_digits, is_digit, digit_value, u64_to_string, IntErrorKind};

verus! {

/// A JSON value; an object lists its members in order, with distinct names.
#[derive(Debug)]
pub enum JsonValue {
    Null,
    Bool(bool),
    Number(String),
    Str(String),
    Array(Vec<JsonValue>),
    Object(Vec<(String, JsonValue)>),
}

/// The first member of the entries with the name.
pub open spec fn member(entries: Seq<(String, JsonValue)>, key: Seq<char>) -> Option<JsonValue>
    decreases entries.len(),
{
    if entries.len() == 0 {
        None
    } else if entries[0].0@ == key {
        Some(entries[0].1)
    } else {
        member(entries.drop_first(), key)
    }
}

/// What `Value::get` gives for a member name: the member of an object, and
/// nothing for any other value.
pub open spec fn get_spec(v: JsonValue, key: Seq<char>) -> Option<JsonValue> {
    match v {
        JsonValue::Object(entries) => member(entries@, key),
        _ => None,
    }
}

/// What `Value::as_str` gives: the text of a string.
pub open spec fn as_str_spec(v: Option<JsonValue>) -> Option<Seq<char>> {
    match v {
        Some(JsonValue::Str(s)) => Some(s@),
        _ => None,
    }
}

/// What `Value::as_u64` gives: the value of a number written as a non-negative
/// integer that fits in 64 bits.
pub open spec fn as_u64_spec(v: Option<JsonValue>) -> Option<u64> {
    match v {
        Some(JsonValue::Number(t)) => if t@.len() > 0 {
            match scan_digits(t@, 0, u64::MAX as nat) {
                Ok(n) => Some(n as u64),
                Err(_) => None,
            }
        } else {
            None
        },
        _ => None,
    }
}

impl JsonValue {
    /// The member with the name, when the value is an object that has one.
    pub fn get(&self, key: &str) -> (r: Option<&JsonValue>)
        ensures
            match r {
                Some(x) => get_spec(*self, key@) == Some(*x),
                None => get_spec(*self, key@) is None,
            },
    {
        match self {
            JsonValue::Object(entries) => {
                let k = key.to_string();
                let mut i: usize = 0;
                proof {
                    assert(entries@.skip(0) =~= entries@);
                }
                while i < entries.len()
                    invariant
                        i <= entries@.len(),
                        k@ == key@,
                        *self == JsonValue::Object(*entries),
                        member(entries@, key@) == member(entries@.skip(i as int), key@),
                    decreases entries@.len() - i,
                {
                    proof {
                        assert(entries@.skip(i as int).drop_first() =~= entries@.skip(i + 1));
                        assert(entries@.skip(i as int)[0] == entries@[i as int]);
                    }
                    if entries[i].0 == k {
                        return Some(&entries[i].1);
                    }
                    i = i + 1;
                }
                None
            },
            _ => None,
        }
    }

    /// The text of a string value.
    pub fn as_str(&self) -> (r: Option<&String>)
        ensures
            match r {
                Some(s) => as_str_spec(Some(*self)) == Some(s@),
                None => as_str_spec(Some(*self)) is None,
            },
    {
        match self {
            JsonValue::Str(s) => Some(s),
            _ => None,
        }
    }

    /// The value of a number written as a non-negative 64-bit integer.
    pub fn as_u64(&self) -> (r: Option<u64>)
        ensures
            r == as_u64_spec(Some(*self)),
    {
        match self {
            JsonValue::Number(t) => {
                let v = to_chars(t.as_str());
                if v.len() == 0 {
                    return None;
                }
                let mut acc: u64 = 0;
                let mut i: usize = 0;
                proof {
                    assert(v@.skip(0) =~= v@);
                }
                while i < v.len()
                    invariant
                        i <= v@.len(),
                        v@ == t@,
                        t@.len() > 0,
                        *self == JsonValue::Number(*t),
                        scan_digits(t@, 0, u64::MAX as nat) == scan_digits(
                            v@.skip(i as int),
                            acc as nat,
                            u64::MAX as nat,
                        ),
                    decreases v@.len() - i,
                {
                    let c = v[i];
                    let ghost rest = v@.skip(i as int);
                    assert(rest[0] == c);
                    proof {
                        assert(rest.drop_first() =~= v@.skip(i + 1));
                    }
                    if !('0' <= c && c <= '9') {
                        assert(!is_digit(rest[0]));
                        assert(scan_digits(rest, acc as nat, u64::MAX as nat) is Err);
                        return None;
                    }
                    let d: u64 = ((c as u32) - 48) as u64;
                    assert(d as nat == digit_value(c));
                    if acc > (u64::MAX - d) / 10 {
                        assert((acc as nat) * 10 + d > u64::MAX) by (nonlinear_arith)
                            requires
                                acc > (u64::MAX - d) / 10,
                                d < 10,
                        ;
                        assert(scan_digits(rest, acc as nat, u64::MAX as nat) is Err);
                        return None;
                    }
                    assert(acc * 10 + d <= u64::MAX) by (nonlinear_arith)
                        requires
                            acc <= (u64::MAX - d) / 10,
                            d < 10,
                    ;
                    acc = acc * 10 + d;
                    i = i + 1;
                }
                proof {
                    assert(v@.skip(i as int) =~= Seq::<char>::empty());
                }
                Some(acc)
            },
            _ => None,
        }
    }

    /// A string value.
    pub fn string(s: &str) -> (r: JsonValue)
        ensures
            r matches JsonValue::Str(t) && t@ == s@,
    {
        JsonValue::Str(s.to_string())
    }

    /// A number value for a non-negative integer.
    pub fn number(n: u64) -> (r: JsonValue)
        ensures
            r matches JsonValue::Number(t) && t@ == dec(n as nat),
    {
        JsonValue::Number(u64_to_string(n))
    }

}

/// Takes the member with the name out of an object.
pub fn take_member(json: JsonValue, key: &str) -> (r: Option<JsonValue>)
    ensures
        r == get_spec(json, key@),
{
    match json {
        JsonValue::Object(entries) => {
            let k = key.to_string();
            let mut i: usize = 0;
            proof {
                assert(entries@.skip(0) =~= entries@);
            }
            while i < entries.len()
                invariant
                    i <= entries@.len(),
                    k@ == key@,
                    json == JsonValue::Object(entries),
                    member(entries@, key@) == member(entries@.skip(i as int), key@),
                decreases entries@.len() - i,
            {
                proof {
                    assert(entries@.skip(i as int).drop_first() =~= entries@.skip(i + 1));
                    assert(entries@.skip(i as int)[0] == entries@[i as int]);
                }
                if entries[i].0 == k {
                    let mut entries = entries;
                    let (_, v) = entries.remove(i);
                    return Some(v);
                }
                i = i + 1;
            }
            None
        },
        _ => None,
    }
}

/// An object with one member.
pub fn object1(k: &str, v: JsonValue) -> (r: JsonValue)
    ensures
        r matches JsonValue::Object(e) && e@.len() == 1 && e@[0].0@ == k@ && e@[0].1 == v,
{
    let mut e: Vec<(String, JsonValue)> = Vec::new();
    e.push((k.to_string(), v));
    JsonValue::Object(e)
}

/// An object with two members, in the order given.
pub fn object2(k1: &str, v1: JsonValue, k2: &str, v2: JsonValue) -> (r: JsonValue)
    ensures
        r matches JsonValue::Object(e) && e@.len() == 2 && e@[0].0@ == k1@ && e@[0].1 == v1
            && e@[1].0@ == k2@ && e@[1].1 == v2,
{
    let mut e: Vec<(String, JsonValue)> = Vec::new();
    e.push((k1.to_string(), v1));
    e.push((k2.to_string(), v2));
    JsonValue::Object(e)
}

#[verifier::external_type_specification]
#[verifier::external_body]
pub struct ExSerdeValue(serde_json::Value);

/// `serde_json::from_str` into a `Value`, converted one for one: the JSON value
/// that a text denotes, or none when the text is not JSON.
pub uninterp spec fn json_of_text(t: Seq<char>) -> Option<JsonValue>;

/// Turns a `serde_json::Value` into the library's value, variant for variant: a
/// number keeps its JSON text (`Number`'s `Display`), an object its members in
/// the order of the crate's map. It is the conversion step of `read_json`.
#[verifier::external_body]
fn from_serde(v: serde_json::Value) -> JsonValue {
    match v {
        serde_json::Value::Null => JsonValue::Null,
        serde_json::Value::Bool(b) => JsonValue::Bool(b),
        serde_json::Value::Number(n) => JsonValue::Number(n.to_string()),
        serde_json::Value::String(s) => JsonValue::Str(s),
        serde_json::Value::Array(a) => JsonValue::Array(a.into_iter().map(from_serde).collect()),
        serde_json::Value::Object(m) => JsonValue::Object(m.into_iter().map(|(k, x)| (k, from_serde(x))).collect()),
    }
}

/// `serde_json::from_str::<Value>`: the value that the text denotes, or the
/// crate's error message when it is not JSON. The result depends on the text
/// alone; the wording of the error message is not stated.
#[verifier::external_body]
pub(crate) fn read_json(text: &str) -> (r: Result<JsonValue, String>)
    ensures
        match r {
            Ok(v) => json_of_text(text@) == Some(v),
            Err(_) => json_of_text(text@) is None,
        },
{
    serde_json::from_str::<serde_json::Value>(text).map(from_serde).map_err(|e| e.to_string())
}

/// Parses a JSON text: its value, or none when it is not JSON.
pub fn parse_json(text: &str) -> (r: Option<JsonValue>)
    ensures
        r == json_of_text(text@),
{
    match read_json(text) {
        Ok(v) => Some(v),
        Err(_) => None,
    }
}

/// The arguments of a tool call: the value of their JSON text, or `null` when
/// the text is not JSON.
pub fn tool_args(args: &str) -> (r: JsonValue)
    ensures
        r == match json_of_text(args@) {
            Some(v) => v,
            None => JsonValue::Null,
        },
{
    match parse_json(args) {
        Some(v) => v,
        None => JsonValue::Null,
    }
}

/// `serde_json::to_string` of a value, converted one for one: its compact JSON
/// text, object members in the order the crate's map keeps them.
pub uninterp spec fn json_text(v: JsonValue) -> Seq<char>;

/// Turns the library's value into a `serde_json::Value`, variant for variant: a
/// number is read back from its JSON text (`null` when it is not a number). It
/// is the conversion step of `write_json`.
#[verifier::external_body]
fn to_serde(v: &JsonValue) -> serde_json::Value {
    match v {
        JsonValue::Null => serde_json::Value::Null,
        JsonValue::Bool(b) => serde_json::Value::Bool(*b),
        JsonValue::Number(t) => serde_json::from_str(t).unwrap_or(serde_json::Value::Null),
        JsonValue::Str(s) => serde_json::Value::String(s.clone()),
        JsonValue::Array(a) => serde_json::Value::Array(a.iter().map(to_serde).collect()),
        JsonValue::Object(m) => serde_json::Value::Object(m.iter().map(|(k, x)| (k.clone(), to_serde(x))).collect()),
    }
}

/// `serde_json::to_string` on a `Value`, which cannot fail for one (its map
/// keys are texts). The result depends on the value alone.
#[verifier::external_body]
pub(crate) fn write_json(v: &JsonValue) -> (r: String)
    ensures
        r@ == json_text(*v),
{
    serde_json::to_string(&to_serde(v)).unwrap_or_default()
}

/// The text is JSON written as `serde_json` writes the value it denotes: compact,
/// with object members in the crate's order.
pub open spec fn is_canonical_json(t: Seq<char>) -> bool {
    match json_of_text(t) {
        Some(v) => json_text(v) == t,
        None => false,
    }
}

/// Whether the text is JSON written as `serde_json` writes it.
pub fn canonical_json(t: &str) -> (r: bool)
    ensures
        r == is_canonical_json(t@),
{
    match read_json(t) {
        Err(_) => false,
        Ok(v) => {
            let w = write_json(&v);
            str_eq(w.as_str(), t)
        },
    }
}

} // verus!
