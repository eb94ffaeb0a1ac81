//! JSON values, as messages carry them.

use serde_json::Value;
use vstd::prelude::*;

use crate::text::same;

verus! {

/// A JSON value.
#[derive(Debug, PartialEq)]
pub enum Json {
    Null,
    Bool(bool),
    /// An integer.
    Int(i64),
    /// A natural number, which may be beyond the signed range.
    Natural(u64),
    /// A number that is no such integer.
    Decimal(Decimal),
    Text(String),
    Array(Vec<Json>),
    /// Members in order. Of two with the same key, the later one counts.
    Object(Vec<(String, Json)>),
}

/// The declared number type of `serde_json`.
#[verifier::external_type_specification]
#[verifier::external_body]
pub struct ExNumber(serde_json::Number);

/// A JSON number that is not a 64-bit integer. It only comes out of a parsed
/// message, and is only passed on.
#[derive(Debug, PartialEq)]
pub struct Decimal(serde_json::Number);

/// What a [`Json`] says.
pub enum JsonView {
    Null,
    Bool(bool),
    Int(int),
    Decimal(Decimal),
    Text(Seq<char>),
    Array(Seq<JsonView>),
    Object(Map<Seq<char>, JsonView>),
}

/// What a value says.
pub open spec fn json_view(j: Json) -> JsonView
    decreases j,
{
    match j {
        Json::Null => JsonView::Null,
        Json::Bool(b) => JsonView::Bool(b),
        Json::Int(i) => JsonView::Int(i as int),
        Json::Natural(n) => JsonView::Int(n as int),
        Json::Decimal(d) => JsonView::Decimal(d),
        Json::Text(s) => JsonView::Text(s@),
        Json::Array(a) => JsonView::Array(
            Seq::new(
                a@.len(),
                |i: int|
                    if 0 <= i < a@.len() {
                        json_view(a@[i])
                    } else {
                        JsonView::Null
                    },
            ),
        ),
        Json::Object(o) => JsonView::Object(fields_view(o@, o@.len())),
    }
}

/// What the first `n` members of an object say: the later of two with the same
/// key counts.
pub open spec fn fields_view(o: Seq<(String, Json)>, n: nat) -> Map<Seq<char>, JsonView>
    decreases o, n,
{
    if n == 0 || n > o.len() {
        Map::empty()
    } else {
        fields_view(o, (n - 1) as nat).insert(o[n - 1].0@, json_view(o[n - 1].1))
    }
}

impl View for Json {
    type V = JsonView;

    open spec fn view(&self) -> JsonView {
        json_view(*self)
    }
}

impl DeepView for Json {
    type V = JsonView;

    open spec fn deep_view(&self) -> JsonView {
        json_view(*self)
    }
}

/// The member of an object under a key, if it has one.
pub open spec fn member(j: JsonView, key: Seq<char>) -> Option<JsonView> {
    match j {
        JsonView::Object(fields) => if fields.dom().contains(key) {
            Some(fields[key])
        } else {
            None
        },
        _ => None,
    }
}

proof fn lemma_fields_view_prefix(a: Seq<(String, Json)>, b: Seq<(String, Json)>, n: nat)
    requires
        n <= a.len(),
        n <= b.len(),
        forall|i: int| 0 <= i < n ==> a[i] == b[i],
    ensures
        fields_view(a, n) == fields_view(b, n),
    decreases n,
{
    if n > 0 {
        lemma_fields_view_prefix(a, b, (n - 1) as nat);
    }
}

/// The position of the last member under a key.
fn last_field(o: &Vec<(String, Json)>, key: &str) -> (r: Option<usize>)
    ensures
        match r {
            Some(i) => i < o@.len() && member(
                JsonView::Object(fields_view(o@, o@.len())),
                key@,
            ) == Some(o@[i as int].1@),
            None => member(JsonView::Object(fields_view(o@, o@.len())), key@) is None,
        },
{
    let n: usize = o.len();
    let mut i: usize = n;
    while i > 0
        invariant
            i <= n == o@.len(),
            fields_view(o@, n as nat).dom().contains(key@) <==> fields_view(
                o@,
                i as nat,
            ).dom().contains(key@),
            fields_view(o@, n as nat).dom().contains(key@) ==> fields_view(o@, n as nat)[key@]
                == fields_view(o@, i as nat)[key@],
        decreases i,
    {
        i = i - 1;
        if same(o[i].0.as_str(), key) {
            return Some(i);
        }
    }
    None
}

impl Json {
    /// The member of an object under a key, if it has one.
    pub fn get(&self, key: &str) -> (r: Option<&Json>)
        ensures
            r.deep_view() == member(self@, key@),
    {
        match self {
            Json::Object(o) => match last_field(o, key) {
                Some(i) => Some(&o[i].1),
                None => None,
            },
            _ => None,
        }
    }

    /// The integer that a value is, if it is one.
    pub fn integer(&self) -> (r: Option<i128>)
        ensures
            match r {
                Some(i) => self@ == JsonView::Int(i as int) && i64::MIN <= i <= u64::MAX,
                None => !(self@ is Int),
            },
    {
        match self {
            Json::Int(i) => Some(*i as i128),
            Json::Natural(n) => Some(*n as i128),
            _ => None,
        }
    }

    /// The member of an object under a key, taken out of it.
    pub fn take(self, key: &str) -> (r: Option<Json>)
        ensures
            r.deep_view() == member(self@, key@),
    {
        match self {
            Json::Object(o) => match last_field(&o, key) {
                Some(i) => {
                    let mut o = o;
                    let field = o.remove(i);
                    Some(field.1)
                },
                None => None,
            },
            _ => None,
        }
    }
}

/// Calls `clone` of `serde_json::Number`, which gives an equal number.
#[verifier::external_body]
fn copy_number(n: &serde_json::Number) -> (r: serde_json::Number)
    ensures
        r == *n,
{
    n.clone()
}

impl Clone for Json {
    fn clone(&self) -> (r: Self)
        ensures
            r@ == self@,
        decreases self,
    {
        match self {
            Json::Null => Json::Null,
            Json::Bool(b) => Json::Bool(*b),
            Json::Int(i) => Json::Int(*i),
            Json::Natural(n) => Json::Natural(*n),
            Json::Decimal(d) => Json::Decimal(Decimal(copy_number(&d.0))),
            Json::Text(s) => Json::Text(s.clone()),
            Json::Array(a) => {
                let mut b: Vec<Json> = Vec::new();
                let mut i: usize = 0;
                while i < a.len()
                    invariant
                        i <= a@.len(),
                        *self == Json::Array(*a),
                        b@.len() == i,
                        forall|k: int| 0 <= k < i ==> (#[trigger] b@[k])@ == a@[k]@,
                    decreases a@.len() - i,
                {
                    assert(decreases_to!(*self => self->Array_0));
                    assert(decreases_to!(self->Array_0 => self->Array_0@));
                    assert(decreases_to!(self->Array_0@ => self->Array_0@[i as int]));
                    b.push(a[i].clone());
                    i += 1;
                }
                let r = Json::Array(b);
                assert(r@->Array_0 =~= self@->Array_0);
                r
            },
            Json::Object(o) => {
                let mut fields: Vec<(String, Json)> = Vec::new();
                let mut i: usize = 0;
                while i < o.len()
                    invariant
                        i <= o@.len(),
                        *self == Json::Object(*o),
                        fields@.len() == i,
                        fields_view(fields@, i as nat) == fields_view(o@, i as nat),
                    decreases o@.len() - i,
                {
                    let ghost before = fields@;
                    assert(decreases_to!(*self => self->Object_0));
                    assert(decreases_to!(self->Object_0 => self->Object_0@));
                    assert(decreases_to!(self->Object_0@ => self->Object_0@[i as int]));
                    assert(decreases_to!(self->Object_0@[i as int] => self->Object_0@[i as int].1));
                    let value = o[i].1.clone();
                    fields.push((o[i].0.clone(), value));
                    proof {
                        lemma_fields_view_prefix(before, fields@, i as nat);
                    }
                    i += 1;
                }
                Json::Object(fields)
            },
        }
    }
}

/// The members of an object with one more.
pub fn with(fields: Vec<(String, Json)>, key: &str, value: Json) -> (r: Vec<(String, Json)>)
    ensures
        fields_view(r@, r@.len()) == fields_view(fields@, fields@.len()).insert(key@, value@),
{
    let ghost before = fields@;
    let mut fields = fields;
    fields.push((key.to_owned(), value));
    proof {
        lemma_fields_view_prefix(before, fields@, before.len());
    }
    fields
}

/// An object with no members yet.
pub fn no_fields() -> (r: Vec<(String, Json)>)
    ensures
        fields_view(r@, r@.len()) == Map::<Seq<char>, JsonView>::empty(),
{
    Vec::new()
}

/// The declared value type of `serde_json`.
#[verifier::external_type_specification]
#[verifier::external_body]
pub struct ExValue(serde_json::Value);

/// The declared error type of `serde_json`.
#[verifier::external_type_specification]
#[verifier::external_body]
pub struct ExError(serde_json::Error);

/// What a `serde_json` value holds.
pub uninterp spec fn value_tree(v: serde_json::Value) -> JsonView;

/// What `serde_json` reads from bytes, or `None` where they are no JSON.
pub uninterp spec fn parsed(bytes: Seq<u8>) -> Option<JsonView>;

/// What `serde_json` says of bytes that are no JSON.
pub uninterp spec fn complaint(bytes: Seq<u8>) -> Seq<char>;

/// What a `serde_json` error says.
pub uninterp spec fn error_text(e: serde_json::Error) -> Seq<char>;

/// The compact text that `serde_json` writes for a value.
pub uninterp spec fn rendered(j: JsonView) -> Seq<char>;

/// Calls `serde_json::from_slice`. The result depends on the bytes alone: the
/// value that they spell, or an error where they spell none.
#[verifier::external_body]
fn parse_value(bytes: &Vec<u8>) -> (r: Result<Value, serde_json::Error>)
    ensures
        match r {
            Ok(v) => parsed(bytes@) == Some(value_tree(v)),
            Err(e) => parsed(bytes@) is None && error_text(e) == complaint(bytes@),
        },
{
    serde_json::from_slice(bytes)
}

/// Calls `to_string` of `serde_json::Error`, whose text depends on the error
/// alone.
#[verifier::external_body]
fn show_error(e: &serde_json::Error) -> (r: String)
    ensures
        r@ == error_text(*e),
{
    e.to_string()
}

/// Takes a `serde_json::Value` apart, variant by variant. A number is an integer
/// where `Number::as_i64` or `Number::as_u64` says so.
#[verifier::external_body]
fn json_of(v: Value) -> (r: Json)
    ensures
        r@ == value_tree(v),
{
    match v {
        Value::Null => Json::Null,
        Value::Bool(b) => Json::Bool(b),
        Value::Number(n) => match (n.as_i64(), n.as_u64()) {
            (Some(i), _) => Json::Int(i),
            (None, Some(n)) => Json::Natural(n),
            (None, None) => Json::Decimal(Decimal(n)),
        },
        Value::String(s) => Json::Text(s),
        Value::Array(a) => Json::Array(a.into_iter().map(json_of).collect()),
        Value::Object(o) => Json::Object(o.into_iter().map(|(k, v)| (k, json_of(v))).collect()),
    }
}

/// Builds the `serde_json::Value` that holds what a [`Json`] says, variant by
/// variant. The members of an object go into a `serde_json::Map` one after the
/// other by `Map::insert`, which updates the value of a key that is there.
#[verifier::external_body]
fn value_of(j: &Json) -> (r: Value)
    ensures
        value_tree(r) == j@,
{
    match j {
        Json::Null => Value::Null,
        Json::Bool(b) => Value::Bool(*b),
        Json::Int(i) => Value::from(*i),
        Json::Natural(n) => Value::from(*n),
        Json::Decimal(d) => Value::Number(d.0.clone()),
        Json::Text(s) => Value::String(s.clone()),
        Json::Array(a) => Value::Array(a.iter().map(value_of).collect()),
        Json::Object(o) => {
            let mut map = serde_json::Map::new();
            o.iter().for_each(|f| drop(map.insert(f.0.clone(), value_of(&f.1))));
            Value::Object(map)
        },
    }
}

/// What a `serde_json` value holds, as a [`Json`].
pub fn of_value(v: Value) -> (r: Json)
    ensures
        r@ == value_tree(v),
{
    json_of(v)
}

/// Whether a value nests arrays and objects no deeper than `depth`, and every
/// number in it is an integer.
pub open spec fn is_plain(j: JsonView, depth: nat) -> bool
    decreases depth,
{
    match j {
        JsonView::Decimal(_) => false,
        JsonView::Array(list) => depth > 0 && forall|i: int|
            0 <= i < list.len() ==> is_plain(#[trigger] list[i], (depth - 1) as nat),
        JsonView::Object(fields) => depth > 0 && forall|key: Seq<char>|
            fields.dom().contains(key) ==> is_plain(#[trigger] fields[key], (depth - 1) as nat),
        _ => true,
    }
}

/// Calls `to_string` of `serde_json::Value`, which writes the compact text of
/// what the value holds. `serde_json::from_slice` reads that text back, where the
/// value is within its limit on nesting, which is 127 arrays and objects, and holds
/// no number that is not an integer (of those, the last digit may differ).
#[verifier::external_body]
fn show_value(v: &Value) -> (r: String)
    ensures
        r@ == rendered(value_tree(*v)),
        is_plain(value_tree(*v), 127) ==> parsed(vstd::utf8::encode_utf8(r@)) == Some(
            value_tree(*v),
        ),
{
    v.to_string()
}

/// Read a value from bytes, or say why they are no JSON.
pub fn parse(bytes: &Vec<u8>) -> (r: Result<Json, String>)
    ensures
        match r {
            Ok(j) => parsed(bytes@) == Some(j@),
            Err(e) => parsed(bytes@) is None && e@ == complaint(bytes@),
        },
{
    match parse_value(bytes) {
        Ok(v) => Ok(json_of(v)),
        Err(e) => Err(show_error(&e)),
    }
}

/// The compact text of a value. Where the value is plain, it is read back from
/// that text.
pub fn render(j: &Json) -> (r: String)
    ensures
        r@ == rendered(j@),
        is_plain(j@, 127) ==> parsed(vstd::utf8::encode_utf8(r@)) == Some(j@),
{
    show_value(&value_of(j))
}

} // verus!
