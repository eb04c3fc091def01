//! The boundary to the `serde_json` parser.
//!
//! Parsing a JSON document is delegated to `serde_json`; everything the parser
//! hands back is converted, by verified code, into the crate's own
//! [`ConfigValue`] tree. The contracts on the trusted wrappers below name the
//! parser's results with uninterpreted spec functions ([`doc_model`],
//! [`value_model`], ...), since a JSON parse is a function of the input text
//! alone.

use vstd::prelude::*;

use crate::value::{
    entries_model, lemma_arr_model, lemma_obj_model, vals_model, ConfigNum, ConfigValue, NumModel,
    ValModel,
};

verus! {

/// Declares `serde_json::Value`, the parser's JSON tree, for use in
/// signatures; the tree is opaque here and read only through the wrappers
/// below.
#[verifier::external_type_specification]
#[verifier::external_body]
pub struct ExValue(serde_json::Value);

/// Declares `serde_json::Number`, the parser's number type.
#[verifier::external_type_specification]
#[verifier::external_body]
pub struct ExNumber(serde_json::Number);

/// Declares `serde_json::Map`, the parser's object representation.
#[verifier::external_type_specification]
#[verifier::external_body]
#[verifier::reject_recursive_types(K)]
#[verifier::reject_recursive_types(V)]
pub struct ExMap<K, V>(serde_json::Map<K, V>);

/// What `serde_json::from_str::<serde_json::Value>` returns on the given text:
/// `None` where the text is not a well-formed JSON document.
pub uninterp spec fn doc_model(text: Seq<char>) -> Option<ValModel>;

/// The JSON tree a `serde_json::Value` holds.
pub uninterp spec fn value_model(v: serde_json::Value) -> ValModel;

/// The height of the JSON tree a `serde_json::Value` holds; used as a
/// termination measure when the tree is walked.
pub uninterp spec fn value_height(v: serde_json::Value) -> nat;

/// The key/value entries a `serde_json::Map` holds, in its iteration order.
pub uninterp spec fn object_model(m: serde_json::Map<String, serde_json::Value>) -> Seq<
    (Seq<char>, ValModel),
>;

/// A bound on the heights of the values a `serde_json::Map` holds.
pub uninterp spec fn object_height(m: serde_json::Map<String, serde_json::Value>) -> nat;

/// What a `serde_json::Number` holds: a signed integer where `as_i64` answers,
/// an unsigned integer where only `as_u64` answers, and otherwise a
/// floating-point number, represented by its decimal text.
pub uninterp spec fn num_model(n: serde_json::Number) -> NumModel;

/// One decomposition step of a `serde_json::Value`: the same six shapes, with
/// the direct parts moved out.
pub(crate) enum JsonParts {
    Null,
    Bool(bool),
    Num(serde_json::Number),
    Str(String),
    Arr(Vec<serde_json::Value>),
    Obj(serde_json::Map<String, serde_json::Value>),
}

/// Relies on `serde_json::from_str`: parses the text as a JSON document,
/// returning `None` exactly where the text is rejected.
#[verifier::external_body]
fn parse_document(text: &str) -> (r: Option<serde_json::Value>)
    ensures
        match r {
            Some(v) => doc_model(text@) == Some(value_model(v)),
            None => doc_model(text@) is None,
        },
{
    serde_json::from_str::<serde_json::Value>(text).ok()
}

/// Relies on `serde_json::Value` being the enum of the six JSON shapes: each
/// arm moves the matched field out unchanged.
#[verifier::external_body]
fn value_parts(v: serde_json::Value) -> (r: JsonParts)
    ensures
        match r {
            JsonParts::Null => value_model(v) == ValModel::Null,
            JsonParts::Bool(b) => value_model(v) == ValModel::Bool(b),
            JsonParts::Num(n) => value_model(v) == ValModel::Num(num_model(n)),
            JsonParts::Str(s) => value_model(v) == ValModel::Str(s@),
            JsonParts::Arr(vs) => {
                &&& value_model(v) == ValModel::Arr(
                    Seq::new(vs@.len(), |i: int| value_model(vs@[i])),
                )
                &&& forall|i: int|
                    0 <= i < vs@.len() ==> value_height(vs@[i]) < value_height(v)
            },
            JsonParts::Obj(m) => {
                &&& value_model(v) == ValModel::Obj(object_model(m))
                &&& object_height(m) < value_height(v)
            },
        },
{
    match v {
        serde_json::Value::Null => JsonParts::Null,
        serde_json::Value::Bool(b) => JsonParts::Bool(b),
        serde_json::Value::Number(n) => JsonParts::Num(n),
        serde_json::Value::String(s) => JsonParts::Str(s),
        serde_json::Value::Array(vs) => JsonParts::Arr(vs),
        serde_json::Value::Object(m) => JsonParts::Obj(m),
    }
}

/// Relies on `serde_json::Map::into_iter`: yields every entry of the map, each
/// key paired with its value.
#[verifier::external_body]
fn object_entries(m: serde_json::Map<String, serde_json::Value>) -> (r: Vec<
    (String, serde_json::Value),
>)
    ensures
        r@.len() == object_model(m).len(),
        forall|i: int| #![trigger r@[i]]
            0 <= i < r@.len() ==> r@[i].0@ == object_model(m)[i].0 && value_model(r@[i].1)
                == object_model(m)[i].1 && value_height(r@[i].1) <= object_height(m),
{
    m.into_iter().collect()
}

/// Relies on `serde_json::Number::as_i64`: answers exactly for integers that
/// fit in an `i64`.
#[verifier::external_body]
fn num_as_i64(n: &serde_json::Number) -> (r: Option<i64>)
    ensures
        r == match num_model(*n) {
            NumModel::Int(i) => Some(i),
            _ => None::<i64>,
        },
{
    n.as_i64()
}

/// Relies on `serde_json::Number::as_u64`: answers for every unsigned integer,
/// and never for a floating-point number.
#[verifier::external_body]
fn num_as_u64(n: &serde_json::Number) -> (r: Option<u64>)
    ensures
        match num_model(*n) {
            NumModel::UInt(u) => r == Some(u),
            NumModel::Float(_) => r is None,
            NumModel::Int(_) => true,
        },
{
    n.as_u64()
}

/// Relies on `serde_json::Number`'s `Display` implementation: a floating-point
/// number is written as its shortest round-trip decimal text.
#[verifier::external_body]
fn num_to_decimal(n: &serde_json::Number) -> (r: String)
    ensures
        num_model(*n) matches NumModel::Float(t) ==> r@ == t,
{
    n.to_string()
}

/// Parses the text as a JSON document and converts it into the crate's own
/// tree: `None` exactly where the parser rejects the text.
pub(crate) fn parse_text(text: &str) -> (r: Option<ConfigValue>)
    ensures
        match r {
            Some(c) => doc_model(text@) == Some(c.model()),
            None => doc_model(text@) is None,
        },
{
    match parse_document(text) {
        Some(v) => Some(convert_value(v)),
        None => None,
    }
}

/// Converts a parsed JSON value into the crate's own tree, keeping its model.
fn convert_value(v: serde_json::Value) -> (r: ConfigValue)
    ensures
        r.model() == value_model(v),
    decreases value_height(v), 1int,
{
    let ghost hv = value_height(v);
    match value_parts(v) {
        JsonParts::Null => ConfigValue::Null,
        JsonParts::Bool(b) => ConfigValue::Bool(b),
        JsonParts::Num(n) => ConfigValue::Num(convert_num(n)),
        JsonParts::Str(s) => ConfigValue::Str(s),
        JsonParts::Arr(vs) => {
            let ghost items = vs@;
            let out = convert_items(vs, Ghost(hv));
            proof {
                lemma_arr_model(out);
                assert(vals_model(out@) =~= Seq::new(
                    items.len(),
                    |i: int| value_model(items[i]),
                ));
            }
            ConfigValue::Arr(out)
        },
        JsonParts::Obj(m) => {
            let ghost om = object_model(m);
            let ghost oh = object_height(m);
            let raw = object_entries(m);
            proof {
                assert forall|i: int| 0 <= i < raw@.len() implies value_height(raw@[i].1)
                    < hv by {
                    assert(value_height(raw@[i].1) <= oh);
                }
            }
            let out = convert_obj_entries(raw, Ghost(hv));
            proof {
                lemma_obj_model(out);
                assert(entries_model(out@) =~= om);
            }
            ConfigValue::Obj(out)
        },
    }
}

/// Converts every element of a parsed JSON array, keeping each element's
/// model.
fn convert_items(vs: Vec<serde_json::Value>, Ghost(bound): Ghost<nat>) -> (r: Vec<ConfigValue>)
    requires
        forall|i: int| 0 <= i < vs@.len() ==> value_height(vs@[i]) < bound,
    ensures
        r@.len() == vs@.len(),
        forall|i: int| 0 <= i < vs@.len() ==> r@[i].model() == value_model(vs@[i]),
    decreases bound, 0int,
{
    let ghost orig = vs@;
    let mut rest = vs;
    let mut out: Vec<ConfigValue> = Vec::new();
    while rest.len() > 0
        invariant
            out@.len() + rest@.len() == orig.len(),
            rest@ == orig.skip(out@.len() as int),
            forall|j: int| 0 <= j < out@.len() ==> out@[j].model() == value_model(orig[j]),
            forall|j: int| 0 <= j < orig.len() ==> value_height(orig[j]) < bound,
        decreases rest@.len(),
    {
        let ghost k = out@.len() as int;
        let e = rest.remove(0);
        proof {
            assert(e == orig[k]);
            assert(rest@ =~= orig.skip(k + 1));
        }
        let c = convert_value(e);
        out.push(c);
    }
    out
}

/// Converts every entry of a parsed JSON object, keeping each key and each
/// value's model.
fn convert_obj_entries(es: Vec<(String, serde_json::Value)>, Ghost(bound): Ghost<nat>) -> (r: Vec<
    (String, ConfigValue),
>)
    requires
        forall|i: int| 0 <= i < es@.len() ==> value_height(es@[i].1) < bound,
    ensures
        r@.len() == es@.len(),
        forall|i: int|
            0 <= i < es@.len() ==> r@[i].0@ == es@[i].0@ && r@[i].1.model() == value_model(
                es@[i].1,
            ),
    decreases bound, 0int,
{
    let ghost orig = es@;
    let mut rest = es;
    let mut out: Vec<(String, ConfigValue)> = Vec::new();
    while rest.len() > 0
        invariant
            out@.len() + rest@.len() == orig.len(),
            rest@ == orig.skip(out@.len() as int),
            forall|j: int|
                0 <= j < out@.len() ==> out@[j].0@ == orig[j].0@ && out@[j].1.model()
                    == value_model(orig[j].1),
            forall|j: int| 0 <= j < orig.len() ==> value_height(orig[j].1) < bound,
        decreases rest@.len(),
    {
        let ghost k = out@.len() as int;
        let (key, e) = rest.remove(0);
        proof {
            assert((key, e) == orig[k]);
            assert(rest@ =~= orig.skip(k + 1));
        }
        let c = convert_value(e);
        out.push((key, c));
    }
    out
}

/// Converts a parsed number into the crate's own representation, keeping its
/// model.
fn convert_num(n: serde_json::Number) -> (r: ConfigNum)
    ensures
        r.model() == num_model(n),
{
    if let Some(i) = num_as_i64(&n) {
        ConfigNum::Int(i)
    } else if let Some(u) = num_as_u64(&n) {
        ConfigNum::UInt(u)
    } else {
        ConfigNum::Float(num_to_decimal(&n))
    }
}

} // verus!
