//! A reduced JSON value tree and the trusted boundary that produces it.
//!
//! The notebook format lives inside JSON. The library does not parse JSON
//! text itself: `serde_json` does, behind [`parse_json`], and everything the
//! model reads is carried over into [`JsonValue`], a tree of this crate's
//! own, which the verified code then takes apart.

use vstd::prelude::*;

verus! {

/// A JSON value, reduced to the shapes the notebook model reads: strings,
/// arrays (in document order), objects (as key/value pairs, in the order the
/// JSON layer hands them over — object key order carries no meaning in the
/// notebook format), `null`, and a catch-all for the remaining scalars
/// (numbers and booleans), which the model never inspects.
#[derive(Debug)]
pub enum JsonValue {
    Null,
    Str(String),
    Arr(Vec<JsonValue>),
    Obj(Vec<(String, JsonValue)>),
    Other,
}

/// The mathematical model of a [`JsonValue`]: strings become character
/// sequences and the containers become sequences.
pub enum JsonV {
    Null,
    Str(Seq<char>),
    Arr(Seq<JsonV>),
    Obj(Seq<(Seq<char>, JsonV)>),
    Other,
}

pub open spec fn json_view(v: JsonValue) -> JsonV
    decreases v,
{
    match v {
        JsonValue::Null => JsonV::Null,
        JsonValue::Str(s) => JsonV::Str(s@),
        JsonValue::Arr(items) => JsonV::Arr(json_arr_view(items@)),
        JsonValue::Obj(fields) => JsonV::Obj(json_obj_view(fields@)),
        JsonValue::Other => JsonV::Other,
    }
}

pub open spec fn json_arr_view(items: Seq<JsonValue>) -> Seq<JsonV>
    decreases items,
{
    if items.len() == 0 {
        Seq::empty()
    } else {
        seq![json_view(items[0])] + json_arr_view(items.drop_first())
    }
}

pub open spec fn json_obj_view(fields: Seq<(String, JsonValue)>) -> Seq<(Seq<char>, JsonV)>
    decreases fields,
{
    if fields.len() == 0 {
        Seq::empty()
    } else {
        seq![(fields[0].0@, json_view(fields[0].1))] + json_obj_view(fields.drop_first())
    }
}

impl View for JsonValue {
    type V = JsonV;

    open spec fn view(&self) -> JsonV {
        json_view(*self)
    }
}

pub proof fn lemma_json_arr_view(items: Seq<JsonValue>)
    ensures
        json_arr_view(items).len() == items.len(),
        forall|i: int|
            0 <= i < items.len() ==> json_arr_view(items)[i] == json_view(items[i]),
    decreases items.len(),
{
    if items.len() > 0 {
        lemma_json_arr_view(items.drop_first());
    }
}

pub proof fn lemma_json_obj_view(fields: Seq<(String, JsonValue)>)
    ensures
        json_obj_view(fields).len() == fields.len(),
        forall|i: int|
            0 <= i < fields.len() ==> json_obj_view(fields)[i] == (
            fields[i].0@,
            json_view(fields[i].1),
            ),
    decreases fields.len(),
{
    if fields.len() > 0 {
        lemma_json_obj_view(fields.drop_first());
    }
}

/// The value of the first field named `key`, if the object has one.
pub open spec fn obj_get(fields: Seq<(Seq<char>, JsonV)>, key: Seq<char>) -> Option<JsonV>
    decreases fields.len(),
{
    if fields.len() == 0 {
        None
    } else if fields[0].0 == key {
        Some(fields[0].1)
    } else {
        obj_get(fields.drop_first(), key)
    }
}

pub open spec fn opt_json_view(o: Option<JsonValue>) -> Option<JsonV> {
    match o {
        Some(v) => Some(json_view(v)),
        None => None,
    }
}

/// Removes and hands back the value of the first field named `key`,
/// consuming the object's fields.
pub(crate) fn obj_take_one(fields: Vec<(String, JsonValue)>, key: &String) -> (r: Option<
    JsonValue,
>)
    ensures
        opt_json_view(r) == obj_get(json_obj_view(fields@), key@),
{
    let ghost orig = fields@;
    let ghost ov = json_obj_view(orig);
    proof {
        lemma_json_obj_view(orig);
        assert(orig.take(orig.len() as int) =~= orig);
        assert(ov.skip(orig.len() as int) =~= Seq::<(Seq<char>, JsonV)>::empty());
    }
    let mut fs = fields;
    let mut r: Option<JsonValue> = None;
    while fs.len() > 0
        invariant
            fs@.len() <= orig.len(),
            fs@ == orig.take(fs@.len() as int),
            ov == json_obj_view(orig),
            ov.len() == orig.len(),
            forall|i: int| 0 <= i < orig.len() ==> ov[i] == (orig[i].0@, json_view(orig[i].1)),
            opt_json_view(r) == obj_get(ov.skip(fs@.len() as int), key@),
        decreases fs.len(),
    {
        let ghost i = fs@.len() as int;
        let kv = fs.pop().unwrap();
        proof {
            assert(fs@ =~= orig.take(i - 1));
            assert(kv == orig[i - 1]);
            assert(ov.skip(i - 1).drop_first() =~= ov.skip(i));
            assert(ov.skip(i - 1)[0] == ov[i - 1]);
        }
        if kv.0 == *key {
            r = Some(kv.1);
        }
    }
    proof {
        assert(ov.skip(0) =~= ov);
    }
    r
}

/// Removes and hands back the values of the first fields named `k1` and
/// `k2`, consuming the object's fields.
pub(crate) fn obj_take_two(fields: Vec<(String, JsonValue)>, k1: &String, k2: &String) -> (r: (
    Option<JsonValue>,
    Option<JsonValue>,
))
    requires
        k1@ != k2@,
    ensures
        opt_json_view(r.0) == obj_get(json_obj_view(fields@), k1@),
        opt_json_view(r.1) == obj_get(json_obj_view(fields@), k2@),
{
    let ghost orig = fields@;
    let ghost ov = json_obj_view(orig);
    proof {
        lemma_json_obj_view(orig);
        assert(orig.take(orig.len() as int) =~= orig);
        assert(ov.skip(orig.len() as int) =~= Seq::<(Seq<char>, JsonV)>::empty());
    }
    let mut fs = fields;
    let mut r1: Option<JsonValue> = None;
    let mut r2: Option<JsonValue> = None;
    while fs.len() > 0
        invariant
            fs@.len() <= orig.len(),
            fs@ == orig.take(fs@.len() as int),
            ov == json_obj_view(orig),
            ov.len() == orig.len(),
            forall|i: int| 0 <= i < orig.len() ==> ov[i] == (orig[i].0@, json_view(orig[i].1)),
            k1@ != k2@,
            opt_json_view(r1) == obj_get(ov.skip(fs@.len() as int), k1@),
            opt_json_view(r2) == obj_get(ov.skip(fs@.len() as int), k2@),
        decreases fs.len(),
    {
        let ghost i = fs@.len() as int;
        let kv = fs.pop().unwrap();
        proof {
            assert(fs@ =~= orig.take(i - 1));
            assert(kv == orig[i - 1]);
            assert(ov.skip(i - 1).drop_first() =~= ov.skip(i));
            assert(ov.skip(i - 1)[0] == ov[i - 1]);
        }
        if kv.0 == *k1 {
            r1 = Some(kv.1);
        } else if kv.0 == *k2 {
            r2 = Some(kv.1);
        }
    }
    proof {
        assert(ov.skip(0) =~= ov);
    }
    (r1, r2)
}

/// Removes and hands back the values of the first fields named `k1` to `k4`,
/// consuming the object's fields.
pub(crate) fn obj_take_four(
    fields: Vec<(String, JsonValue)>,
    k1: &String,
    k2: &String,
    k3: &String,
    k4: &String,
) -> (r: (Option<JsonValue>, Option<JsonValue>, Option<JsonValue>, Option<JsonValue>))
    requires
        k1@ != k2@,
        k1@ != k3@,
        k1@ != k4@,
        k2@ != k3@,
        k2@ != k4@,
        k3@ != k4@,
    ensures
        opt_json_view(r.0) == obj_get(json_obj_view(fields@), k1@),
        opt_json_view(r.1) == obj_get(json_obj_view(fields@), k2@),
        opt_json_view(r.2) == obj_get(json_obj_view(fields@), k3@),
        opt_json_view(r.3) == obj_get(json_obj_view(fields@), k4@),
{
    let ghost orig = fields@;
    let ghost ov = json_obj_view(orig);
    proof {
        lemma_json_obj_view(orig);
        assert(orig.take(orig.len() as int) =~= orig);
        assert(ov.skip(orig.len() as int) =~= Seq::<(Seq<char>, JsonV)>::empty());
    }
    let mut fs = fields;
    let mut r1: Option<JsonValue> = None;
    let mut r2: Option<JsonValue> = None;
    let mut r3: Option<JsonValue> = None;
    let mut r4: Option<JsonValue> = None;
    while fs.len() > 0
        invariant
            fs@.len() <= orig.len(),
            fs@ == orig.take(fs@.len() as int),
            ov == json_obj_view(orig),
            ov.len() == orig.len(),
            forall|i: int| 0 <= i < orig.len() ==> ov[i] == (orig[i].0@, json_view(orig[i].1)),
            k1@ != k2@,
            k1@ != k3@,
            k1@ != k4@,
            k2@ != k3@,
            k2@ != k4@,
            k3@ != k4@,
            opt_json_view(r1) == obj_get(ov.skip(fs@.len() as int), k1@),
            opt_json_view(r2) == obj_get(ov.skip(fs@.len() as int), k2@),
            opt_json_view(r3) == obj_get(ov.skip(fs@.len() as int), k3@),
            opt_json_view(r4) == obj_get(ov.skip(fs@.len() as int), k4@),
        decreases fs.len(),
    {
        let ghost i = fs@.len() as int;
        let kv = fs.pop().unwrap();
        proof {
            assert(fs@ =~= orig.take(i - 1));
            assert(kv == orig[i - 1]);
            assert(ov.skip(i - 1).drop_first() =~= ov.skip(i));
            assert(ov.skip(i - 1)[0] == ov[i - 1]);
        }
        if kv.0 == *k1 {
            r1 = Some(kv.1);
        } else if kv.0 == *k2 {
            r2 = Some(kv.1);
        } else if kv.0 == *k3 {
            r3 = Some(kv.1);
        } else if kv.0 == *k4 {
            r4 = Some(kv.1);
        }
    }
    proof {
        assert(ov.skip(0) =~= ov);
    }
    (r1, r2, r3, r4)
}

pub open spec fn all_strings(items: Seq<JsonV>) -> bool {
    forall|i: int| 0 <= i < items.len() ==> items[i] is Str
}

pub open spec fn string_items(items: Seq<JsonV>) -> Seq<Seq<char>> {
    items.map_values(|v: JsonV| v->Str_0)
}

/// The strings of a JSON array, where every item is a string; `None` where
/// some item is not.
pub(crate) fn strings_of(items: &Vec<JsonValue>) -> (r: Option<Vec<String>>)
    ensures
        r is Some <==> all_strings(json_arr_view(items@)),
        r matches Some(sa) ==> sa@.map_values(|s: String| s@) == string_items(
            json_arr_view(items@),
        ),
{
    let ghost iv = json_arr_view(items@);
    proof {
        lemma_json_arr_view(items@);
    }
    let mut out: Vec<String> = Vec::new();
    let mut idx: usize = 0;
    while idx < items.len()
        invariant
            iv == json_arr_view(items@),
            iv.len() == items@.len(),
            forall|j: int| 0 <= j < items@.len() ==> iv[j] == json_view(items@[j]),
            idx <= items@.len(),
            out@.len() == idx,
            forall|j: int| 0 <= j < idx ==> iv[j] is Str && out@[j]@ == iv[j]->Str_0,
        decreases items@.len() - idx,
    {
        match &items[idx] {
            JsonValue::Str(s) => {
                out.push(s.clone());
            },
            _ => {
                proof {
                    assert(!(iv[idx as int] is Str));
                }
                return None;
            },
        }
        idx += 1;
    }
    proof {
        assert(all_strings(iv));
        assert(out@.map_values(|s: String| s@) =~= string_items(iv));
    }
    Some(out)
}

/// What `serde_json` makes of a piece of text: `None` where the text is not
/// well-formed JSON, otherwise the encoded value tree. The result depends on
/// the text alone.
pub uninterp spec fn spec_parse_json(text: Seq<char>) -> Option<JsonV>;

#[verifier::external_type_specification]
#[verifier::external_body]
pub struct ExValue(serde_json::Value);

/// Relies on `serde_json::Value`: carries the parsed tree over into the
/// library's own value type, one variant at a time; scalars other than
/// `null` collapse into `JsonValue::Other`.
#[verifier::external_body]
fn json_of_value(v: serde_json::Value) -> JsonValue {
    match v {
        serde_json::Value::Null => JsonValue::Null,
        serde_json::Value::Bool(_) => JsonValue::Other,
        serde_json::Value::Number(_) => JsonValue::Other,
        serde_json::Value::String(s) => JsonValue::Str(s),
        serde_json::Value::Array(a) => JsonValue::Arr(
            a.into_iter().map(json_of_value).collect(),
        ),
        serde_json::Value::Object(m) => JsonValue::Obj(
            m.into_iter().map(|(k, x)| (k, json_of_value(x))).collect(),
        ),
    }
}

/// Relies on `serde_json::from_str`: whether the text is well-formed JSON,
/// and which value tree it encodes, depend on the text alone.
#[verifier::external_body]
pub(crate) fn parse_json(text: &str) -> (r: Option<JsonValue>)
    ensures
        r is Some <==> spec_parse_json(text@) is Some,
        r matches Some(v) ==> spec_parse_json(text@) == Some(v@),
{
    match serde_json::from_str::<serde_json::Value>(text) {
        Ok(v) => Some(json_of_value(v)),
        Err(_) => None,
    }
}

} // verus!
