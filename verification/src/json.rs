use vstd::prelude::*;

verus! {

broadcast use vstd::std_specs::vec::axiom_vec_index_decreases;

/// The shape of a parsed JSON value, as far as this client reads one.
/// Numeric payloads carry no data here: no field this client decodes is
/// allowed to be a number, so for numbers only the kind matters.
pub enum JsonView {
    Null,
    Bool(bool),
    Number,
    Str(Seq<char>),
    Arr(Seq<JsonView>),
    Obj(Seq<(Seq<char>, JsonView)>),
}

/// A parsed JSON value, held in this crate's own tree so that verified code
/// can read it. Object fields keep unique keys (the parser maps an object to
/// a key-ordered map before this tree is built).
pub enum JsonValue {
    Null,
    Bool(bool),
    Number,
    Str(String),
    Arr(Vec<JsonValue>),
    Obj(Vec<(String, JsonValue)>),
}

/// The model of a parsed value: each variant carried over, strings to their
/// character sequences.
pub open spec fn json_view(v: JsonValue) -> JsonView
    decreases v,
{
    match v {
        JsonValue::Null => JsonView::Null,
        JsonValue::Bool(b) => JsonView::Bool(b),
        JsonValue::Number => JsonView::Number,
        JsonValue::Str(s) => JsonView::Str(s@),
        JsonValue::Arr(items) => JsonView::Arr(
            Seq::new(
                items@.len(),
                |i: int| if 0 <= i < items@.len() {
                    json_view(items[i])
                } else {
                    JsonView::Null
                },
            ),
        ),
        JsonValue::Obj(fields) => JsonView::Obj(
            Seq::new(
                fields@.len(),
                |i: int| if 0 <= i < fields@.len() {
                    (fields[i].0@, json_view(fields[i].1))
                } else {
                    (Seq::empty(), JsonView::Null)
                },
            ),
        ),
    }
}

impl View for JsonValue {
    type V = JsonView;

    open spec fn view(&self) -> JsonView {
        json_view(*self)
    }
}

/// The views of an object's fields.
pub open spec fn fields_view(fs: Seq<(String, JsonValue)>) -> Seq<(Seq<char>, JsonView)> {
    Seq::new(fs.len(), |i: int| (fs[i].0@, fs[i].1@))
}

/// The value bound to `k` among an object's fields, scanning from the front.
pub open spec fn obj_lookup(fs: Seq<(Seq<char>, JsonView)>, k: Seq<char>) -> Option<JsonView>
    decreases fs.len(),
{
    if fs.len() == 0 {
        None
    } else if fs[0].0 == k {
        Some(fs[0].1)
    } else {
        obj_lookup(fs.drop_first(), k)
    }
}

/// rustc_serialize's parsed JSON tree, declared so that values of it can
/// pass between the trusted wrappers below.
#[verifier::external_type_specification]
#[verifier::external_body]
pub struct ExJson(rustc_serialize::json::Json);

/// What a parsed JSON tree holds, read as this crate's model of JSON.
pub uninterp spec fn json_model(j: rustc_serialize::json::Json) -> JsonView;

/// The JSON value a text parses to, or nothing when the text is not
/// well-formed JSON.
pub uninterp spec fn parsed_json(s: Seq<char>) -> Option<JsonView>;

/// Relies on rustc_serialize::json::Json::from_str: a well-formed text
/// parses to its JSON value, anything else to an error.
#[verifier::external_body]
fn json_from_str(s: &str) -> (r: Option<rustc_serialize::json::Json>)
    ensures
        r matches Some(j) ==> parsed_json(s@) == Some(json_model(j)),
        r is None ==> parsed_json(s@) is None,
{
    rustc_serialize::json::Json::from_str(s).ok()
}

/// Relies on the shape of rustc_serialize::json::Json: each variant is
/// carried over one for one; the three numeric variants lose their payload,
/// which nothing in this crate reads.
#[verifier::external_body]
fn json_to_value(j: rustc_serialize::json::Json) -> (r: JsonValue)
    ensures
        r@ == json_model(j),
{
    match j {
        rustc_serialize::json::Json::Null => JsonValue::Null,
        rustc_serialize::json::Json::Boolean(b) => JsonValue::Bool(b),
        rustc_serialize::json::Json::String(s) => JsonValue::Str(s),
        rustc_serialize::json::Json::Array(a) => JsonValue::Arr(
            a.into_iter().map(json_to_value).collect(),
        ),
        rustc_serialize::json::Json::Object(o) => JsonValue::Obj(
            o.into_iter().map(|(k, v)| (k, json_to_value(v))).collect(),
        ),
        _ => JsonValue::Number,
    }
}

/// Parses a text as JSON into this crate's own tree.
pub fn parse_json(s: &str) -> (r: Option<JsonValue>)
    ensures
        r matches Some(v) ==> parsed_json(s@) == Some(v@),
        r is None ==> parsed_json(s@) is None,
{
    match json_from_str(s) {
        Some(j) => Some(json_to_value(j)),
        None => None,
    }
}

/// The field of `fields` named `key`, if any.
pub fn obj_get<'a>(fields: &'a Vec<(String, JsonValue)>, key: &String) -> (r: Option<
    &'a JsonValue,
>)
    ensures
        match r {
            Some(v) => obj_lookup(fields_view(fields@), key@) == Some(v@),
            None => obj_lookup(fields_view(fields@), key@) is None,
        },
{
    let n = fields.len();
    let mut i: usize = 0;
    proof {
        assert(fields_view(fields@).skip(0) =~= fields_view(fields@));
    }
    while i < n
        invariant
            n == fields@.len(),
            i <= n,
            obj_lookup(fields_view(fields@), key@)
                == obj_lookup(fields_view(fields@).skip(i as int), key@),
            forall|j: int| 0 <= j < i ==> fields@[j].0@ != key@,
        decreases n - i,
    {
        let ghost fv = fields_view(fields@);
        if fields[i].0 == *key {
            proof {
                assert(fv.skip(i as int)[0] == fv[i as int]);
            }
            return Some(&fields[i].1);
        }
        proof {
            assert(fv.skip(i as int)[0] == fv[i as int]);
            assert(fv.skip(i as int).drop_first() =~= fv.skip(i as int + 1));
        }
        i = i + 1;
    }
    proof {
        assert(fields_view(fields@).skip(n as int).len() == 0);
    }
    None
}

} // verus!
