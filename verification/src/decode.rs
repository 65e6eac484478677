use vstd::prelude::*;
use crate::errors::CloudFlareErrors;
use crate::json::JsonValue;
use crate::json::JsonView;
use crate::json::fields_view;
use crate::json::obj_get;
use crate::json::obj_lookup;
use crate::json::parse_json;
use crate::json::parsed_json;

verus! {

/// One DNS record as the provider exposes it. Every field but `prio` is a
/// required string; `prio` is absent for record kinds that carry no
/// priority.
#[derive(Debug, PartialEq, Eq)]
pub struct Record {
    pub rec_id: String,
    pub zone_name: String,
    pub display_name: String,
    pub name: String,
    pub content: String,
    pub record_type: String,
    pub prio: Option<String>,
    pub ttl: String,
}

/// The mathematical content of a record.
pub struct RecordView {
    pub rec_id: Seq<char>,
    pub zone_name: Seq<char>,
    pub display_name: Seq<char>,
    pub name: Seq<char>,
    pub content: Seq<char>,
    pub record_type: Seq<char>,
    pub prio: Option<Seq<char>>,
    pub ttl: Seq<char>,
}

impl View for Record {
    type V = RecordView;

    open spec fn view(&self) -> RecordView {
        RecordView {
            rec_id: self.rec_id@,
            zone_name: self.zone_name@,
            display_name: self.display_name@,
            name: self.name@,
            content: self.content@,
            record_type: self.record_type@,
            prio: self.prio.deep_view(),
            ttl: self.ttl@,
        }
    }
}

/// The views of a sequence of records.
pub open spec fn records_view(rs: Seq<Record>) -> Seq<RecordView> {
    Seq::new(rs.len(), |i: int| rs[i]@)
}

/// The text of a required string field: nothing when the field is absent or
/// not a JSON string.
pub open spec fn str_field(fs: Seq<(Seq<char>, JsonView)>, k: Seq<char>) -> Option<Seq<char>> {
    match obj_lookup(fs, k) {
        Some(JsonView::Str(s)) => Some(s),
        _ => None,
    }
}

/// The decoded priority: an absent field and a JSON null both mean "no
/// value", a string is its value, anything else fails the record.
pub open spec fn prio_field(fs: Seq<(Seq<char>, JsonView)>) -> Option<Option<Seq<char>>> {
    match obj_lookup(fs, ("prio")@) {
        None => Some(None),
        Some(JsonView::Null) => Some(None),
        Some(JsonView::Str(s)) => Some(Some(s)),
        Some(_) => None,
    }
}

/// The record one element of `objs` decodes to, if it is an object carrying
/// every required string field; the wire name `type` feeds `record_type`.
pub open spec fn spec_decode_record(v: JsonView) -> Option<RecordView> {
    match v {
        JsonView::Obj(fs) => match (
            str_field(fs, ("rec_id")@),
            str_field(fs, ("zone_name")@),
            str_field(fs, ("display_name")@),
            str_field(fs, ("name")@),
            str_field(fs, ("content")@),
            str_field(fs, ("type")@),
            str_field(fs, ("ttl")@),
            prio_field(fs),
        ) {
            (
                Some(rec_id),
                Some(zone_name),
                Some(display_name),
                Some(name),
                Some(content),
                Some(record_type),
                Some(ttl),
                Some(prio),
            ) => Some(RecordView {
                rec_id,
                zone_name,
                display_name,
                name,
                content,
                record_type,
                prio,
                ttl,
            }),
            _ => None,
        },
        _ => None,
    }
}

/// The record sequence a whole response decodes to: the provider's
/// `response.recs.objs` envelope unwrapped level by level, then every
/// element decoded, in wire order; one bad element fails the whole body.
pub open spec fn spec_decode_body(j: JsonView) -> Option<Seq<RecordView>> {
    match j {
        JsonView::Obj(top) => match obj_lookup(top, ("response")@) {
            Some(JsonView::Obj(resp)) => match obj_lookup(resp, ("recs")@) {
                Some(JsonView::Obj(recs)) => match obj_lookup(recs, ("objs")@) {
                    Some(JsonView::Arr(items)) => {
                        if forall|i: int| 0 <= i < items.len()
                            ==> spec_decode_record(#[trigger] items[i]) is Some {
                            Some(Seq::new(items.len(), |i: int| spec_decode_record(items[i])->Some_0))
                        } else {
                            None
                        }
                    },
                    _ => None,
                },
                _ => None,
            },
            _ => None,
        },
        _ => None,
    }
}

/// What a body decodes to: the records, or nothing when the body is not
/// valid JSON or not the expected envelope.
pub open spec fn spec_decoded(body: Seq<char>) -> Option<Seq<RecordView>> {
    match parsed_json(body) {
        Some(j) => spec_decode_body(j),
        None => None,
    }
}

/// Decoding is a function of the body text alone: two decodes of equal
/// bodies yield equal record sequences.
pub proof fn lemma_decode_deterministic(body: Seq<char>, r1: Option<Seq<RecordView>>, r2: Option<Seq<RecordView>>)
    requires
        r1 == spec_decoded(body),
        r2 == spec_decoded(body),
    ensures
        r1 == r2,
{
}

/// The required string field named `key`, copied out of an object's fields.
fn get_str(fields: &Vec<(String, JsonValue)>, key: &String) -> (r: Option<String>)
    ensures
        match r {
            Some(s) => str_field(fields_view(fields@), key@) == Some(s@),
            None => str_field(fields_view(fields@), key@) is None,
        },
{
    match obj_get(fields, key) {
        Some(v) => match v {
            JsonValue::Str(s) => Some(s.clone()),
            _ => None,
        },
        None => None,
    }
}

/// The priority field, following the rule that absent and null both decode
/// to "no value".
fn get_prio(fields: &Vec<(String, JsonValue)>) -> (r: Option<Option<String>>)
    ensures
        match r {
            Some(p) => prio_field(fields_view(fields@)) == Some(p.deep_view()),
            None => prio_field(fields_view(fields@)) is None,
        },
{
    let key = "prio".to_owned();
    match obj_get(fields, &key) {
        None => Some(None),
        Some(v) => match v {
            JsonValue::Null => Some(None),
            JsonValue::Str(s) => Some(Some(s.clone())),
            _ => None,
        },
    }
}

/// Decodes one element of `objs` into a record.
fn decode_record(v: &JsonValue) -> (r: Option<Record>)
    ensures
        match r {
            Some(rec) => spec_decode_record(v@) == Some(rec@),
            None => spec_decode_record(v@) is None,
        },
{
    match v {
        JsonValue::Obj(fields) => {
            proof {
                assert(v@->Obj_0 =~= fields_view(fields@));
                assert(v@ == JsonView::Obj(fields_view(fields@)));
            }
            let rec_id = match get_str(fields, &"rec_id".to_owned()) {
                Some(s) => s,
                None => {
                    return None;
                },
            };
            let zone_name = match get_str(fields, &"zone_name".to_owned()) {
                Some(s) => s,
                None => {
                    return None;
                },
            };
            let display_name = match get_str(fields, &"display_name".to_owned()) {
                Some(s) => s,
                None => {
                    return None;
                },
            };
            let name = match get_str(fields, &"name".to_owned()) {
                Some(s) => s,
                None => {
                    return None;
                },
            };
            let content = match get_str(fields, &"content".to_owned()) {
                Some(s) => s,
                None => {
                    return None;
                },
            };
            let record_type = match get_str(fields, &"type".to_owned()) {
                Some(s) => s,
                None => {
                    return None;
                },
            };
            let ttl = match get_str(fields, &"ttl".to_owned()) {
                Some(s) => s,
                None => {
                    return None;
                },
            };
            let prio = match get_prio(fields) {
                Some(p) => p,
                None => {
                    return None;
                },
            };
            Some(Record {
                rec_id,
                zone_name,
                display_name,
                name,
                content,
                record_type,
                prio,
                ttl,
            })
        },
        _ => None,
    }
}

/// Decodes a whole response body: parses it as JSON, unwraps the
/// `response.recs.objs` envelope, and decodes every element, in wire order.
/// Any failure of shape is a `ParsingError`; zero records is a success.
pub fn decode_records(body: &str) -> (r: Result<Vec<Record>, CloudFlareErrors>)
    ensures
        (match spec_decoded(body@) {
            Some(rs) => r matches Ok(v) && records_view(v@) == rs,
            None => r matches Err(e) && e matches CloudFlareErrors::ParsingError(_),
        }),
{
    let parsed = match parse_json(body) {
        Some(v) => v,
        None => {
            return Err(CloudFlareErrors::ParsingError(
                "the response body is not well-formed JSON".to_owned(),
            ));
        },
    };
    let top = match &parsed {
        JsonValue::Obj(fields) => fields,
        _ => {
            return Err(CloudFlareErrors::ParsingError(
                "the response body is not a JSON object".to_owned(),
            ));
        },
    };
    proof {
        assert(parsed@->Obj_0 =~= fields_view(top@));
        assert(parsed@ == JsonView::Obj(fields_view(top@)));
    }
    let resp = match obj_get(top, &"response".to_owned()) {
        Some(v) => v,
        None => {
            return Err(CloudFlareErrors::ParsingError(
                "the envelope is missing the response object".to_owned(),
            ));
        },
    };
    let resp_fields = match resp {
        JsonValue::Obj(fields) => fields,
        _ => {
            return Err(CloudFlareErrors::ParsingError(
                "the response field is not a JSON object".to_owned(),
            ));
        },
    };
    proof {
        assert(resp@->Obj_0 =~= fields_view(resp_fields@));
        assert(resp@ == JsonView::Obj(fields_view(resp_fields@)));
    }
    let recs = match obj_get(resp_fields, &"recs".to_owned()) {
        Some(v) => v,
        None => {
            return Err(CloudFlareErrors::ParsingError(
                "the envelope is missing the recs object".to_owned(),
            ));
        },
    };
    let recs_fields = match recs {
        JsonValue::Obj(fields) => fields,
        _ => {
            return Err(CloudFlareErrors::ParsingError(
                "the recs field is not a JSON object".to_owned(),
            ));
        },
    };
    proof {
        assert(recs@->Obj_0 =~= fields_view(recs_fields@));
        assert(recs@ == JsonView::Obj(fields_view(recs_fields@)));
    }
    let objs = match obj_get(recs_fields, &"objs".to_owned()) {
        Some(v) => v,
        None => {
            return Err(CloudFlareErrors::ParsingError(
                "the envelope is missing the objs array".to_owned(),
            ));
        },
    };
    let items = match objs {
        JsonValue::Arr(elems) => elems,
        _ => {
            return Err(CloudFlareErrors::ParsingError(
                "the objs field is not a JSON array".to_owned(),
            ));
        },
    };
    let ghost ivs = objs@->Arr_0;
    proof {
        assert(objs@ == JsonView::Arr(ivs));
        assert(ivs.len() == items@.len());
        assert(forall|i: int| 0 <= i < items@.len() ==> ivs[i] == items@[i]@);
        assert((forall|j: int| 0 <= j < ivs.len()
            ==> spec_decode_record(#[trigger] ivs[j]) is Some)
            ==> spec_decode_body(parsed@)
                == Some(Seq::new(ivs.len(), |j: int| spec_decode_record(ivs[j])->Some_0)));
        assert((exists|j: int| 0 <= j < ivs.len()
            && spec_decode_record(#[trigger] ivs[j]) is None)
            ==> spec_decode_body(parsed@) is None);
    }
    let n = items.len();
    let mut out: Vec<Record> = Vec::new();
    let mut i: usize = 0;
    while i < n
        invariant
            n == items@.len(),
            i <= n,
            out@.len() == i,
            ivs.len() == items@.len(),
            parsed_json(body@) == Some(parsed@),
            (forall|j: int| 0 <= j < ivs.len()
                ==> spec_decode_record(#[trigger] ivs[j]) is Some)
                ==> spec_decode_body(parsed@)
                    == Some(Seq::new(ivs.len(), |j: int| spec_decode_record(ivs[j])->Some_0)),
            (exists|j: int| 0 <= j < ivs.len()
                && spec_decode_record(#[trigger] ivs[j]) is None)
                ==> spec_decode_body(parsed@) is None,
            forall|j: int| 0 <= j < items@.len() ==> ivs[j] == items@[j]@,
            forall|j: int| 0 <= j < i ==> spec_decode_record(#[trigger] ivs[j]) is Some
                && spec_decode_record(ivs[j]) == Some(out@[j]@),
        decreases n - i,
    {
        match decode_record(&items[i]) {
            Some(rec) => {
                out.push(rec);
            },
            None => {
                proof {
                    assert(0 <= (i as int) && (i as int) < ivs.len()
                        && spec_decode_record(ivs[i as int]) is None);
                    assert(spec_decode_body(parsed@) is None);
                }
                return Err(CloudFlareErrors::ParsingError(
                    "a record in objs is missing a required field or gives it the wrong type"
                        .to_owned(),
                ));
            },
        }
        i = i + 1;
    }
    proof {
        let rs = spec_decode_body(parsed@);
        assert(rs matches Some(_));
        assert(records_view(out@) =~= rs->Some_0);
    }
    Ok(out)
}

impl Record {
    /// Decodes one record from a JSON text holding a single record object,
    /// under the same rules as one element of `objs`.
    pub fn from_json(s: &str) -> (r: Result<Record, CloudFlareErrors>)
        ensures
            (match parsed_json(s@) {
                Some(v) => match spec_decode_record(v) {
                    Some(m) => r matches Ok(rec) && rec@ == m,
                    None => r matches Err(e) && e matches CloudFlareErrors::ParsingError(_),
                },
                None => r matches Err(e) && e matches CloudFlareErrors::ParsingError(_),
            }),
    {
        let parsed = match parse_json(s) {
            Some(v) => v,
            None => {
                return Err(CloudFlareErrors::ParsingError(
                    "the text is not well-formed JSON".to_owned(),
                ));
            },
        };
        match decode_record(&parsed) {
            Some(rec) => Ok(rec),
            None => Err(CloudFlareErrors::ParsingError(
                "the record is missing a required field or gives it the wrong type".to_owned(),
            )),
        }
    }
}

} // verus!
