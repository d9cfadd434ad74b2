//! The message codec: one line of text to a request, one response to one
//! line of text.

use vstd::prelude::*;
use crate::json::{JVal, Json, enc, encode_json, clone_json, jv_fields, lemma_jv_fields};
use crate::parse::{parse_text, parse_json};
use crate::text::str_eq;

verus! {

/// A decoded request. An absent correlation identifier makes it a
/// notification; `null` counts as absent, as does a `null` parameter bag.
pub struct Request {
    pub id: Option<Json>,
    pub method: String,
    pub params: Option<Json>,
}

/// Mathematical content of a request.
pub struct ReqV {
    pub id: Option<JVal>,
    pub method: Seq<char>,
    pub params: Option<JVal>,
}

impl Request {
    /// The mathematical request this value stands for.
    pub open spec fn rv(self) -> ReqV {
        ReqV {
            id: match self.id {
                Some(j) => Some(j.jv()),
                None => None,
            },
            method: self.method@,
            params: match self.params {
                Some(j) => Some(j.jv()),
                None => None,
            },
        }
    }
}

/// Why a line failed to decode. Such a line is discarded; it never gets a
/// response.
#[derive(Clone, Copy, PartialEq, Eq, Debug)]
pub enum DecodeError {
    /// The line is not a JSON value.
    Syntax,
    /// The line is a JSON value, but not an object.
    NotObject,
    /// The protocol tag is absent or not a string.
    MissingTag,
    /// The method is absent or not a string.
    MissingMethod,
}

/// Value bound to `key` among the first `i` fields of a list. A repeated
/// key takes its last binding, as a JSON object built by overwriting does.
pub open spec fn obj_lookup_upto(fields: Seq<(Seq<char>, JVal)>, key: Seq<char>, i: int) -> Option<
    JVal,
>
    decreases i,
{
    if i <= 0 || i > fields.len() {
        None
    } else if fields[i - 1].0 == key {
        Some(fields[i - 1].1)
    } else {
        obj_lookup_upto(fields, key, i - 1)
    }
}

/// Value bound to `key` in a field list: the last binding of the key.
pub open spec fn obj_lookup(fields: Seq<(Seq<char>, JVal)>, key: Seq<char>) -> Option<JVal> {
    obj_lookup_upto(fields, key, fields.len() as int)
}

/// Value bound to `key` if `v` is an object, else nothing.
pub open spec fn jval_get(v: JVal, key: Seq<char>) -> Option<JVal> {
    match v {
        JVal::Obj(fields) => obj_lookup(fields, key),
        _ => None,
    }
}

/// What decoding a line means. The method and the protocol tag must be
/// present as strings; the identifier and the parameter bag may have any
/// shape, with `null` counting as absent.
pub open spec fn spec_decode(t: Seq<char>) -> Result<ReqV, DecodeError> {
    match parse_text(t) {
        None => Err(DecodeError::Syntax),
        Some(v) => match v {
            JVal::Obj(fields) => match obj_lookup(fields, "jsonrpc"@) {
                Some(JVal::Str(_)) => match obj_lookup(fields, "method"@) {
                    Some(JVal::Str(m)) => Ok(
                        ReqV {
                            id: match obj_lookup(fields, "id"@) {
                                Some(JVal::Null) => None,
                                x => x,
                            },
                            method: m,
                            params: match obj_lookup(fields, "params"@) {
                                Some(JVal::Null) => None,
                                x => x,
                            },
                        },
                    ),
                    _ => Err(DecodeError::MissingMethod),
                },
                _ => Err(DecodeError::MissingTag),
            },
            _ => Err(DecodeError::NotObject),
        },
    }
}

/// The field bound to `key` (its last binding), executably.
pub fn get_field<'a>(fields: &'a Vec<(String, Json)>, key: &str) -> (r: Option<&'a Json>)
    ensures
        match (obj_lookup(jv_fields(fields@, 0), key@), r) {
            (None, None) => true,
            (Some(v), Some(j)) => j.jv() == v,
            _ => false,
        },
{
    proof {
        lemma_jv_fields(fields@, 0);
    }
    let ghost jvf = jv_fields(fields@, 0);
    let n = fields.len();
    let mut hit: Option<usize> = None;
    let mut i: usize = 0;
    while i < n
        invariant
            n == fields@.len(),
            i <= n,
            jvf == jv_fields(fields@, 0),
            jvf.len() == n,
            forall|k: int|
                0 <= k < n ==> jvf[k] == (#[trigger] fields@[k].0@, fields@[k].1.jv()),
            match hit {
                None => obj_lookup_upto(jvf, key@, i as int) == None::<JVal>,
                Some(ix) => ix < i && obj_lookup_upto(jvf, key@, i as int) == Some(
                    jvf[ix as int].1,
                ),
            },
        decreases n - i,
    {
        if str_eq(fields[i].0.as_str(), key) {
            hit = Some(i);
        }
        i = i + 1;
    }
    proof {
        assert(obj_lookup(jvf, key@) == obj_lookup_upto(jvf, key@, n as int));
    }
    match hit {
        None => None,
        Some(ix) => {
            proof {
                assert(jvf[ix as int] == (fields@[ix as int].0@, fields@[ix as int].1.jv()));
            }
            Some(&fields[ix].1)
        },
    }
}

/// Decode one line into a request, or say why it cannot be one.
///
/// The line must be one JSON object: numbers limited to 64-bit integers,
/// string escapes limited to the short forms and `\u00XX` (a `\uXXXX`
/// escape above U+00FF makes the line malformed), and a repeated key taking
/// its last binding.
pub fn decode(line: &str) -> (r: Result<Request, DecodeError>)
    requires
        line@.len() < u64::MAX,
    ensures
        match (spec_decode(line@), r) {
            (Ok(rv), Ok(req)) => req.rv() == rv,
            (Err(e1), Err(e2)) => e1 == e2,
            _ => false,
        },
{
    match parse_json(line) {
        None => Err(DecodeError::Syntax),
        Some(v) => match v {
            Json::Obj(fields) => {
                let tag_ok = match get_field(&fields, "jsonrpc") {
                    Some(t) => match t {
                        Json::Str(_) => true,
                        _ => false,
                    },
                    None => false,
                };
                if !tag_ok {
                    return Err(DecodeError::MissingTag);
                }
                let method = match get_field(&fields, "method") {
                    Some(m) => match m {
                        Json::Str(ms) => ms.clone(),
                        _ => {
                            return Err(DecodeError::MissingMethod);
                        },
                    },
                    None => {
                        return Err(DecodeError::MissingMethod);
                    },
                };
                let id = match get_field(&fields, "id") {
                    Some(j) => match j {
                        Json::Null => None,
                        other => Some(clone_json(other)),
                    },
                    None => None,
                };
                let params = match get_field(&fields, "params") {
                    Some(j) => match j {
                        Json::Null => None,
                        other => Some(clone_json(other)),
                    },
                    None => None,
                };
                Ok(Request { id, method, params })
            },
            _ => Err(DecodeError::NotObject),
        },
    }
}

/// The error payload of a response.
pub struct RespError {
    pub code: i64,
    pub message: String,
}

/// What a response carries: exactly one of a result value or an error.
pub enum RespBody {
    Value(Json),
    Failure(RespError),
}

/// A response to one request: the echoed identifier and either a result or
/// an error, never both.
pub struct Response {
    pub id: Json,
    pub body: RespBody,
}

/// The wire object a response stands for: protocol tag, identifier, and
/// exactly one of `result` or `error`.
pub open spec fn resp_jv(r: Response) -> JVal {
    match r.body {
        RespBody::Value(v) => JVal::Obj(
            seq![
                ("jsonrpc"@, JVal::Str("2.0"@)),
                ("id"@, r.id.jv()),
                ("result"@, v.jv()),
            ],
        ),
        RespBody::Failure(e) => JVal::Obj(
            seq![
                ("jsonrpc"@, JVal::Str("2.0"@)),
                ("id"@, r.id.jv()),
                (
                    "error"@,
                    JVal::Obj(
                        seq![
                            ("code"@, JVal::Int(e.code as int)),
                            ("message"@, JVal::Str(e.message@)),
                        ],
                    ),
                ),
            ],
        ),
    }
}

/// Encode a response as one line of text: exactly the encoding of its wire
/// object.
pub fn encode_response(r: &Response) -> (out: String)
    ensures
        out@ == enc(resp_jv(*r)),
{
    let mut fields: Vec<(String, Json)> = Vec::new();
    fields.push((String::from_str("jsonrpc"), Json::Str(String::from_str("2.0"))));
    fields.push((String::from_str("id"), clone_json(&r.id)));
    match &r.body {
        RespBody::Value(v) => {
            fields.push((String::from_str("result"), clone_json(v)));
            let ghost fv = fields@;
            let obj = Json::Obj(fields);
            proof {
                lemma_jv_fields(fv, 0);
                assert(jv_fields(fv, 0)[0] == (fv[0].0@, fv[0].1.jv()));
                assert(jv_fields(fv, 0)[1] == (fv[1].0@, fv[1].1.jv()));
                assert(jv_fields(fv, 0)[2] == (fv[2].0@, fv[2].1.jv()));
                assert(jv_fields(fv, 0) =~= resp_jv(*r)->Obj_0);
            }
            encode_json(&obj)
        },
        RespBody::Failure(e) => {
            let mut ef: Vec<(String, Json)> = Vec::new();
            ef.push((String::from_str("code"), Json::Int(e.code)));
            ef.push((String::from_str("message"), Json::Str(e.message.clone())));
            let ghost ev = ef@;
            proof {
                lemma_jv_fields(ev, 0);
                assert(jv_fields(ev, 0)[0] == (ev[0].0@, ev[0].1.jv()));
                assert(jv_fields(ev, 0)[1] == (ev[1].0@, ev[1].1.jv()));
                assert(jv_fields(ev, 0) =~= seq![
                    ("code"@, JVal::Int(e.code as int)),
                    ("message"@, JVal::Str(e.message@)),
                ]);
            }
            fields.push((String::from_str("error"), Json::Obj(ef)));
            let ghost fv = fields@;
            let obj = Json::Obj(fields);
            proof {
                lemma_jv_fields(fv, 0);
                assert(jv_fields(fv, 0)[0] == (fv[0].0@, fv[0].1.jv()));
                assert(jv_fields(fv, 0)[1] == (fv[1].0@, fv[1].1.jv()));
                assert(jv_fields(fv, 0)[2] == (fv[2].0@, fv[2].1.jv()));
                assert(jv_fields(fv, 0) =~= resp_jv(*r)->Obj_0);
            }
            encode_json(&obj)
        },
    }
}

} // verus!
