//! Embeds an optional document as a JSON string field of a host record.
//!
//! The same string embedding as the `serde_str` module, for a field whose
//! value may be absent: an absent document is carried as an explicit JSON
//! null (the field stays present, holding the no-value marker), and a
//! present one as the canonical rendering in a JSON string.
use vstd::prelude::*;

use crate::json::{Json, JsonV, text_faithful, wf_jsonv};
use crate::text::{parse_result, render_result};
use crate::{Mobiledoc, MobiledocError, spec_doc_from_json, spec_doc_to_json};

verus! {

/// Encodes an absent document as JSON null, and a present one as a JSON
/// string holding its canonical rendering.
pub fn serialize(opt: &Option<Mobiledoc>) -> (r: Result<Json, MobiledocError>)
    ensures
        opt is None ==> (r matches Ok(f) && f@ == JsonV::Null),
        opt matches Some(m) ==> (wf_jsonv(spec_doc_to_json(m@)) ==> r is Ok),
        opt matches Some(m) ==> (r matches Ok(f) ==> (f@ matches JsonV::Str(s) && (wf_jsonv(
            spec_doc_to_json(m@),
        ) ==> s == render_result(spec_doc_to_json(m@))) && (text_faithful(spec_doc_to_json(m@))
            ==> parse_result(s) == Some(spec_doc_to_json(m@))))),
        r matches Err(e) ==> e == MobiledocError::EncodingFailure,
{
    match opt {
        Some(m) => crate::serde_str::serialize(m),
        None => Ok(Json::Null),
    }
}

/// Decodes an optional document: JSON null means absent, a JSON string is
/// decoded as in the `serde_str` module, and any other value is rejected
/// naming the expected shape.
pub fn deserialize(j: &Json) -> (r: Result<Option<Mobiledoc>, MobiledocError>)
    ensures
        j@ is Null ==> (r matches Ok(o) && o is None),
        j@ matches JsonV::Str(s) ==> (r matches Ok(o) ==> (o matches Some(m) && parse_result(s)
            matches Some(jv) && spec_doc_from_json(jv) == Some(m@))),
        j@ matches JsonV::Str(s) ==> (r is Err <==> (parse_result(s) is None || (parse_result(s)
            matches Some(jv) && spec_doc_from_json(jv) is None))),
        !(j@ is Null) && !(j@ is Str) ==> (r matches Err(e) && e
            matches MobiledocError::InvalidInput(msg) && msg@
            == "Mobiledoc serialized as a string"@),
        r matches Err(e) ==> e is InvalidInput,
{
    match j {
        Json::Null => Ok(None),
        Json::Str(_) => match crate::serde_str::deserialize(j) {
            Ok(m) => Ok(Some(m)),
            Err(e) => Err(e),
        },
        _ => Err(
            MobiledocError::InvalidInput("Mobiledoc serialized as a string".to_owned()),
        ),
    }
}

} // verus!
