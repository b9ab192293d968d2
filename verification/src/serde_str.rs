//! Embeds a whole document as a JSON string field of a host record.
//!
//! A host record sometimes stores rich content as a text column rather than
//! as a nested object. These hooks encode a [`Mobiledoc`] field as a JSON
//! string holding the document's canonical rendering, and decode such a
//! string back; a value of any other JSON type at that position is rejected.
use vstd::prelude::*;

use crate::json::{Json, JsonV, text_faithful, wf_jsonv};
use crate::text::{parse_result, render_result};
use crate::{Mobiledoc, MobiledocError, spec_doc_from_json, spec_doc_to_json};

verus! {

/// Encodes the document as a JSON string holding its canonical rendering.
pub fn serialize(mobiledoc: &Mobiledoc) -> (r: Result<Json, MobiledocError>)
    ensures
        wf_jsonv(spec_doc_to_json(mobiledoc@)) ==> r is Ok,
        r matches Ok(f) ==> (f@ matches JsonV::Str(s) && (wf_jsonv(spec_doc_to_json(mobiledoc@))
            ==> s == render_result(spec_doc_to_json(mobiledoc@))) && (text_faithful(
            spec_doc_to_json(mobiledoc@),
        ) ==> parse_result(s) == Some(spec_doc_to_json(mobiledoc@)))),
        r matches Err(e) ==> e == MobiledocError::EncodingFailure,
{
    match mobiledoc.to_json_string() {
        Ok(s) => Ok(Json::Str(s)),
        Err(e) => Err(e),
    }
}

/// Decodes a document from a JSON string field: the string's contents are
/// parsed as JSON and decoded as a document. A non-string value is rejected
/// naming the expected shape.
pub fn deserialize(j: &Json) -> (r: Result<Mobiledoc, MobiledocError>)
    ensures
        j@ matches JsonV::Str(s) ==> (r matches Ok(m) ==> (parse_result(s) matches Some(jv)
            && spec_doc_from_json(jv) == Some(m@))),
        j@ matches JsonV::Str(s) ==> (r is Err <==> (parse_result(s) is None || (parse_result(s)
            matches Some(jv) && spec_doc_from_json(jv) is None))),
        !(j@ is Str) ==> (r matches Err(e) && e matches MobiledocError::InvalidInput(msg) && msg@
            == "Mobiledoc serialized as a string"@),
        r matches Err(e) ==> e is InvalidInput,
{
    match j {
        Json::Str(s) => Mobiledoc::from_json_str(s.as_str()),
        _ => Err(
            MobiledocError::InvalidInput("Mobiledoc serialized as a string".to_owned()),
        ),
    }
}

} // verus!
