use mobiledoc::json::Json;
use mobiledoc::text::{json_from_text, json_to_text};
use mobiledoc::{serde_str, serde_str_option, Markup, Mobiledoc, MobiledocError};

fn small_doc() -> Mobiledoc {
    Mobiledoc {
        version: "0.3.1".to_owned(),
        markups: vec![Markup {
            tag: "em".to_owned(),
            attributes: vec![],
        }],
        atoms: vec![],
        cards: vec![],
        sections: vec![Json::Str("hello".to_owned())],
    }
}

#[test]
fn required_field_embeds_canonical_text() {
    let doc = small_doc();
    let field = serde_str::serialize(&doc).unwrap();
    match &field {
        Json::Str(s) => assert_eq!(s, &doc.to_json_string().unwrap()),
        other => panic!("expected a string field, got {:?}", other),
    }
}

#[test]
fn required_field_round_trips_through_a_host_record() {
    let doc = small_doc();
    let field = serde_str::serialize(&doc).unwrap();
    let host = Json::Obj(vec![("rendered".to_owned(), field)]);
    let host_text = json_to_text(&host).unwrap();
    let host_back = json_from_text(&host_text).unwrap();
    let field_back = match host_back {
        Json::Obj(pairs) => pairs.into_iter().next().unwrap().1,
        other => panic!("expected an object, got {:?}", other),
    };
    let doc_back = serde_str::deserialize(&field_back).unwrap();
    assert_eq!(doc_back, doc);
}

#[test]
fn required_field_rejects_non_string_values() {
    for j in [
        Json::Num("5".to_owned()),
        Json::Obj(vec![]),
        Json::Null,
        Json::Arr(vec![]),
        Json::Bool(true),
    ] {
        match serde_str::deserialize(&j) {
            Err(MobiledocError::InvalidInput(msg)) => {
                assert_eq!(msg, "Mobiledoc serialized as a string");
            },
            other => panic!("expected InvalidInput, got {:?}", other),
        }
    }
}

#[test]
fn required_field_rejects_malformed_contents() {
    let r = serde_str::deserialize(&Json::Str("{not json".to_owned()));
    assert!(matches!(r, Err(MobiledocError::InvalidInput(_))));
    let r = serde_str::deserialize(&Json::Str("{}".to_owned()));
    assert!(matches!(r, Err(MobiledocError::InvalidInput(_))));
}

#[test]
fn optional_field_absent_uses_the_no_value_marker() {
    let field = serde_str_option::serialize(&None).unwrap();
    assert_eq!(field, Json::Null);
    let back = serde_str_option::deserialize(&Json::Null).unwrap();
    assert_eq!(back, None);
}

#[test]
fn optional_field_present_round_trips() {
    let doc = small_doc();
    let field = serde_str_option::serialize(&Some(doc.clone())).unwrap();
    match &field {
        Json::Str(s) => assert_eq!(s, &doc.to_json_string().unwrap()),
        other => panic!("expected a string field, got {:?}", other),
    }
    let back = serde_str_option::deserialize(&field).unwrap();
    assert_eq!(back, Some(doc));
}

#[test]
fn optional_field_rejects_other_shapes() {
    for j in [Json::Num("1".to_owned()), Json::Obj(vec![]), Json::Bool(false)] {
        match serde_str_option::deserialize(&j) {
            Err(MobiledocError::InvalidInput(msg)) => {
                assert_eq!(msg, "Mobiledoc serialized as a string");
            },
            other => panic!("expected InvalidInput, got {:?}", other),
        }
    }
}
