use mobiledoc::json::{is_number_token, Json};
use mobiledoc::text::{json_from_text, json_to_text};
use mobiledoc::{Atom, Card, Markup, MarkupAttribute, Mobiledoc, MobiledocError, SectionType};

fn attr(name: &str, value: &str) -> MarkupAttribute {
    MarkupAttribute {
        name: name.to_owned(),
        value: value.to_owned(),
    }
}

fn sample_doc() -> Mobiledoc {
    Mobiledoc {
        version: "0.3.1".to_owned(),
        markups: vec![
            Markup {
                tag: "a".to_owned(),
                attributes: vec![attr("href", "http://x.test"), attr("target", "_blank")],
            },
            Markup {
                tag: "b".to_owned(),
                attributes: vec![],
            },
        ],
        atoms: vec![Atom {
            name: "mention".to_owned(),
            text: "@bob".to_owned(),
            payload: Json::Obj(vec![("id".to_owned(), Json::Num("42".to_owned()))]),
        }],
        cards: vec![Card {
            name: "image".to_owned(),
            payload: Json::Obj(vec![(
                "src".to_owned(),
                Json::Str("http://example.test/logo.png".to_owned()),
            )]),
        }],
        sections: vec![
            Json::Arr(vec![
                Json::Num("1".to_owned()),
                Json::Str("p".to_owned()),
                Json::Arr(vec![]),
            ]),
            Json::Obj(vec![
                ("flag".to_owned(), Json::Bool(true)),
                ("note".to_owned(), Json::Null),
            ]),
        ],
    }
}

#[test]
fn markup_round_trip_with_attributes() {
    let m = Markup {
        tag: "a".to_owned(),
        attributes: vec![attr("href", "http://x.test"), attr("target", "_blank")],
    };
    let tree = m.to_json();
    let text = json_to_text(&tree).unwrap();
    assert_eq!(text, r#"["a",["href","http://x.test","target","_blank"]]"#);
    let parsed = json_from_text(&text).unwrap();
    let back = Markup::from_json(&parsed).unwrap();
    assert_eq!(back, m);
}

#[test]
fn markup_round_trip_no_attributes() {
    let m = Markup {
        tag: "b".to_owned(),
        attributes: vec![],
    };
    let text = json_to_text(&m.to_json()).unwrap();
    assert_eq!(text, r#"["b",[]]"#);
    // A markup whose flat attribute array is entirely absent also decodes,
    // with no attributes.
    let parsed = json_from_text(r#"["b"]"#).unwrap();
    let back = Markup::from_json(&parsed).unwrap();
    assert_eq!(back, m);
}

#[test]
fn markup_odd_flat_length_fails() {
    let parsed = json_from_text(r#"["onlyTag",["href"]]"#).unwrap();
    let r = Markup::from_json(&parsed);
    assert!(matches!(r, Err(MobiledocError::InvalidInput(_))));
}

#[test]
fn markup_wrong_shapes_fail() {
    for text in [
        r#"[]"#,
        r#"[1]"#,
        r#"["a",{}]"#,
        r#"["a",[1,2]]"#,
        r#"["a",[],"extra"]"#,
        r#"{"tag":"a"}"#,
    ] {
        let parsed = json_from_text(text).unwrap();
        let r = Markup::from_json(&parsed);
        assert!(matches!(r, Err(MobiledocError::InvalidInput(_))), "{}", text);
    }
}

#[test]
fn atom_encoding() {
    let a = Atom {
        name: "mention".to_owned(),
        text: "@bob".to_owned(),
        payload: Json::Obj(vec![("id".to_owned(), Json::Num("42".to_owned()))]),
    };
    let text = json_to_text(&a.to_json()).unwrap();
    assert_eq!(text, r#"["mention","@bob",{"id":42}]"#);
    let parsed = json_from_text(&text).unwrap();
    assert_eq!(Atom::from_json(&parsed).unwrap(), a);
}

#[test]
fn atom_wrong_shapes_fail() {
    for text in [r#"["a","b"]"#, r#"["a","b",1,2]"#, r#"[1,"b",null]"#, r#"["a",2,null]"#, r#""x""#]
    {
        let parsed = json_from_text(text).unwrap();
        assert!(matches!(
            Atom::from_json(&parsed),
            Err(MobiledocError::InvalidInput(_))
        ));
    }
}

#[test]
fn card_encoding() {
    let c = Card {
        name: "image".to_owned(),
        payload: Json::Obj(vec![(
            "src".to_owned(),
            Json::Str("http://example.test/logo.png".to_owned()),
        )]),
    };
    let text = json_to_text(&c.to_json()).unwrap();
    assert_eq!(text, r#"["image",{"src":"http://example.test/logo.png"}]"#);
    let parsed = json_from_text(&text).unwrap();
    assert_eq!(Card::from_json(&parsed).unwrap(), c);
}

#[test]
fn card_wrong_shapes_fail() {
    for text in [r#"["a"]"#, r#"["a",1,2]"#, r#"[5,null]"#, r#"{}"#] {
        let parsed = json_from_text(text).unwrap();
        assert!(matches!(
            Card::from_json(&parsed),
            Err(MobiledocError::InvalidInput(_))
        ));
    }
}

#[test]
fn section_type_codes() {
    assert_eq!(SectionType::Text.code(), 1);
    assert_eq!(SectionType::Image.code(), 2);
    assert_eq!(SectionType::List.code(), 3);
    assert_eq!(SectionType::Card.code(), 10);
    assert_eq!(SectionType::from_code(1).unwrap(), SectionType::Text);
    assert_eq!(SectionType::from_code(2).unwrap(), SectionType::Image);
    assert_eq!(SectionType::from_code(3).unwrap(), SectionType::List);
    assert_eq!(SectionType::from_code(10).unwrap(), SectionType::Card);
    assert!(matches!(
        SectionType::from_code(4),
        Err(MobiledocError::InvalidInput(_))
    ));
}

#[test]
fn section_type_json() {
    let text = json_to_text(&SectionType::Card.to_json()).unwrap();
    assert_eq!(text, "10");
    let parsed = json_from_text("3").unwrap();
    assert_eq!(SectionType::from_json(&parsed).unwrap(), SectionType::List);
    let four = json_from_text("4").unwrap();
    assert!(matches!(
        SectionType::from_json(&four),
        Err(MobiledocError::InvalidInput(_))
    ));
}

#[test]
fn mobiledoc_round_trip() {
    let doc = sample_doc();
    let text = doc.to_json_string().unwrap();
    let back = Mobiledoc::from_json_str(&text).unwrap();
    assert_eq!(back, doc);
}

#[test]
fn mobiledoc_wire_shape() {
    let doc = Mobiledoc {
        version: "0.3.1".to_owned(),
        markups: vec![Markup {
            tag: "b".to_owned(),
            attributes: vec![],
        }],
        atoms: vec![],
        cards: vec![],
        sections: vec![Json::Num("7".to_owned())],
    };
    let text = doc.to_json_string().unwrap();
    assert_eq!(
        text,
        r#"{"version":"0.3.1","markups":[["b",[]]],"atoms":[],"cards":[],"sections":[7]}"#
    );
}

#[test]
fn mobiledoc_unknown_field_is_ignored() {
    let text = r#"{"version":"v","extra":0,"markups":[],"atoms":[],"cards":[],"sections":[]}"#;
    let doc = Mobiledoc::from_json_str(text).unwrap();
    assert_eq!(doc.version, "v");
    assert!(doc.markups.is_empty());
}

#[test]
fn mobiledoc_missing_field_fails() {
    let text = r#"{"version":"v","markups":[],"atoms":[],"cards":[]}"#;
    assert!(matches!(
        Mobiledoc::from_json_str(text),
        Err(MobiledocError::InvalidInput(_))
    ));
}

#[test]
fn mobiledoc_repeated_field_fails() {
    let parsed = Json::Obj(vec![
        ("version".to_owned(), Json::Str("a".to_owned())),
        ("version".to_owned(), Json::Str("b".to_owned())),
        ("markups".to_owned(), Json::Arr(vec![])),
        ("atoms".to_owned(), Json::Arr(vec![])),
        ("cards".to_owned(), Json::Arr(vec![])),
        ("sections".to_owned(), Json::Arr(vec![])),
    ]);
    assert!(matches!(
        Mobiledoc::from_json(&parsed),
        Err(MobiledocError::InvalidInput(_))
    ));
}

#[test]
fn mobiledoc_wrong_field_type_fails() {
    let text = r#"{"version":7,"markups":[],"atoms":[],"cards":[],"sections":[]}"#;
    assert!(matches!(
        Mobiledoc::from_json_str(text),
        Err(MobiledocError::InvalidInput(_))
    ));
}

#[test]
fn malformed_text_fails() {
    assert!(matches!(
        Mobiledoc::from_json_str("{"),
        Err(MobiledocError::InvalidInput(_))
    ));
}

#[test]
fn bad_number_token_cannot_be_rendered() {
    let doc = Mobiledoc {
        version: "v".to_owned(),
        markups: vec![],
        atoms: vec![],
        cards: vec![],
        sections: vec![Json::Num("not-a-number".to_owned())],
    };
    assert!(matches!(
        doc.to_json_string(),
        Err(MobiledocError::EncodingFailure)
    ));
}

#[test]
fn text_layer_round_trips_a_mixed_tree() {
    let text = r#"[1,true,null,"x",{"k":[2.5,-3e+7]}]"#;
    let tree = json_from_text(text).unwrap();
    assert_eq!(
        tree,
        Json::Arr(vec![
            Json::Num("1".to_owned()),
            Json::Bool(true),
            Json::Null,
            Json::Str("x".to_owned()),
            Json::Obj(vec![(
                "k".to_owned(),
                Json::Arr(vec![
                    Json::Num("2.5".to_owned()),
                    Json::Num("-3e+7".to_owned())
                ])
            )]),
        ])
    );
    assert_eq!(json_to_text(&tree).unwrap(), text);
}

#[test]
fn number_tokens_are_normalized_on_parse() {
    let tree = json_from_text("[1E5,2e2,0.50]").unwrap();
    assert_eq!(
        tree,
        Json::Arr(vec![
            Json::Num("1e+5".to_owned()),
            Json::Num("2e+2".to_owned()),
            Json::Num("0.50".to_owned()),
        ])
    );
    assert_eq!(json_to_text(&tree).unwrap(), "[1e+5,2e+2,0.50]");
}

#[test]
fn reserved_number_key_changes_shape_on_parse() {
    // serde_json reads an object whose first key is its reserved number
    // key back as a number, which is why such trees are excluded from the
    // parse-back contracts.
    let tree = Json::Obj(vec![(
        "$serde_json::private::Number".to_owned(),
        Json::Str("1".to_owned()),
    )]);
    let text = json_to_text(&tree).unwrap();
    let back = json_from_text(&text).unwrap();
    assert_eq!(back, Json::Num("1".to_owned()));
}

#[test]
fn parser_depth_limit_bounds_round_trips() {
    // The printer has no depth limit but the parser does, which is why
    // deeply nested trees are excluded from the parse-back contracts.
    let mut deep = Json::Arr(vec![]);
    for _ in 0..200 {
        deep = Json::Arr(vec![deep]);
    }
    let text = json_to_text(&deep).unwrap();
    assert!(json_from_text(&text).is_err());

    let mut shallow = Json::Arr(vec![]);
    for _ in 0..100 {
        shallow = Json::Arr(vec![shallow]);
    }
    let text = json_to_text(&shallow).unwrap();
    assert_eq!(json_from_text(&text).unwrap(), shallow);
}

#[test]
fn rendering_is_deterministic() {
    let doc = sample_doc();
    assert_eq!(
        doc.to_json_string().unwrap(),
        doc.clone().to_json_string().unwrap()
    );
}

#[test]
fn number_token_checker() {
    for good in ["0", "1", "-1", "10", "2.5", "-0.125", "1e+5", "3.25e-12", "0.50"] {
        assert!(is_number_token(good), "{}", good);
    }
    for bad in ["", "-", "01", "-0", "1.", ".5", "1E5", "1e5", "1e", "1e+", "+1", "a", "1 "] {
        assert!(!is_number_token(bad), "{}", bad);
    }
}

#[test]
fn rendering_agrees_with_serde_json() {
    let doc = sample_doc();
    let text = doc.to_json_string().unwrap();
    let value: serde_json::Value = serde_json::from_str(&text).unwrap();
    assert_eq!(serde_json::to_string(&value).unwrap(), text);
}
