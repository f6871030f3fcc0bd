use ass::asml_parser::Element;
use ass::asml_parser::Trait;
use ass::document::parse_document;
use ass::document::DocError;

#[test]
fn document_with_style_and_body() {
    let (body, styles) =
        parse_document("<style>d{width= 32}</style><body><d/></body>").unwrap();
    assert_eq!(
        body,
        Element::Tag {
            traits: vec![Trait {
                name: "body".to_string(),
                args: Vec::new(),
            }],
            children: vec![Element::Tag {
                traits: vec![Trait {
                    name: "d".to_string(),
                    args: Vec::new(),
                }],
                children: Vec::new(),
            }],
        }
    );
    assert_eq!(styles.len(), 1);
    assert_eq!(styles[0].name, "d".to_string());
}

// The style block is optional: a document without one carries no rules.
#[test]
fn document_without_style_block() {
    let (body, styles) = parse_document("<body><d/></body>").unwrap();
    assert_eq!(styles, Vec::new());
    assert_eq!(
        body,
        Element::Tag {
            traits: vec![Trait {
                name: "body".to_string(),
                args: Vec::new(),
            }],
            children: vec![Element::Tag {
                traits: vec![Trait {
                    name: "d".to_string(),
                    args: Vec::new(),
                }],
                children: Vec::new(),
            }],
        }
    );
}

#[test]
fn document_with_bad_style() {
    assert_eq!(
        parse_document("<style>d{</style><body><d/></body>"),
        Err(DocError::BadStyle)
    );
}

#[test]
fn document_with_bad_body() {
    assert_eq!(
        parse_document("<style>d{}</style><body><d></e></body>"),
        Err(DocError::BadBody)
    );
}

#[test]
fn document_without_body() {
    assert_eq!(parse_document("hello"), Err(DocError::Syntax));
}

#[test]
fn document_with_leading_comment() {
    let r = parse_document("<# banner #> <style>d{}</style> <body><d/></body>");
    assert!(r.is_ok());
}
