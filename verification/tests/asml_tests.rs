use ass::asml_parser::tag;
use ass::asml_parser::Element;
use ass::asml_parser::ParseError;
use ass::asml_parser::Trait;

fn h1_element() -> Result<Element, ParseError> {
    return Ok(Element::Tag {
        traits: vec![Trait {
            name: "h1".to_string(),
            args: Vec::new(),
        }],
        children: Vec::new(),
    });
}

#[test]
fn test_one_trait() {
    assert_eq!(tag("<h1></h1>"), h1_element());
}

#[test]
fn test_nested_tags() {
    assert_eq!(
        tag("<tag1><tag2></tag2></tag1>"),
        Ok(Element::Tag {
            traits: vec![Trait {
                name: String::from("tag1"),
                args: vec![],
            }],
            children: vec![Element::Tag {
                traits: vec![Trait {
                    name: String::from("tag2"),
                    args: vec![],
                }],
                children: vec![],
            }],
        }),
    );
}

#[test]
fn test_text_in_tags() {
    assert_eq!(
        tag("<h1>god</h1>"),
        Ok(Element::Tag {
            traits: vec![Trait {
                name: "h1".to_string(),
                args: Vec::new(),
            }],
            children: vec![Element::Text("god".to_string())],
        }),
    );
}

#[test]
fn test_varied_children_in_tags() {
    assert_eq!(
        tag("<h1>god<h1></h1></h1>"),
        Ok(Element::Tag {
            traits: vec![Trait {
                name: "h1".to_string(),
                args: Vec::new(),
            }],
            children: vec![Element::Text("god".to_string()), h1_element().unwrap()],
        }),
    );
}

#[test]
fn test_comment() {
    assert_eq!(tag("<h1><# god #></h1>"), h1_element())
}

#[test]
fn test_empty_comment() {
    assert_eq!(
        tag(
            "<# #>
        <h1<##>>
            <##>
        </h1<##>>
        <##>"
        ),
        h1_element()
    )
}

#[test]
fn test_commented_tag() {
    assert_eq!(tag("<h1><# <h1></h1> #></h1>"), h1_element())
}

#[test]
fn test_single_tag() {
    assert_eq!(tag("<h1/>"), h1_element())
}

#[test]
fn test_one_args() {
    assert_eq!(
        tag("<h1(god)/>"),
        Ok(Element::Tag {
            traits: vec![Trait {
                name: "h1".to_string(),
                args: vec!["god".to_string()],
            }],
            children: Vec::new(),
        })
    )
}

#[test]
fn test_multi_args() {
    assert_eq!(
        tag("<h1(god o)/>"),
        Ok(Element::Tag {
            traits: vec![Trait {
                name: "h1".to_string(),
                args: vec!["god".to_string(), "o".to_string()],
            }],
            children: Vec::new(),
        })
    )
}

#[test]
fn test_multi_args_with_comments() {
    assert_eq!(
        tag("<h1(<# #> god <# god #> o <# #>)/>"),
        Ok(Element::Tag {
            traits: vec![Trait {
                name: "h1".to_string(),
                args: vec!["god".to_string(), "o".to_string()],
            }],
            children: Vec::new(),
        })
    )
}

#[test]
fn test_multi_args_with_comments_and_text() {
    assert_eq!(
        tag("<h1(god <# god #> o) <# #>>b3%!<h1(god)>()</h1>^423$%33(4)232</h1>"),
        Ok(Element::Tag {
            traits: vec![Trait {
                name: "h1".to_string(),
                args: vec!["god".to_string(), "o".to_string()],
            }],
            children: vec![
                Element::Text("b3%!".to_string()),
                Element::Tag {
                    traits: vec![Trait {
                        name: "h1".to_string(),
                        args: vec!["god".to_string()],
                    }],
                    children: vec![Element::Text("()".to_string())],
                },
                Element::Text("^423$%33(4)232".to_string())
            ],
        })
    )
}

#[test]
#[should_panic]
fn missing_single_start_tag_fail() {
    assert_eq!(
        tag("<h1(god)>"),
        Ok(Element::Tag {
            traits: vec![Trait {
                name: "h1".to_string(),
                args: vec!["god".to_string()],
            }],
            children: Vec::new(),
        })
    )
}

#[test]
#[should_panic]
fn missing_single_end_tag_fail() {
    assert_eq!(
        tag("</h1(god)>"),
        Ok(Element::Tag {
            traits: vec![Trait {
                name: "h1".to_string(),
                args: vec!["god".to_string()],
            }],
            children: Vec::new(),
        })
    )
}

#[test]
#[should_panic]
fn incorrect_tag_order_fail() {
    assert_eq!(
        tag("<h1(god)><a></h1></a>"),
        Ok(Element::Tag {
            traits: vec![Trait {
                name: "h1".to_string(),
                args: vec!["god".to_string()],
            }],
            children: Vec::new(),
        })
    )
}

// A closing tag whose name differs from the opening trait is rejected.
#[test]
fn closing_mismatch_is_error() {
    assert!(tag("<a></b>").is_err());
    assert!(tag("<h1></h2>").is_err());
    assert!(tag("<div></span>").is_err());
}

// Comments are fully transparent: a comment anywhere white space is
// accepted leaves the parse unchanged.
#[test]
fn comment_transparent_to_parse() {
    assert_eq!(
        tag("<h1><# anything <h1></h1> #></h1>"),
        tag("<h1></h1>")
    );
    assert_eq!(tag("<h1><# anything <h1></h1> #></h1>"), h1_element());
}

// Text leaves are trimmed of surrounding white space.
#[test]
fn text_is_trimmed() {
    assert_eq!(
        tag("<p>  hi there \n</p>"),
        Ok(Element::Tag {
            traits: vec![Trait {
                name: "p".to_string(),
                args: Vec::new(),
            }],
            children: vec![Element::Text("hi there".to_string())],
        })
    );
}

// The whole input must be consumed.
#[test]
fn trailing_garbage_is_error() {
    assert!(tag("<h1></h1><h1></h1>").is_err());
}
