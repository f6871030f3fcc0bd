use ass::asml_parser::ParseError;
use ass::ass_parser::alias;
use ass::ass_parser::stylesheet;
use ass::ass_parser::Alias;
use ass::ass_parser::Arith;
use ass::ass_parser::Entity;
use ass::ass_parser::Relation;
use ass::ass_parser::Style;

fn ok(styles: Vec<Style>) -> Result<Vec<Style>, ParseError> {
    Ok(styles)
}

#[test]
fn basic_style_attr() {
    let expected = ok(vec![Style {
        name: "div".to_string(),
        attrs: vec![(
            "width".to_string(),
            vec![(Relation::EQ, Arith::Num(32))],
        )],
    }]);
    let output = stylesheet("div{width= 32}");
    assert_eq!(output, expected);
}

#[test]
fn ass_parser_basic_style_attr() {
    let expected = ok(vec![Style {
        name: "div".to_string(),
        attrs: vec![(
            "width".to_string(),
            vec![(Relation::EQ, Arith::Num(32))],
        )],
    }]);
    let output = stylesheet("div{width= 32}");
    assert_eq!(output, expected);
}

#[test]
fn empty_style() {
    let expected = ok(vec![Style {
        name: "div".to_string(),
        attrs: Vec::new(),
    }]);
    let output = stylesheet("div{}");
    assert_eq!(output, expected);
}

#[test]
fn two_empty_style() {
    let expected = ok(vec![
        Style {
            name: "div".to_string(),
            attrs: Vec::new(),
        },
        Style {
            name: "div2".to_string(),
            attrs: Vec::new(),
        },
    ]);
    let output = stylesheet("div{}div2{}");
    assert_eq!(output, expected);
}

#[test]
fn entity_attr() {
    let expected = ok(vec![Style {
        name: "div".to_string(),
        attrs: vec![(
            "width".to_string(),
            vec![(
                Relation::EQ,
                Arith::Ref(Entity::Parent, "width".to_string()),
            )],
        )],
    }]);
    let output = stylesheet("div{width=$parent[width]}");
    assert_eq!(output, expected);
}

#[test]
fn ass_parser_entity_attr() {
    let expected = ok(vec![Style {
        name: "div".to_string(),
        attrs: vec![(
            "width".to_string(),
            vec![(
                Relation::EQ,
                Arith::Ref(Entity::Parent, "width".to_string()),
            )],
        )],
    }]);
    let output = stylesheet("div{width=$parent[width]}");
    assert_eq!(output, expected);
}

#[test]
fn multiple_attr() {
    let expected = ok(vec![Style {
        name: "div".to_string(),
        attrs: vec![
            (
                "width".to_string(),
                vec![(
                    Relation::EQ,
                    Arith::Ref(Entity::Parent, "width".to_string()),
                )],
            ),
            (
                "height".to_string(),
                vec![(
                    Relation::GE,
                    Arith::Ref(Entity::Other("hello".to_string()), "world".to_string()),
                )],
            ),
        ],
    }]);

    let output = stylesheet(
        "div{
            width=$parent[width]
            height>=hello[world]
        }",
    );
    assert_eq!(output, expected);
}

#[test]
fn ass_parser_multiple_attr() {
    let expected = ok(vec![Style {
        name: "div".to_string(),
        attrs: vec![
            (
                "width".to_string(),
                vec![(
                    Relation::EQ,
                    Arith::Ref(Entity::Parent, "width".to_string()),
                )],
            ),
            (
                "height".to_string(),
                vec![(
                    Relation::GE,
                    Arith::Ref(Entity::Other("hello".to_string()), "world".to_string()),
                )],
            ),
        ],
    }]);

    let output = stylesheet(
        "div{
            width=$parent[width]
            height>=hello[world]
        }",
    );
    assert_eq!(output, expected);
}

#[test]
fn multiple_style_and_attr() {
    let expected = ok(vec![
        Style {
            name: "div".to_string(),
            attrs: vec![
                (
                    "width".to_string(),
                    vec![(
                        Relation::EQ,
                        Arith::Ref(Entity::Parent, "width".to_string()),
                    )],
                ),
                (
                    "height".to_string(),
                    vec![(
                        Relation::GE,
                        Arith::Ref(Entity::Other("hello".to_string()), "world".to_string()),
                    )],
                ),
            ],
        },
        Style {
            name: "god".to_string(),
            attrs: vec![(
                "strength".to_string(),
                vec![(Relation::LE, Arith::Num(30))],
            )],
        },
    ]);

    let output = stylesheet(
        "div {
                width=$parent[width]
                height>=hello[world]
            } god {
                strength<=30
            }",
    );
    assert_eq!(output, expected);
}

#[test]
fn ass_parser_multiple_style_and_attr() {
    let expected = ok(vec![
        Style {
            name: "div".to_string(),
            attrs: vec![
                (
                    "width".to_string(),
                    vec![(
                        Relation::EQ,
                        Arith::Ref(Entity::Parent, "width".to_string()),
                    )],
                ),
                (
                    "height".to_string(),
                    vec![(
                        Relation::GE,
                        Arith::Ref(Entity::Other("hello".to_string()), "world".to_string()),
                    )],
                ),
            ],
        },
        Style {
            name: "god".to_string(),
            attrs: vec![(
                "strength".to_string(),
                vec![(Relation::LE, Arith::Num(30))],
            )],
        },
    ]);

    let output = stylesheet(
        "div {
                width=$parent[width]
                height>=hello[world]
            } god {
                strength<=30
            }",
    );
    assert_eq!(output, expected);
}

// An empty stylesheet holds no rules.
#[test]
fn empty_stylesheet() {
    assert_eq!(stylesheet(""), ok(vec![]));
}

// A window reference parses like a parent reference.
#[test]
fn window_entity_attr() {
    let expected = ok(vec![Style {
        name: "div".to_string(),
        attrs: vec![(
            "width".to_string(),
            vec![(
                Relation::EQ,
                Arith::Ref(Entity::Window, "width".to_string()),
            )],
        )],
    }]);
    assert_eq!(stylesheet("div{width=$window[width]}"), expected);
}

// A six-digit hex colour folds into the same literal kind as a number.
#[test]
fn hex_literal_attr() {
    let expected = ok(vec![Style {
        name: "div".to_string(),
        attrs: vec![(
            "color".to_string(),
            vec![(Relation::EQ, Arith::Num(0xFF00FF))],
        )],
    }]);
    assert_eq!(stylesheet("div{color= #ff00FF}"), expected);
}

// The largest value that fits parses; one past it is a syntax error.
#[test]
fn number_limits() {
    let expected = ok(vec![Style {
        name: "div".to_string(),
        attrs: vec![(
            "width".to_string(),
            vec![(Relation::EQ, Arith::Num(4294967295))],
        )],
    }]);
    assert_eq!(stylesheet("div{width= 4294967295}"), expected);
    assert!(stylesheet("div{width= 4294967296}").is_err());
}

// A chained arithmetic expression parses, nesting to the right, with
// `+` building an addition and `-` a subtraction.
#[test]
fn chained_arith_attr() {
    let expected = ok(vec![Style {
        name: "n".to_string(),
        attrs: vec![(
            "a".to_string(),
            vec![(
                Relation::EQ,
                Arith::Add(
                    Box::new(Arith::Ref(Entity::Other("p".to_string()), "x".to_string())),
                    Box::new(Arith::Add(
                        Box::new(Arith::Ref(Entity::Other("q".to_string()), "y".to_string())),
                        Box::new(Arith::Ref(Entity::Other("r".to_string()), "z".to_string())),
                    )),
                ),
            )],
        )],
    }]);
    assert_eq!(stylesheet("n{a=p[x]+q[y]+r[z]}"), expected);
}

#[test]
fn chained_mixed_arith_attr() {
    let expected = ok(vec![Style {
        name: "n".to_string(),
        attrs: vec![(
            "a".to_string(),
            vec![(
                Relation::EQ,
                Arith::Sub(
                    Box::new(Arith::Ref(Entity::Other("p".to_string()), "x".to_string())),
                    Box::new(Arith::Add(
                        Box::new(Arith::Ref(Entity::Other("q".to_string()), "y".to_string())),
                        Box::new(Arith::Num(3)),
                    )),
                ),
            )],
        )],
    }]);
    assert_eq!(stylesheet("n{a=p[x]-q[y]+3}"), expected);
}

// Arithmetic combinations parse into expression trees.
#[test]
fn arith_attr() {
    let expected = ok(vec![Style {
        name: "div".to_string(),
        attrs: vec![(
            "width".to_string(),
            vec![(
                Relation::EQ,
                Arith::Add(
                    Box::new(Arith::Ref(Entity::Parent, "width".to_string())),
                    Box::new(Arith::Num(3)),
                ),
            )],
        )],
    }]);
    assert_eq!(stylesheet("div{width=$parent[width]+3}"), expected);
}

// Chained alternative terms under `, else` stay in order.
#[test]
fn else_chained_terms() {
    let expected = ok(vec![Style {
        name: "div".to_string(),
        attrs: vec![(
            "width".to_string(),
            vec![
                (Relation::EQ, Arith::Num(32)),
                (Relation::LE, Arith::Num(64)),
            ],
        )],
    }]);
    assert_eq!(stylesheet("div{width= 32, else <= 64}"), expected);
}

// A repeated attribute name keeps its position and the last value.
#[test]
fn repeated_attr_last_wins() {
    let expected = ok(vec![Style {
        name: "div".to_string(),
        attrs: vec![
            ("width".to_string(), vec![(Relation::EQ, Arith::Num(2))]),
            ("height".to_string(), vec![(Relation::EQ, Arith::Num(9))]),
        ],
    }]);
    assert_eq!(
        stylesheet("div{width= 1 height= 9 width= 2}"),
        expected
    );
}

// Aliases parse but are filtered out of the returned rule sequence.
#[test]
fn aliases_filtered() {
    let expected = ok(vec![Style {
        name: "div".to_string(),
        attrs: Vec::new(),
    }]);
    assert_eq!(stylesheet("a = b\ndiv{}"), expected);
}

#[test]
fn alias_line() {
    assert_eq!(
        alias("a = b c"),
        Ok(Alias {
            from: "a".to_string(),
            to: vec!["b".to_string(), "c".to_string()],
        })
    );
}
