use sol_lang::parser::ast::{
    Dialogue, Expression, Field, Module, Narration, Prompt, PromptOption, Scene, ScenePart,
    SpeakerChangeMarker, Symbol, TextPart,
};
use sol_lang::parser::error::{Expected, SyntaxError};
use sol_lang::parser::expression::{p_expression, p_float, p_identifier, p_integer_decimal, p_symbol};
use sol_lang::parser::scene::{
    p_comment, p_dialogue, p_narration, p_prompt, p_prompt_option, p_scene_part,
    p_speaker_change_marker,
};
use sol_lang::parser::{p_field, p_let_scene, p_script};

fn expression(source: &str) -> Result<(Expression, usize), SyntaxError> {
    let chars: Vec<char> = source.chars().collect();
    p_expression(&chars, 0)
}

fn text(s: &str) -> TextPart {
    TextPart::Text(s.to_owned())
}

fn symbol(path: &[&str]) -> Expression {
    Expression::Symbol(Symbol {
        path: path.iter().map(|s| s.to_string()).collect(),
    })
}

fn error_of(source: &str) -> SyntaxError {
    p_script(source).unwrap_err()
}

#[test]
fn parse_empty() {
    assert_eq!(
        p_script(""),
        Ok(Module {
            scenes: Vec::new(),
            fields: Vec::new()
        })
    );
}

#[test]
fn ongoing() {
    let input = r#"-- Example scene

scene main
  - Hello, {player_name}!
end"#;
    let result = p_script(input);

    match result {
        Ok(script) => {
            println!("{:?}", script);
        }
        Err(error) => println!("{:?}", error),
    }
    return;
}

#[test]
fn ongoing_result() {
    let input = "-- Example scene\n\nscene main\n  - Hello, {player_name}!\nend";
    assert_eq!(
        p_script(input),
        Ok(Module {
            scenes: vec![Scene {
                name: "main".to_string(),
                content: vec![ScenePart::Dialogue(Dialogue {
                    parts: vec![text("Hello, "), TextPart::Expression(symbol(&["player_name"])), text("!")]
                })]
            }],
            fields: Vec::new()
        })
    );
}

#[test]
fn empty() {
    assert_eq!(
        p_script(""),
        Ok(Module {
            scenes: Vec::new(),
            fields: Vec::new()
        })
    )
}

#[test]
fn simple_scene() {
    let script = p_script("\n-- Simple scene\n\nscene main\n    - Hello, there!\nend\n");

    assert_eq!(
        script,
        Ok(Module {
            fields: Vec::new(),
            scenes: vec![Scene {
                name: "main".to_owned(),
                content: vec![ScenePart::Dialogue(Dialogue {
                    parts: vec![TextPart::Text("Hello, there!".to_owned())]
                })]
            }]
        })
    );
}

#[test]
fn integer_literal() {
    assert_eq!(expression("10"), Ok((Expression::Int(10), 2)));
}

#[test]
fn integer_literal_with_separators() {
    assert_eq!(expression("1_000"), Ok((Expression::Int(1000), 5)));
    assert_eq!(expression("1__0_"), Ok((Expression::Int(10), 5)));
}

#[test]
fn integer_literal_limits() {
    assert_eq!(expression("2147483647"), Ok((Expression::Int(i32::MAX), 10)));
    assert_eq!(
        expression("2147483648"),
        Err(SyntaxError { offset: 0, expected: Expected::IntegerInRange })
    );
    assert_eq!(
        expression("99999999999999999999999999"),
        Err(SyntaxError { offset: 0, expected: Expected::IntegerInRange })
    );
}

#[test]
fn float_literal() {
    match expression("10.5") {
        Ok((Expression::Float(literal), 4)) => {
            assert_eq!(literal, "10.5");
            assert_eq!(literal.parse::<f32>().unwrap(), 10.5);
        }
        other => panic!("{:?}", other),
    }
}

#[test]
fn float_literal_forms() {
    assert_eq!(expression(".42"), Ok((Expression::Float(".42".to_owned()), 3)));
    assert_eq!(expression(".4e2"), Ok((Expression::Float(".4e2".to_owned()), 4)));
    assert_eq!(expression("42."), Ok((Expression::Float("42.".to_owned()), 3)));
    assert_eq!(expression("42e-7"), Ok((Expression::Float("42e-7".to_owned()), 5)));
    assert_eq!(expression("4_2.4_2E+1_0"), Ok((Expression::Float("42.42E+10".to_owned()), 12)));
    assert_eq!(expression("42.e5"), Ok((Expression::Float("42.".to_owned()), 3)));
    assert_eq!(expression("42e"), Ok((Expression::Int(42), 2)));
}

#[test]
fn number_with_unit() {
    assert_eq!(
        expression("10 gold"),
        Ok((Expression::Unit(Box::new(Expression::Int(10)), "gold".to_owned()), 7))
    );
    assert_eq!(
        expression("1.5 \t kg"),
        Ok((Expression::Unit(Box::new(Expression::Float("1.5".to_owned())), "kg".to_owned()), 8))
    );
    assert_eq!(expression("10 end"), Ok((Expression::Int(10), 2)));
    assert_eq!(expression("10gold"), Ok((Expression::Int(10), 2)));
}

#[test]
fn truth_literals() {
    for word in ["true", "yes", "on"] {
        assert_eq!(expression(word), Ok((Expression::Boolean(true), word.len())));
    }
    for word in ["false", "no", "off"] {
        assert_eq!(expression(word), Ok((Expression::Boolean(false), word.len())));
    }
    assert_eq!(expression("onward"), Ok((symbol(&["onward"]), 6)));
}

#[test]
fn symbols() {
    assert_eq!(expression("name"), Ok((symbol(&["name"]), 4)));
    assert_eq!(expression("a.b_2._c"), Ok((symbol(&["a", "b_2", "_c"]), 8)));
    assert_eq!(expression("a.end"), Ok((symbol(&["a"]), 1)));
    assert_eq!(expression("a."), Ok((symbol(&["a"]), 1)));
}

#[test]
fn calls() {
    assert_eq!(
        expression("f()"),
        Ok((Expression::Call { name: "f".to_owned(), args: vec![] }, 3))
    );
    assert_eq!(
        expression("give( 10 gold ,\n  to.player )"),
        Ok((
            Expression::Call {
                name: "give".to_owned(),
                args: vec![
                    Expression::Unit(Box::new(Expression::Int(10)), "gold".to_owned()),
                    symbol(&["to", "player"]),
                ]
            },
            29
        ))
    );
    assert_eq!(
        expression("f(g(1), \"x\")"),
        Ok((
            Expression::Call {
                name: "f".to_owned(),
                args: vec![
                    Expression::Call { name: "g".to_owned(), args: vec![Expression::Int(1)] },
                    Expression::Text(vec![text("x")]),
                ]
            },
            12
        ))
    );
    assert_eq!(
        expression("f(1,)"),
        Err(SyntaxError { offset: 4, expected: Expected::Expression })
    );
    assert_eq!(
        expression("f(1 2)"),
        Err(SyntaxError { offset: 4, expected: Expected::ClosingParen })
    );
}

#[test]
fn string_literals() {
    assert_eq!(
        expression("\"Hi, {name}!\""),
        Ok((
            Expression::Text(vec![text("Hi, "), TextPart::Expression(symbol(&["name"])), text("!")]),
            13
        ))
    );
    assert_eq!(
        expression("\"\""),
        Err(SyntaxError { offset: 1, expected: Expected::Text })
    );
    assert_eq!(
        expression("\"abc"),
        Err(SyntaxError { offset: 4, expected: Expected::ClosingQuote })
    );
    assert_eq!(
        expression("\"a{ 1 \""),
        Err(SyntaxError { offset: 6, expected: Expected::ClosingBrace })
    );
}

#[test]
fn no_expression() {
    assert_eq!(expression(""), Err(SyntaxError { offset: 0, expected: Expected::Expression }));
    assert_eq!(expression("-1"), Err(SyntaxError { offset: 0, expected: Expected::Expression }));
    assert_eq!(expression("scene"), Err(SyntaxError { offset: 0, expected: Expected::Expression }));
}

#[test]
fn fields_and_separators() {
    let script = p_script("a = 1; b = \"x\" ;\n\n c=2.5 gold\na = yes;").unwrap();
    assert!(script.scenes.is_empty());
    assert_eq!(
        script.fields,
        vec![
            Field { name: "b".to_owned(), value: Expression::Text(vec![text("x")]) },
            Field {
                name: "c".to_owned(),
                value: Expression::Unit(
                    Box::new(Expression::Float("2.5".to_owned())),
                    "gold".to_owned()
                )
            },
            Field { name: "a".to_owned(), value: Expression::Boolean(true) },
        ]
    );
    assert_eq!(script.field("a"), Some(&Expression::Boolean(true)));
    assert_eq!(script.field("z"), None);
}

#[test]
fn field_alone() {
    assert_eq!(
        p_field("speed = 10 rest"),
        Ok((
            "",
            (
                "speed".to_owned(),
                Expression::Unit(Box::new(Expression::Int(10)), "rest".to_owned())
            )
        ))
    );
    assert_eq!(
        p_field("x=1\ny=2"),
        Ok(("\ny=2", ("x".to_owned(), Expression::Int(1))))
    );
    assert_eq!(p_field("x 1"), Err(SyntaxError { offset: 2, expected: Expected::Equals }));
    assert_eq!(p_field("= 1"), Err(SyntaxError { offset: 0, expected: Expected::Identifier }));
}

#[test]
fn scene_alone() {
    assert_eq!(
        p_let_scene("scene a end rest"),
        Ok((" rest", Scene { name: "a".to_owned(), content: vec![] }))
    );
    assert_eq!(
        p_let_scene("scenery"),
        Err(SyntaxError { offset: 0, expected: Expected::Scene })
    );
    assert_eq!(
        p_let_scene("scene\nx end"),
        Err(SyntaxError { offset: 5, expected: Expected::Space })
    );
    assert_eq!(
        p_let_scene("scene end"),
        Err(SyntaxError { offset: 6, expected: Expected::Identifier })
    );
}

#[test]
fn scene_items() {
    let source = "scene intro\n  -- note\n  [bob happy  loud ]\n  [&]\n  - Hi {x}\n  * \n  * The end.\n  give(1)\n  --[ block\n comment ]--\nend";
    assert_eq!(
        p_script(source),
        Ok(Module {
            scenes: vec![Scene {
                name: "intro".to_owned(),
                content: vec![
                    ScenePart::Comment(" note".to_owned()),
                    ScenePart::SpeakerChangeMarker(SpeakerChangeMarker {
                        speaker_id: "bob".to_owned(),
                        modifiers: vec!["happy".to_owned(), "loud".to_owned()],
                    }),
                    ScenePart::SpeakerChangeMarker(SpeakerChangeMarker {
                        speaker_id: "&".to_owned(),
                        modifiers: vec![],
                    }),
                    ScenePart::Dialogue(Dialogue {
                        parts: vec![text("Hi "), TextPart::Expression(symbol(&["x"]))]
                    }),
                    ScenePart::Narration(Narration { parts: vec![] }),
                    ScenePart::Narration(Narration { parts: vec![text("The end.")] }),
                    ScenePart::Expression(Expression::Call {
                        name: "give".to_owned(),
                        args: vec![Expression::Int(1)]
                    }),
                    ScenePart::Comment(" block\n comment ".to_owned()),
                ],
            }],
            fields: vec![],
        })
    );
}

#[test]
fn prompts_nest() {
    let source = "scene s\n  prompt  Where to?\n    option Left\n      - You went left.\n      prompt\n        option Back\n        end\n      end\n    end\n    option {x} or not\n    end\n  end\nend\n";
    assert_eq!(
        p_script(source),
        Ok(Module {
            scenes: vec![Scene {
                name: "s".to_owned(),
                content: vec![ScenePart::Prompt(Prompt {
                    text: Some(vec![text("Where to?")]),
                    options: vec![
                        PromptOption {
                            text: vec![text("Left")],
                            content: vec![
                                ScenePart::Dialogue(Dialogue {
                                    parts: vec![text("You went left.")]
                                }),
                                ScenePart::Prompt(Prompt {
                                    text: None,
                                    options: vec![PromptOption {
                                        text: vec![text("Back")],
                                        content: vec![],
                                    }],
                                }),
                            ],
                        },
                        PromptOption {
                            text: vec![TextPart::Expression(symbol(&["x"])), text(" or not")],
                            content: vec![],
                        },
                    ],
                })],
            }],
            fields: vec![],
        })
    );
}

#[test]
fn syntax_errors() {
    assert_eq!(error_of("?"), SyntaxError { offset: 0, expected: Expected::Item });
    assert_eq!(error_of("a = 1 b = 2"), SyntaxError { offset: 8, expected: Expected::Separator });
    assert_eq!(error_of("; a = 1"), SyntaxError { offset: 0, expected: Expected::Item });
    assert_eq!(error_of("end"), SyntaxError { offset: 0, expected: Expected::Identifier });
    assert_eq!(error_of("--[ never closed"), SyntaxError { offset: 16, expected: Expected::BlockCommentEnd });
    assert_eq!(error_of("scene s\n  - x"), SyntaxError { offset: 13, expected: Expected::End });
    assert_eq!(error_of("scene s\n"), SyntaxError { offset: 8, expected: Expected::End });
    assert_eq!(error_of("scene s\n  - \nend"), SyntaxError { offset: 12, expected: Expected::Text });
    assert_eq!(error_of("scene s\n  - a}\nend"), SyntaxError { offset: 13, expected: Expected::Separator });
    assert_eq!(error_of("scene s\n  []\nend"), SyntaxError { offset: 11, expected: Expected::Speaker });
    assert_eq!(error_of("scene s\n  [a,b]\nend"), SyntaxError { offset: 12, expected: Expected::ClosingBracket });
    assert_eq!(error_of("scene s\n  [a b\nend"), SyntaxError { offset: 14, expected: Expected::ClosingBracket });
    assert_eq!(error_of("scene s\n  prompt\n  - x\n  end\nend"), SyntaxError { offset: 19, expected: Expected::OptionOrEnd });
    assert_eq!(error_of("scene s\n  prompt\n  option\n  end\nend"), SyntaxError { offset: 25, expected: Expected::Space });
    assert_eq!(error_of("scene s\n  prompt\n  option \n  end\n  end\nend"), SyntaxError { offset: 26, expected: Expected::Text });
    assert_eq!(error_of("scene s\n  [a] [b]\nend"), SyntaxError { offset: 14, expected: Expected::Separator });
    assert_eq!(error_of("scene s\n  %\nend"), SyntaxError { offset: 10, expected: Expected::Expression });
}

#[test]
fn error_phrases() {
    assert_eq!(Expected::Separator.describe(), "`;` or a line break");
    assert_eq!(Expected::End.describe(), "`end`");
    assert_eq!(Expected::IntegerInRange.describe(), "an integer that fits in 32 bits");
}

#[test]
fn offsets_count_characters() {
    assert_eq!(error_of("-- é\n?"), SyntaxError { offset: 5, expected: Expected::Item });
}

#[test]
fn scripts_compare_by_value() {
    let one = p_script("a = 1; b = 2\nscene s end").unwrap();
    let two = p_script("b = 2\na = 0\n\na = 1\nscene s\nend").unwrap();
    let three = p_script("a = 1; b = 3\nscene s end").unwrap();
    assert!(one.same_as(&two));
    assert!(one == two);
    assert!(!one.same_as(&three));
    assert!(one != three);
}

fn chars(source: &str) -> Vec<char> {
    source.chars().collect()
}

#[test]
fn tokens() {
    assert_eq!(p_identifier(&chars("ab_1 c"), 0), Ok(("ab_1".to_owned(), 4)));
    assert_eq!(p_identifier(&chars("a b"), 2), Ok(("b".to_owned(), 3)));
    assert_eq!(
        p_identifier(&chars("option"), 0),
        Err(SyntaxError { offset: 0, expected: Expected::Identifier })
    );
    assert_eq!(p_identifier(&chars("options"), 0), Ok(("options".to_owned(), 7)));
    assert_eq!(
        p_identifier(&chars("1a"), 0),
        Err(SyntaxError { offset: 0, expected: Expected::Identifier })
    );
    assert_eq!(p_integer_decimal(&chars("0_7x"), 0), Ok((7, 3)));
    assert_eq!(
        p_integer_decimal(&chars("_7"), 0),
        Err(SyntaxError { offset: 0, expected: Expected::Digit })
    );
    assert_eq!(p_float(&chars("1_0.5_e1_"), 0), Ok(("10.5e1".to_owned(), 9)));
    assert_eq!(
        p_float(&chars("10"), 0),
        Err(SyntaxError { offset: 0, expected: Expected::Digit })
    );
    assert_eq!(
        p_symbol(&chars("a.b.c"), 0),
        Ok((Symbol { path: vec!["a".to_owned(), "b".to_owned(), "c".to_owned()] }, 5))
    );
    assert_eq!(
        p_symbol(&chars(".a"), 0),
        Err(SyntaxError { offset: 0, expected: Expected::Identifier })
    );
}

#[test]
fn items_alone() {
    assert_eq!(p_comment(&chars("--x\ny"), 0), Ok(("x".to_owned(), 3)));
    assert_eq!(p_comment(&chars("--[x]--y"), 0), Ok(("x".to_owned(), 7)));
    assert_eq!(p_comment(&chars("--"), 0), Ok(("".to_owned(), 2)));
    assert_eq!(
        p_comment(&chars("-x"), 0),
        Err(SyntaxError { offset: 0, expected: Expected::Comment })
    );
    assert_eq!(
        p_speaker_change_marker(&chars("[ a  b ]"), 0),
        Ok((
            SpeakerChangeMarker { speaker_id: "a".to_owned(), modifiers: vec!["b".to_owned()] },
            8
        ))
    );
    assert_eq!(
        p_speaker_change_marker(&chars("a"), 0),
        Err(SyntaxError { offset: 0, expected: Expected::Marker })
    );
    assert_eq!(
        p_scene_part(&chars("x * y"), 2),
        Ok((ScenePart::Narration(Narration { parts: vec![text("y")] }), 5))
    );
}

#[test]
fn items_that_do_not_start() {
    assert_eq!(
        p_dialogue(&chars("-x"), 0),
        Err(SyntaxError { offset: 0, expected: Expected::Dialogue })
    );
    assert_eq!(
        p_narration(&chars("- x"), 0),
        Err(SyntaxError { offset: 0, expected: Expected::Narration })
    );
    assert_eq!(
        p_prompt(&chars("prompts\nend"), 0),
        Err(SyntaxError { offset: 0, expected: Expected::Prompt })
    );
    assert_eq!(
        p_prompt_option(&chars("end"), 0),
        Err(SyntaxError { offset: 0, expected: Expected::PromptOption })
    );
    assert_eq!(
        p_prompt(&chars("prompt\nend"), 0),
        Ok((Prompt { text: None, options: vec![] }, 10))
    );
    assert_eq!(
        p_prompt_option(&chars("option a\nend"), 0),
        Ok((PromptOption { text: vec![text("a")], content: vec![] }, 12))
    );
    assert_eq!(
        p_dialogue(&chars("- a {b}"), 0),
        Ok((Dialogue { parts: vec![text("a "), TextPart::Expression(symbol(&["b"]))] }, 7))
    );
}

#[test]
fn line_terminators_of_both_kinds() {
    let script = p_script("a = 1\r\nscene s\r\n  - Hi\r\n  * there\rend\r\n").unwrap();
    assert_eq!(
        script.scenes[0].content,
        vec![
            ScenePart::Dialogue(Dialogue { parts: vec![text("Hi")] }),
            ScenePart::Narration(Narration { parts: vec![text("there")] }),
        ]
    );
    assert_eq!(script.field("a"), Some(&Expression::Int(1)));
}

#[test]
fn braces_take_white_space() {
    assert_eq!(
        p_script("scene s\n  - a{ \n x\t}b\nend").unwrap().scenes[0].content,
        vec![ScenePart::Dialogue(Dialogue {
            parts: vec![text("a"), TextPart::Expression(symbol(&["x"])), text("b")]
        })]
    );
}
