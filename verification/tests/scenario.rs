use sol_lang::localization::catalog::Catalog;
use sol_lang::localization::extract::x_script;
use sol_lang::localization::replace::r_script;
use sol_lang::parser::ast::{
    Dialogue, Expression, Module, Scene, ScenePart, Symbol, TextPart,
};
use sol_lang::parser::p_script;
use sol_lang::unparser::render_script;

fn hello() -> Module {
    Module {
        scenes: vec![Scene {
            name: "main".to_owned(),
            content: vec![ScenePart::Dialogue(Dialogue {
                parts: vec![
                    TextPart::Text("Hello, ".to_owned()),
                    TextPart::Expression(Expression::Symbol(Symbol {
                        path: vec!["name".to_owned()],
                    })),
                    TextPart::Text("!".to_owned()),
                ],
            })],
        }],
        fields: Vec::new(),
    }
}

#[test]
fn end_to_end_parse() {
    assert_eq!(p_script("scene main\n  - Hello, {name}!\nend\n"), Ok(hello()));
}

#[test]
fn end_to_end_extract() {
    let (template, source) = x_script(&hello());
    assert_eq!(template.len(), 1);
    assert_eq!(template.entry(0).key, "main.0");
    assert_eq!(template.entry(0).body, None);
    assert_eq!(
        template.entry(0).context,
        Some("Translation file for main.".to_owned())
    );
    assert_eq!(source.len(), 1);
    assert_eq!(source.entry(0).key, "main.0");
    assert_eq!(source.entry(0).body, Some("Hello, $1!".to_owned()));
}

#[test]
fn end_to_end_reinject_and_print() {
    let mut catalog = Catalog::new();
    catalog.insert_or_update("main.0".to_owned(), None, Some("¡Hola, $1!".to_owned()));
    let translated = r_script(&hello(), &catalog).unwrap();
    assert_eq!(
        translated.scenes[0].content,
        vec![ScenePart::Dialogue(Dialogue {
            parts: vec![
                TextPart::Text("¡Hola, ".to_owned()),
                TextPart::Expression(Expression::Symbol(Symbol {
                    path: vec!["name".to_owned()],
                })),
                TextPart::Text("!".to_owned()),
            ],
        })]
    );
    assert_eq!(
        render_script(&translated),
        "scene main\n  - ¡Hola, {name}!\nend"
    );
}
