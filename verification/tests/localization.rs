use sol_lang::localization::catalog::{Catalog, Entry};
use sol_lang::localization::extract::{capture, flatten_text, key_for, x_scene_part, x_script};
use sol_lang::localization::replace::{p_dialogue, r_dialogue, r_script, LocalizationError};
use sol_lang::parser::ast::{Expression, Module, ScenePart, Symbol, TextPart};
use sol_lang::parser::p_script;
use sol_lang::unparser::render_script;

const BRANCHING: &str = "scene fork\n  [bob]\n  prompt Which way, {name}?\n    option Left\n      - You go left.\n      * Dust.\n    end\n    option Right {x}\n      - You go right.\n      prompt\n        option Deeper\n          * Dark.\n        end\n      end\n    end\n  end\n  - Done.\nend\nscene other\n  -- nothing to say\n  f(\"not extracted\")\n  * Only this.\nend";

fn text(s: &str) -> TextPart {
    TextPart::Text(s.to_owned())
}

fn symbol(name: &str) -> Expression {
    Expression::Symbol(Symbol { path: vec![name.to_owned()] })
}

fn keys_and_bodies(catalog: &Catalog) -> Vec<(String, Option<String>)> {
    (0..catalog.len())
        .map(|i| (catalog.entry(i).key.clone(), catalog.entry(i).body.clone()))
        .collect()
}

fn identity_catalog(script: &Module) -> Catalog {
    x_script(script).1
}

#[test]
fn catalog_finds_what_was_put() {
    let mut catalog = Catalog::new();
    assert_eq!(catalog.len(), 0);
    assert_eq!(catalog.find_by_key("a"), None);
    catalog.insert_or_update("a".to_owned(), None, Some("1".to_owned()));
    catalog.insert_or_update("b".to_owned(), Some("note".to_owned()), None);
    catalog.insert_or_update("a".to_owned(), None, Some("2".to_owned()));
    assert_eq!(catalog.len(), 2);
    assert_eq!(
        catalog.find_by_key("a"),
        Some(&Entry { key: "a".to_owned(), context: None, body: Some("2".to_owned()) })
    );
    assert_eq!(catalog.entry(0).key, "a");
    assert_eq!(
        catalog.entry(1),
        &Entry { key: "b".to_owned(), context: Some("note".to_owned()), body: None }
    );
    assert_eq!(catalog.find_by_key("c"), None);
}

#[test]
fn keys_are_scene_dot_number() {
    assert_eq!(key_for("main", 0), "main.0");
    assert_eq!(key_for("a_b", 120), "a_b.120");
}

#[test]
fn flattening_numbers_the_expressions_from_one() {
    let parts = vec![
        TextPart::Expression(symbol("a")),
        text(" and "),
        TextPart::Expression(symbol("b")),
        TextPart::Expression(symbol("c")),
        text("."),
    ];
    assert_eq!(flatten_text(&parts), "$1 and $2$3.");
    assert_eq!(capture(&parts), vec![symbol("a"), symbol("b"), symbol("c")]);
    assert_eq!(flatten_text(&vec![]), "");
    let many: Vec<TextPart> = (0..11).map(|_| TextPart::Expression(symbol("e"))).collect();
    assert_eq!(flatten_text(&many), "$1$2$3$4$5$6$7$8$9$10$11");
}

#[test]
fn branching_order() {
    let script = p_script(BRANCHING).unwrap();
    let (template, source) = x_script(&script);
    assert_eq!(
        keys_and_bodies(&source),
        vec![
            ("fork.0".to_owned(), Some("Which way, $1?".to_owned())),
            ("fork.1".to_owned(), Some("Left".to_owned())),
            ("fork.2".to_owned(), Some("You go left.".to_owned())),
            ("fork.3".to_owned(), Some("Dust.".to_owned())),
            ("fork.4".to_owned(), Some("Right $1".to_owned())),
            ("fork.5".to_owned(), Some("You go right.".to_owned())),
            ("fork.6".to_owned(), Some("Deeper".to_owned())),
            ("fork.7".to_owned(), Some("Dark.".to_owned())),
            ("fork.8".to_owned(), Some("Done.".to_owned())),
            ("other.0".to_owned(), Some("Only this.".to_owned())),
        ]
    );
    assert_eq!(template.len(), source.len());
    for i in 0..template.len() {
        assert_eq!(template.entry(i).key, source.entry(i).key);
        assert_eq!(template.entry(i).body, None);
        assert_eq!(source.entry(i).context, None);
    }
    assert_eq!(
        template.entry(9).context,
        Some("Translation file for other.".to_owned())
    );
}

#[test]
fn walk_of_one_item() {
    let script = p_script(BRANCHING).unwrap();
    let mut strings = vec!["before".to_owned()];
    x_scene_part(&mut strings, &script.scenes[0].content[0]);
    assert_eq!(strings, vec!["before"]);
    x_scene_part(&mut strings, &script.scenes[0].content[2]);
    assert_eq!(strings, vec!["before", "Done."]);
}

#[test]
fn extraction_is_determined() {
    let script = p_script(BRANCHING).unwrap();
    let first = x_script(&script);
    let second = x_script(&script.clone());
    assert_eq!(first, second);
}

#[test]
fn identity_translation_gives_the_script() {
    let script = p_script(BRANCHING).unwrap();
    let translated = r_script(&script, &identity_catalog(&script)).unwrap();
    assert_eq!(translated, script);
    assert_eq!(render_script(&translated), render_script(&script));
}

#[test]
fn identity_translation_has_its_limits() {
    let script = p_script("scene s\n  - costs $5 {x}7\nend").unwrap();
    assert_eq!(
        r_script(&script, &identity_catalog(&script)),
        Err(LocalizationError::PlaceholderIndexOutOfRange {
            unit: "s.0".to_owned(),
            index: 5,
            max: 1
        })
    );
    let empty = p_script("scene s\n  * \nend").unwrap();
    assert_eq!(
        r_script(&empty, &identity_catalog(&empty)),
        Err(LocalizationError::PlaceholderParseError { unit: "s.0".to_owned(), text: "".to_owned() })
    );
}

#[test]
fn translation_keeps_all_but_the_texts() {
    let script = p_script(&format!("title = \"x\"\n{}", BRANCHING)).unwrap();
    let mut catalog = Catalog::new();
    let source = identity_catalog(&script);
    for i in 0..source.len() {
        let entry = source.entry(i);
        let body = entry.body.clone().unwrap().to_uppercase();
        catalog.insert_or_update(entry.key.clone(), None, Some(body));
    }
    let translated = r_script(&script, &catalog).unwrap();
    assert_eq!(translated.fields, script.fields);
    assert_eq!(
        render_script(&translated),
        render_script(&p_script(&format!("title = \"x\"\n{}", BRANCHING.replace("Which way, ", "WHICH WAY, ").replace("Left", "LEFT").replace("You go left.", "YOU GO LEFT.").replace("Dust.", "DUST.").replace("Right ", "RIGHT ").replace("You go right.", "YOU GO RIGHT.").replace("Deeper", "DEEPER").replace("Dark.", "DARK.").replace("Done.", "DONE.").replace("Only this.", "ONLY THIS."))).unwrap())
    );
    assert_eq!(r_script(&script, &source).unwrap(), script);
}

#[test]
fn placeholders_may_move_repeat_and_go() {
    let expressions = vec![symbol("a"), symbol("b")];
    assert_eq!(
        p_dialogue("$2 then $1, $1 again", &expressions, "u"),
        Ok(vec![
            TextPart::Expression(symbol("b")),
            text(" then "),
            TextPart::Expression(symbol("a")),
            text(", "),
            TextPart::Expression(symbol("a")),
            text(" again"),
        ])
    );
    assert_eq!(p_dialogue("none", &expressions, "u"), Ok(vec![text("none")]));
    assert_eq!(
        p_dialogue("$ 5 and $$1$", &expressions, "u"),
        Ok(vec![text("$ 5 and $"), TextPart::Expression(symbol("a")), text("$")])
    );
}

#[test]
fn placeholder_bound_check() {
    let expressions = vec![symbol("a"), symbol("b")];
    assert_eq!(
        p_dialogue("x $3", &expressions, "u"),
        Err(LocalizationError::PlaceholderIndexOutOfRange { unit: "u".to_owned(), index: 3, max: 2 })
    );
    assert_eq!(
        p_dialogue("$0", &expressions, "u"),
        Err(LocalizationError::PlaceholderIndexOutOfRange { unit: "u".to_owned(), index: 0, max: 2 })
    );
    assert_eq!(
        p_dialogue("$1 $007 $9", &expressions, "u"),
        Err(LocalizationError::PlaceholderIndexOutOfRange { unit: "u".to_owned(), index: 7, max: 2 })
    );
    assert_eq!(
        p_dialogue("$99999999999999999999999999999999", &expressions, "u"),
        Err(LocalizationError::PlaceholderIndexOutOfRange {
            unit: "u".to_owned(),
            index: usize::MAX,
            max: 2
        })
    );
    assert_eq!(
        p_dialogue("$1", &vec![], "u"),
        Err(LocalizationError::PlaceholderIndexOutOfRange { unit: "u".to_owned(), index: 1, max: 0 })
    );
    assert_eq!(p_dialogue("$002", &expressions, "u"), Ok(vec![TextPart::Expression(symbol("b"))]));
}

#[test]
fn reinjection_errors() {
    let script = p_script("scene s\n  - Hi {x}\n  * Bye\nend").unwrap();
    let mut catalog = Catalog::new();
    assert_eq!(
        r_script(&script, &catalog),
        Err(LocalizationError::MissingTranslationKey { key: "s.0".to_owned() })
    );
    catalog.insert_or_update("s.0".to_owned(), None, Some("Salut $1".to_owned()));
    assert_eq!(
        r_script(&script, &catalog),
        Err(LocalizationError::MissingTranslationKey { key: "s.1".to_owned() })
    );
    catalog.insert_or_update("s.1".to_owned(), Some("note".to_owned()), None);
    assert_eq!(
        r_script(&script, &catalog),
        Err(LocalizationError::MissingMessageBody { key: "s.1".to_owned() })
    );
    catalog.insert_or_update("s.1".to_owned(), None, Some("".to_owned()));
    assert_eq!(
        r_script(&script, &catalog),
        Err(LocalizationError::PlaceholderParseError { unit: "s.1".to_owned(), text: "".to_owned() })
    );
    catalog.insert_or_update("s.1".to_owned(), None, Some("$1".to_owned()));
    assert_eq!(
        r_script(&script, &catalog),
        Err(LocalizationError::PlaceholderIndexOutOfRange { unit: "s.1".to_owned(), index: 1, max: 0 })
    );
    catalog.insert_or_update("s.0".to_owned(), None, Some("$2".to_owned()));
    assert_eq!(
        r_script(&script, &catalog),
        Err(LocalizationError::PlaceholderIndexOutOfRange { unit: "s.0".to_owned(), index: 2, max: 1 })
    );
}

#[test]
fn one_text_from_the_catalog() {
    let parts = vec![text("Hi "), TextPart::Expression(symbol("x"))];
    let mut catalog = Catalog::new();
    catalog.insert_or_update("k".to_owned(), None, Some("$1, salut".to_owned()));
    assert_eq!(
        r_dialogue(&parts, &catalog, "k"),
        Ok(vec![TextPart::Expression(symbol("x")), text(", salut")])
    );
    assert_eq!(
        r_dialogue(&parts, &catalog, "other"),
        Err(LocalizationError::MissingTranslationKey { key: "other".to_owned() })
    );
}

#[test]
fn reinjection_leaves_the_script_as_it_is() {
    let script = p_script("scene s\n  - Hi\nend").unwrap();
    let before = script.clone();
    let mut catalog = Catalog::new();
    catalog.insert_or_update("s.0".to_owned(), None, Some("Salut".to_owned()));
    let translated = r_script(&script, &catalog).unwrap();
    assert_eq!(script, before);
    assert_eq!(
        translated.scenes[0].content,
        vec![ScenePart::Dialogue(sol_lang::parser::ast::Dialogue { parts: vec![text("Salut")] })]
    );
}
