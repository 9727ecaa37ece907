use sol_lang::parser::ast::{Expression, Module};
use sol_lang::parser::p_script;
use sol_lang::unparser::doc::{render, Doc};
use sol_lang::unparser::{format_script, print_expression, print_script, render_script};

fn text(s: &str) -> Doc {
    Doc::Text(s.to_owned())
}

fn sample() -> Doc {
    Doc::Concat(vec![
        text("f("),
        Doc::Group(Box::new(Doc::Nest(
            2,
            Box::new(Doc::Concat(vec![text("aaa,"), Doc::Line, text("bbb,"), Doc::Line, text("ccc")])),
        ))),
        text(")"),
    ])
}

fn round_trip(source: &str) -> (Module, String) {
    let script = p_script(source).unwrap();
    let printed = render_script(&script);
    let again = p_script(&printed).unwrap();
    assert!(again.same_as(&script), "{}", printed);
    assert_eq!(render_script(&again), printed);
    (script, printed)
}

#[test]
fn group_that_fits_is_flat() {
    assert_eq!(render(&sample(), 80), "f(aaa, bbb, ccc)");
    assert_eq!(render(&sample(), 15), "f(aaa, bbb, ccc)");
}

#[test]
fn group_that_does_not_fit_breaks_every_line() {
    assert_eq!(render(&sample(), 14), "f(aaa,\n  bbb,\n  ccc)");
    assert_eq!(render(&sample(), 0), "f(aaa,\n  bbb,\n  ccc)");
}

#[test]
fn fitting_counts_from_the_column() {
    let doc = Doc::Concat(vec![text("1234567890"), sample()]);
    assert_eq!(render(&doc, 25), "1234567890f(aaa, bbb, ccc)");
    assert_eq!(render(&doc, 24), "1234567890f(aaa,\n  bbb,\n  ccc)");
}

#[test]
fn inner_group_is_judged_for_itself() {
    let inner = Doc::Group(Box::new(Doc::Concat(vec![text("x"), Doc::Line, text("y")])));
    let outer = Doc::Group(Box::new(Doc::Concat(vec![
        text("aaaaaaaa"),
        Doc::Line,
        inner,
        Doc::Line,
        text("bbbbbbbb"),
    ])));
    assert_eq!(render(&outer, 10), "aaaaaaaa\nx y\nbbbbbbbb");
    assert_eq!(render(&outer, 80), "aaaaaaaa x y bbbbbbbb");
}

#[test]
fn hard_line_breaks_in_any_mode() {
    let doc = Doc::Group(Box::new(Doc::Nest(
        3,
        Box::new(Doc::Concat(vec![text("a"), Doc::HardLine, text("b"), Doc::Line, text("c")])),
    )));
    assert_eq!(render(&doc, 80), "a\n   b\n   c");
    assert_eq!(render(&Doc::Nil, 80), "");
}

#[test]
fn nesting_saturates() {
    let doc = Doc::Nest(usize::MAX, Box::new(Doc::Nest(1, Box::new(text("a")))));
    assert_eq!(render(&doc, 80), "a");
}

#[test]
fn expressions_print() {
    let cases = [
        "f(1, 2.5 kg, \"a{b}c\", g(), x.y, yes)",
        "10 gold",
        "1000",
        "off",
    ];
    for case in cases {
        let chars: Vec<char> = case.chars().collect();
        let (e, _) = sol_lang::parser::expression::p_expression(&chars, 0).unwrap();
        let expected = if case == "yes" { "true" } else { case };
        assert_eq!(render(&print_expression(&e), 80), expected.replace("yes", "true").replace("off", "false"));
    }
    assert_eq!(render(&print_expression(&Expression::Int(-12)), 80), "-12");
    assert_eq!(render(&print_expression(&Expression::Int(i32::MIN)), 80), "-2147483648");
    assert_eq!(render(&print_expression(&Expression::Int(0)), 80), "0");
}

#[test]
fn scene_prints_as_block() {
    let (_, printed) = round_trip("scene a\n[bob  sad]\n   - Hi\n* \n-- c\nend\nscene b end");
    assert_eq!(
        printed,
        "scene a\n  [bob sad]\n  - Hi\n  * \n  -- c\nend\n\nscene b\n  \nend"
    );
}

#[test]
fn prompt_prints_as_nested_block() {
    let (_, printed) = round_trip(
        "scene s\nprompt What?\noption A\n- a\nprompt\noption B {x}\nend\nend\nend\noption C\nend\nend\nend",
    );
    assert_eq!(
        printed,
        "scene s\n  prompt What?\n    option A\n      - a\n      prompt\n        option B {x}\n        end\n      end\n    end\n    option C\n    end\n  end\nend"
    );
}

#[test]
fn fields_print_before_scenes() {
    let (_, printed) = round_trip("scene s end\nb = 2\na = f(1)\n");
    assert_eq!(printed, "b = 2\na = f(1)\n\nscene s\n  \nend");
    let (_, printed) = round_trip("a = 1");
    assert_eq!(printed, "a = 1");
    let (_, printed) = round_trip("");
    assert_eq!(printed, "");
}

#[test]
fn long_calls_break_and_parse_back() {
    let source = "scene s\n  - {announce(\"a rather long piece of text\", \"another rather long piece of text\", 12345678 gold)}!\n  give(aaaaaaaaaaaaaaaaaaaaaaaaa, bbbbbbbbbbbbbbbbbbbbbbbbbbbbbb, cccccccccccccccccccccccccc, d(1, 2))\nend";
    let (_, printed) = round_trip(source);
    assert_eq!(
        printed,
        "scene s\n  - {announce(\"a rather long piece of text\",\n  \"another rather long piece of text\",\n  12345678 gold)}!\n  give(aaaaaaaaaaaaaaaaaaaaaaaaa,\n  bbbbbbbbbbbbbbbbbbbbbbbbbbbbbb,\n  cccccccccccccccccccccccccc,\n  d(1, 2))\nend"
    );
}

#[test]
fn round_trips() {
    round_trip("-- top\nscene main\n  - Hello, {name}!\nend");
    round_trip("scene a\n  - text with  spaces  \n  * {1}{2.}{.5e1}{x}\n  \"lit {\"nested {deep.path}\"}\"\nend");
    round_trip("x = \"a\"; y = no\nscene a\n  [& a b c]\n  10 gold\n  f()\nend\n\n\nscene b\n  --[ one line ]--\nend");
}

#[test]
fn print_script_is_what_render_script_lays_out() {
    let script = p_script("scene s\n  - a\nend").unwrap();
    assert_eq!(render(&print_script(&script), 80), render_script(&script));
}

#[test]
fn format_gives_the_canonical_form() {
    let source = "\n\nb=1;a   =  f( 1,2 )\nscene   s   [bob]\n- Hi   \nprompt   Go?\noption   A\nend\nend end";
    let formatted = format_script(source).unwrap();
    assert_eq!(
        formatted,
        "b = 1\na = f(1, 2)\n\nscene s\n  [bob]\n  - Hi   \n  prompt Go?\n    option A\n    end\n  end\nend"
    );
    assert_eq!(format_script(&formatted).unwrap(), formatted);
    assert!(p_script(&formatted).unwrap().same_as(&p_script(source).unwrap()));
}

#[test]
fn format_fails_as_the_parser_does() {
    assert_eq!(format_script("scene"), Err(p_script("scene").unwrap_err()));
}

#[test]
fn comments_over_lines_do_not_read_back() {
    let source = "scene s\n  --[ one\n  two ]--\nend";
    let script = p_script(source).unwrap();
    let formatted = format_script(source).unwrap();
    assert_eq!(formatted, "scene s\n  -- one\n  two \nend");
    assert!(!p_script(&formatted).unwrap().same_as(&script));
    assert!(format_script("scene s\n  --[[x]--\nend").is_ok());
    assert!(p_script("scene s\n  --[x\nend").is_err());
}
