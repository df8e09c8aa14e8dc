use nicehtml::{
    classify_line, classify_with, find_line_facts, indent_level, is_skipped_line, LineFacts,
    LineKind,
};

fn t(text: &str) -> String {
    text.to_string()
}

fn no_facts() -> LineFacts {
    LineFacts { tag: Some(false), attributes: Some(vec![]), call: Some(false), arguments: Some(vec![]) }
}

fn not_sure() -> Result<LineKind, String> {
    Err(t("Not sure what this line is"))
}

fn no_definition() -> Result<LineKind, String> {
    Err(t("not a valid variable or function definition"))
}

#[test]
fn level_is_one_more_than_a_quarter_of_the_leading_spaces() {
    assert_eq!(indent_level(""), 1);
    assert_eq!(indent_level("div"), 1);
    assert_eq!(indent_level("   div"), 1);
    assert_eq!(indent_level("    div"), 2);
    assert_eq!(indent_level("       div"), 2);
    assert_eq!(indent_level("        div"), 3);
    assert_eq!(indent_level("            "), 4);
    assert_eq!(indent_level("    a    b"), 2);
    assert_eq!(indent_level("\t    div"), 1);
    assert_eq!(indent_level("  \u{e9}"), 1);
}

#[test]
fn empty_lines_and_comments_are_skipped() {
    assert!(is_skipped_line(""));
    assert!(is_skipped_line("   "));
    assert!(is_skipped_line(" \t\u{a0}\u{2003} "));
    assert!(is_skipped_line("# a comment"));
    assert!(is_skipped_line("    # a comment"));
    assert!(is_skipped_line("#"));
    assert!(!is_skipped_line("div"));
    assert!(!is_skipped_line("  div # not a comment"));
    assert!(!is_skipped_line("\"#\""));
    assert!(!is_skipped_line("_"));
}

#[test]
fn head_of_a_variable_is_its_name() {
    assert_eq!(
        classify_line("greeting ="),
        Ok(LineKind::Definition { name: t("greeting"), parameters: vec![] })
    );
    assert_eq!(
        classify_line("_x1="),
        Ok(LineKind::Definition { name: t("_x1"), parameters: vec![] })
    );
    assert_eq!(
        classify_line("  spaced   ="),
        Ok(LineKind::Definition { name: t("spaced"), parameters: vec![] })
    );
}

#[test]
fn head_of_a_function_has_its_parameters() {
    assert_eq!(
        classify_line("wrap(x) ="),
        Ok(LineKind::Definition { name: t("wrap"), parameters: vec![t("x")] })
    );
    assert_eq!(
        classify_line("box( a ,b,  c ) ="),
        Ok(LineKind::Definition { name: t("box"), parameters: vec![t("a"), t("b"), t("c")] })
    );
    assert_eq!(
        classify_line("f() ="),
        Ok(LineKind::Definition { name: t("f"), parameters: vec![t("")] })
    );
    assert_eq!(
        classify_line("f(a,) ="),
        Ok(LineKind::Definition { name: t("f"), parameters: vec![t("a"), t("")] })
    );
    assert_eq!(
        classify_line("f(a b) ="),
        Ok(LineKind::Definition { name: t("f"), parameters: vec![t("a b")] })
    );
    assert_eq!(
        classify_line("f(a)  (b) ="),
        Ok(LineKind::Definition { name: t("f"), parameters: vec![t("a")] })
    );
}

#[test]
fn head_that_is_neither_is_no_definition() {
    assert_eq!(classify_line("="), no_definition());
    assert_eq!(classify_line("two words ="), no_definition());
    assert_eq!(classify_line("9lives ="), no_definition());
    assert_eq!(classify_line("a-b ="), no_definition());
    assert_eq!(classify_line("9f(x) ="), no_definition());
    assert_eq!(classify_line("(x) ="), no_definition());
    assert_eq!(classify_line("f(x ="), no_definition());
    assert_eq!(classify_line("f x) ="), no_definition());
    assert_eq!(classify_line("f(x) y ="), no_definition());
    assert_eq!(classify_line("f(x) y) ="), no_definition());
    assert_eq!(classify_line("a)b(c ="), no_definition());
    assert_eq!(classify_line("f(a(b) ="), no_definition());
}

#[test]
fn string_gives_what_stands_between_its_quotes() {
    assert_eq!(classify_line("\"hello\""), Ok(LineKind::Text { markup: t("hello") }));
    assert_eq!(classify_line("\"\""), Ok(LineKind::Text { markup: t("") }));
    assert_eq!(
        classify_line("\"a \"quoted\" <b>word</b>\""),
        Ok(LineKind::Text { markup: t("a \"quoted\" <b>word</b>") })
    );
    assert_eq!(classify_line("\"caf\u{e9}\""), Ok(LineKind::Text { markup: t("caf\u{e9}") }));
    assert_eq!(classify_line("\""), not_sure());
    assert_eq!(classify_line("\"open"), not_sure());
}

#[test]
fn tag_has_its_name_and_its_attributes() {
    assert_eq!(classify_line("div"), Ok(LineKind::Tag { name: t("div"), attributes: vec![] }));
    assert_eq!(
        classify_line("a href=\"/\" title=\"Home page\""),
        Ok(LineKind::Tag {
            name: t("a"),
            attributes: vec![(t("href"), t("/")), (t("title"), t("Home page"))],
        })
    );
    assert_eq!(
        classify_line("p   class=\"x\""),
        Ok(LineKind::Tag { name: t("p"), attributes: vec![(t("class"), t("x"))] })
    );
    assert_eq!(
        classify_line("p class=\"\""),
        Ok(LineKind::Tag { name: t("p"), attributes: vec![] })
    );
    assert_eq!(
        classify_line("_t9"),
        Ok(LineKind::Tag { name: t("_t9"), attributes: vec![] })
    );
}

#[test]
fn line_of_no_kind_gives_a_message() {
    assert_eq!(classify_line(""), not_sure());
    assert_eq!(classify_line("9div"), not_sure());
    assert_eq!(classify_line("div class=x"), not_sure());
    assert_eq!(classify_line("div class=\"x\" y"), not_sure());
    assert_eq!(classify_line("div \"text\""), not_sure());
    assert_eq!(classify_line("$"), not_sure());
    assert_eq!(classify_line("$9x"), not_sure());
    assert_eq!(classify_line("$ x"), not_sure());
    assert_eq!(classify_line("$a-b"), not_sure());
    assert_eq!(classify_line("<div>"), not_sure());
}

#[test]
fn reference_has_its_name_and_its_arguments_as_written() {
    assert_eq!(
        classify_line("$wrap(\"hi\")"),
        Ok(LineKind::Reference { name: t("wrap"), arguments: Ok(vec![t("\"hi\"")]) })
    );
    assert_eq!(
        classify_line("$box(\"a, b\", $c,\"d\")"),
        Ok(LineKind::Reference {
            name: t("box"),
            arguments: Ok(vec![t("\"a, b\""), t("$c"), t("\"d\"")]),
        })
    );
    assert_eq!(
        classify_line("$f()"),
        Ok(LineKind::Reference { name: t("f"), arguments: Ok(vec![]) })
    );
    assert_eq!(
        classify_line("$f(\"a\") trailing"),
        Ok(LineKind::Reference { name: t("f"), arguments: Ok(vec![t("\"a\"")]) })
    );
}

#[test]
fn reference_that_is_no_well_formed_call_carries_the_message() {
    assert_eq!(
        classify_line("$greeting"),
        Ok(LineKind::Reference { name: t("greeting"), arguments: Err(t("invalid function call")) })
    );
    assert_eq!(
        classify_line("$f(\"a\")(\"b\")"),
        Ok(LineKind::Reference { name: t("f"), arguments: Err(t("invalid function call")) })
    );
    assert_eq!(
        classify_line("$f(($x)"),
        Ok(LineKind::Reference { name: t("f"), arguments: Err(t("invalid function call")) })
    );
}

#[test]
fn kinds_are_tried_in_their_order() {
    assert_eq!(
        classify_line("\"x\" ="),
        no_definition()
    );
    assert_eq!(
        classify_line("$x ="),
        no_definition()
    );
    assert_eq!(
        classify_line("div class=\"a\" ="),
        no_definition()
    );
    assert_eq!(classify_line("\"$x\""), Ok(LineKind::Text { markup: t("$x") }));
}

#[test]
fn patterns_are_asked_about_the_right_parts_of_the_line() {
    assert_eq!(
        find_line_facts("a href=\"/\" id=\"x\""),
        LineFacts {
            tag: Some(true),
            attributes: Some(vec![(t("href"), t("/")), (t("id"), t("x"))]),
            call: Some(true),
            arguments: Some(vec![]),
        }
    );
    assert_eq!(
        find_line_facts("$f(\"a\", $b) rest"),
        LineFacts {
            tag: Some(false),
            attributes: Some(vec![]),
            call: Some(true),
            arguments: Some(vec![t("\"a\""), t("$b")]),
        }
    );
    assert_eq!(
        find_line_facts("no brackets here"),
        LineFacts { tag: Some(false), attributes: Some(vec![]), call: Some(true), arguments: Some(vec![]) }
    );
    assert_eq!(
        find_line_facts("x(\"unclosed"),
        LineFacts { tag: Some(false), attributes: Some(vec![]), call: Some(true), arguments: Some(vec![]) }
    );
}

#[test]
fn classification_follows_the_facts_it_is_given() {
    assert_eq!(classify_with("div", &no_facts()), not_sure());
    let tag = LineFacts {
        tag: Some(true),
        attributes: Some(vec![(t("k"), t("v"))]),
        call: Some(false),
        arguments: Some(vec![]),
    };
    assert_eq!(
        classify_with("  any thing", &tag),
        Ok(LineKind::Tag { name: t("any"), attributes: vec![(t("k"), t("v"))] })
    );
    assert_eq!(classify_with("x =", &tag), Ok(LineKind::Definition { name: t("x"), parameters: vec![] }));
    assert_eq!(classify_with("\"s\"", &tag), Ok(LineKind::Text { markup: t("s") }));
    let refused = LineFacts { tag: None, attributes: None, call: None, arguments: None };
    assert_eq!(classify_with("div", &refused), not_sure());
    assert_eq!(
        classify_with("$f(x)", &refused),
        Ok(LineKind::Reference { name: t("f"), arguments: Err(t("invalid function call")) })
    );
    let only_tag = LineFacts { tag: Some(true), attributes: None, call: None, arguments: None };
    assert_eq!(
        classify_with("div", &only_tag),
        Ok(LineKind::Tag { name: t("div"), attributes: vec![] })
    );
    let call = LineFacts {
        tag: Some(false),
        attributes: Some(vec![]),
        call: Some(true),
        arguments: None,
    };
    assert_eq!(
        classify_with("$f(x)", &call),
        Ok(LineKind::Reference { name: t("f"), arguments: Ok(vec![]) })
    );
    let with_arguments = LineFacts {
        tag: Some(false),
        attributes: Some(vec![]),
        call: Some(true),
        arguments: Some(vec![t("one"), t("two")]),
    };
    assert_eq!(
        classify_with("$f(x)", &with_arguments),
        Ok(LineKind::Reference { name: t("f"), arguments: Ok(vec![t("one"), t("two")]) })
    );
    assert_eq!(
        classify_with("$f", &with_arguments),
        Ok(LineKind::Reference { name: t("f"), arguments: Err(t("invalid function call")) })
    );
}
