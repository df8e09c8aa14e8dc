use nicehtml::{
    merge_attributes, stack_to_html, stack_to_str, transpile, Attribute, CompileError,
    ElementNode, HtmlElement, Node, SyntaxNode,
};

fn owned(text: &str) -> String {
    text.to_string()
}

fn lit(text: &str) -> SyntaxNode {
    SyntaxNode::StringLiteral { text: owned(text) }
}

fn call(name: &str, arguments: Vec<SyntaxNode>) -> SyntaxNode {
    SyntaxNode::VariableReference { name: owned(name), arguments }
}

fn def(name: &str, parameters: &[&str], body: Vec<SyntaxNode>) -> SyntaxNode {
    SyntaxNode::Definition {
        name: owned(name),
        parameters: parameters.iter().map(|p| owned(p)).collect(),
        body,
    }
}

fn tag(name: &str, attributes: Vec<Attribute>, children: Vec<SyntaxNode>) -> SyntaxNode {
    SyntaxNode::Element { tag: owned(name), attributes, children }
}

fn dump_of(program: Vec<SyntaxNode>) -> String {
    match transpile(&program) {
        Ok(document) => stack_to_str(&document.root),
        Err(error) => panic!("{:?}", error),
    }
}

fn error_of(program: Vec<SyntaxNode>) -> CompileError {
    match transpile(&program) {
        Ok(document) => panic!("{}", stack_to_str(&document.root)),
        Err(error) => error,
    }
}

fn count_placeholders(element: &ElementNode) -> usize {
    let mut count = 0;
    for child in &element.children {
        match child {
            Node::Element(inner) => count += count_placeholders(inner),
            Node::Literal(_) => {}
            Node::Placeholder(_) => count += 1,
        }
    }
    count
}

fn nested_macros() -> Vec<SyntaxNode> {
    vec![
        def(
            "card",
            &["title", "text"],
            vec![
                def("heading", &["size"], vec![tag("h1", vec![], vec![call("size", vec![]), call("title", vec![])])]),
                call("heading", vec![lit("big")]),
                tag("p", vec![Attribute::Class(owned("body"))], vec![call("text", vec![])]),
            ],
        ),
        def("name", &[], vec![lit("Ada")]),
        tag(
            "main",
            vec![Attribute::Id(owned("page"))],
            vec![call("card", vec![call("name", vec![]), lit("hello")])],
        ),
        SyntaxNode::EndOfInput,
    ]
}

#[test]
fn rendering_twice_gives_the_same_output() {
    let document = transpile(&nested_macros());
    let document = match document {
        Ok(document) => document,
        Err(error) => panic!("{:?}", error),
    };
    let first: Result<Vec<HtmlElement>, CompileError> = stack_to_html(&document.root);
    let second: Result<Vec<HtmlElement>, CompileError> = stack_to_html(&document.root);
    assert!(first.is_ok());
    assert_eq!(first, second);
    assert_eq!(stack_to_str(&document.root), stack_to_str(&document.root));
}

#[test]
fn expansion_leaves_no_placeholder() {
    let document = match transpile(&nested_macros()) {
        Ok(document) => document,
        Err(error) => panic!("{:?}", error),
    };
    assert_eq!(count_placeholders(&document.root), 0);
    assert_eq!(
        stack_to_str(&document.root),
        "main[div[div[h1[div[\"big\", ], div[div[\"Ada\", ], ], ], ], p[div[\"hello\", ], ], ], ], "
    );
}

#[test]
fn parameter_passed_on_to_another_macro_is_replaced() {
    let program = vec![
        def("inner", &["x"], vec![tag("b", vec![], vec![call("x", vec![])])]),
        def("outer", &["x"], vec![call("inner", vec![call("x", vec![])])]),
        call("outer", vec![lit("deep")]),
    ];
    let document = match transpile(&program) {
        Ok(document) => document,
        Err(error) => panic!("{:?}", error),
    };
    assert_eq!(count_placeholders(&document.root), 0);
    assert_eq!(stack_to_str(&document.root), "div[div[b[div[div[\"deep\", ], ], ], ], ], ");
}

#[test]
fn inner_definition_hides_the_outer_one_inside_only() {
    let program = vec![
        def("x", &[], vec![lit("outer")]),
        tag("section", vec![], vec![def("x", &[], vec![lit("inner")]), call("x", vec![])]),
        call("x", vec![]),
    ];
    assert_eq!(dump_of(program), "section[div[\"inner\", ], ], div[\"outer\", ], ");
}

#[test]
fn outer_definition_is_seen_inside_nested_elements() {
    let program = vec![
        def("x", &[], vec![lit("outer")]),
        tag("a", vec![], vec![tag("b", vec![], vec![call("x", vec![])])]),
    ];
    assert_eq!(dump_of(program), "a[b[div[\"outer\", ], ], ], ");
}

#[test]
fn definition_inside_an_element_is_unknown_outside() {
    let program = vec![
        tag("section", vec![], vec![def("local", &[], vec![lit("here")])]),
        call("local", vec![]),
    ];
    assert_eq!(error_of(program), CompileError::UndefinedVariableError(owned("local")));
}

#[test]
fn redefinition_in_the_same_scope_replaces_the_binding() {
    let program = vec![
        def("x", &[], vec![lit("first")]),
        call("x", vec![]),
        def("x", &[], vec![lit("second")]),
        call("x", vec![]),
    ];
    assert_eq!(dump_of(program), "div[\"first\", ], div[\"second\", ], ");
}

#[test]
fn variable_called_with_an_argument_is_rejected() {
    let program = vec![def("x", &[], vec![lit("text")]), call("x", vec![lit("extra")])];
    assert_eq!(error_of(program), CompileError::ArgumentCountError(owned("x"), 0, 1));
}

#[test]
fn macro_called_with_too_many_arguments_is_rejected() {
    let program = vec![
        def("one", &["a"], vec![call("a", vec![])]),
        call("one", vec![lit("1"), lit("2"), lit("3")]),
    ];
    assert_eq!(error_of(program), CompileError::ArgumentCountError(owned("one"), 1, 3));
}

#[test]
fn macro_called_without_arguments_is_rejected() {
    let program = vec![def("one", &["a"], vec![call("a", vec![])]), call("one", vec![])];
    assert_eq!(error_of(program), CompileError::ArgumentCountError(owned("one"), 1, 0));
}

#[test]
fn macro_called_with_the_right_number_of_arguments_is_accepted() {
    let program = vec![
        def("pair", &["a", "b"], vec![call("b", vec![]), call("a", vec![])]),
        call("pair", vec![lit("1"), lit("2")]),
    ];
    assert_eq!(dump_of(program), "div[div[\"2\", ], div[\"1\", ], ], ");
}

#[test]
fn error_in_an_argument_comes_before_the_count_error() {
    let program = vec![
        def("two", &["a", "b"], vec![]),
        call("two", vec![call("nowhere", vec![])]),
    ];
    assert_eq!(error_of(program), CompileError::UndefinedVariableError(owned("nowhere")));
}

#[test]
fn surplus_arguments_are_not_evaluated() {
    let program = vec![
        def("one", &["a"], vec![]),
        call("one", vec![lit("fine"), call("nowhere", vec![])]),
    ];
    assert_eq!(error_of(program), CompileError::ArgumentCountError(owned("one"), 1, 2));
}

#[test]
fn macro_call_as_argument_is_rejected() {
    let program = vec![
        def("f", &["a"], vec![call("a", vec![])]),
        def("g", &["a"], vec![call("a", vec![])]),
        call("f", vec![call("g", vec![lit("x")])]),
    ];
    assert_eq!(error_of(program), CompileError::InvalidArgumentTypeError(owned("f"), 0));
}

#[test]
fn element_as_argument_is_rejected_with_its_position() {
    let program = vec![
        def("f", &["a", "b"], vec![]),
        call("f", vec![lit("fine"), tag("p", vec![], vec![])]),
    ];
    assert_eq!(error_of(program), CompileError::InvalidArgumentTypeError(owned("f"), 1));
}

#[test]
fn plain_reference_to_a_macro_as_argument_lacks_its_arguments() {
    let program = vec![
        def("f", &["a"], vec![call("a", vec![])]),
        def("g", &["a"], vec![call("a", vec![])]),
        call("f", vec![call("g", vec![])]),
    ];
    assert_eq!(error_of(program), CompileError::ArgumentCountError(owned("g"), 1, 0));
}

#[test]
fn two_class_shorthands_become_one_attribute() {
    let merged = merge_attributes(
        &owned("p"),
        &vec![Attribute::Class(owned("a")), Attribute::Class(owned("b"))],
    );
    assert_eq!(merged, Ok(vec![(owned("class"), owned("a b"))]));
    let program = vec![tag(
        "p",
        vec![Attribute::Class(owned("a")), Attribute::Class(owned("b"))],
        vec![],
    )];
    let document = match transpile(&program) {
        Ok(document) => document,
        Err(error) => panic!("{:?}", error),
    };
    let html = stack_to_html(&document.root);
    assert_eq!(
        html,
        Ok(vec![HtmlElement {
            tag: owned("p"),
            attributes: vec![(owned("class"), owned("a b"))],
            inner_html: None,
            children: vec![],
        }])
    );
}

#[test]
fn attributes_keep_their_order_around_the_merged_class() {
    let merged = merge_attributes(
        &owned("p"),
        &vec![
            Attribute::Pair(owned("href"), owned("/")),
            Attribute::Class(owned("a")),
            Attribute::Id(owned("top")),
            Attribute::Class(owned("b")),
            Attribute::Pair(owned("title"), owned("t")),
            Attribute::Class(owned("c")),
        ],
    );
    assert_eq!(
        merged,
        Ok(vec![
            (owned("href"), owned("/")),
            (owned("class"), owned("a b c")),
            (owned("id"), owned("top")),
            (owned("title"), owned("t")),
        ])
    );
}

#[test]
fn second_id_shorthand_is_rejected_wherever_it_stands() {
    let merged = merge_attributes(
        &owned("nav"),
        &vec![
            Attribute::Id(owned("one")),
            Attribute::Class(owned("c")),
            Attribute::Pair(owned("k"), owned("v")),
            Attribute::Id(owned("two")),
        ],
    );
    assert_eq!(merged, Err(CompileError::DuplicateIdAttributeError(owned("nav"))));
}

#[test]
fn id_pair_beside_one_id_shorthand_is_accepted() {
    let merged = merge_attributes(
        &owned("nav"),
        &vec![Attribute::Pair(owned("id"), owned("x")), Attribute::Id(owned("y"))],
    );
    assert_eq!(merged, Ok(vec![(owned("id"), owned("x")), (owned("id"), owned("y"))]));
}

#[test]
fn empty_attribute_list_gives_no_attribute() {
    assert_eq!(merge_attributes(&owned("p"), &vec![]), Ok(vec![]));
}

#[test]
fn duplicate_id_is_found_before_the_children_are_expanded() {
    let program = vec![tag(
        "p",
        vec![Attribute::Id(owned("a")), Attribute::Id(owned("b"))],
        vec![call("nowhere", vec![])],
    )];
    assert_eq!(error_of(program), CompileError::DuplicateIdAttributeError(owned("p")));
}

#[test]
fn unknown_node_kind_is_an_internal_error() {
    let program = vec![lit("before"), SyntaxNode::Unexpected { text: owned("comment") }];
    assert_eq!(error_of(program), CompileError::InternalInvariantError);
}

#[test]
fn end_marker_adds_nothing() {
    assert_eq!(dump_of(vec![SyntaxNode::EndOfInput]), "");
    assert_eq!(dump_of(vec![]), "");
    assert_eq!(dump_of(vec![lit("a"), SyntaxNode::EndOfInput, lit("b")]), "\"a\", \"b\", ");
}

#[test]
fn definition_adds_nothing_to_the_output() {
    let program = vec![def("unused", &["a"], vec![tag("p", vec![], vec![call("a", vec![])])])];
    let document = match transpile(&program) {
        Ok(document) => document,
        Err(error) => panic!("{:?}", error),
    };
    assert!(document.root.children.is_empty());
    assert_eq!(document.root.tag, "div");
    assert_eq!(document.root.scope, 0);
    let binding = document.scopes.lookup(0, &owned("unused"));
    let binding = match binding {
        Some(binding) => binding,
        None => panic!("unused is not bound"),
    };
    assert_eq!(binding.name, "unused");
    assert_eq!(binding.parameters, vec![owned("a")]);
    match &binding.body {
        Node::Element(body) => {
            assert_eq!(stack_to_str(body), "p[$a, ], ");
            assert_eq!(count_placeholders(body), 1);
        }
        other => panic!("{:?}", other),
    }
}

#[test]
fn same_macro_can_be_called_again_with_other_arguments() {
    let program = vec![
        def("em", &["x"], vec![tag("em", vec![], vec![call("x", vec![])])]),
        call("em", vec![lit("one")]),
        call("em", vec![lit("two")]),
    ];
    assert_eq!(
        dump_of(program),
        "div[em[div[\"one\", ], ], ], div[em[div[\"two\", ], ], ], "
    );
}

#[test]
fn parameter_used_twice_is_replaced_twice() {
    let program = vec![
        def("twice", &["x"], vec![call("x", vec![]), call("x", vec![])]),
        call("twice", vec![lit("again")]),
    ];
    assert_eq!(dump_of(program), "div[div[\"again\", ], div[\"again\", ], ], ");
}

#[test]
fn local_definition_inside_a_macro_body_sees_the_parameter() {
    let program = vec![
        def(
            "outer",
            &["x"],
            vec![def("inner", &[], vec![call("x", vec![])]), tag("i", vec![], vec![call("inner", vec![])])],
        ),
        call("outer", vec![lit("seen")]),
    ];
    assert_eq!(dump_of(program), "div[i[div[div[\"seen\", ], ], ], ], ");
}

#[test]
fn placeholder_is_replaced_by_name_whichever_macro_it_came_from() {
    let program = vec![
        def(
            "a",
            &["x"],
            vec![
                def("b", &["y"], vec![call("x", vec![])]),
                def("c", &["x"], vec![call("b", vec![lit("q")])]),
                call("c", vec![lit("captured")]),
            ],
        ),
        call("a", vec![lit("outer")]),
    ];
    let document = match transpile(&program) {
        Ok(document) => document,
        Err(error) => panic!("{:?}", error),
    };
    assert_eq!(count_placeholders(&document.root), 0);
    assert_eq!(stack_to_str(&document.root), "div[div[div[div[\"captured\", ], ], ], ], ");
}

#[test]
fn reference_to_a_parameter_outside_its_macro_is_undefined() {
    let program = vec![def("f", &["x"], vec![call("x", vec![])]), call("x", vec![])];
    assert_eq!(error_of(program), CompileError::UndefinedVariableError(owned("x")));
}

#[test]
fn macro_cannot_refer_to_itself_in_its_own_body() {
    let program = vec![def("loop", &[], vec![call("loop", vec![])])];
    assert_eq!(error_of(program), CompileError::UndefinedVariableError(owned("loop")));
}

#[test]
fn variable_as_argument_is_expanded_inside_its_wrapper() {
    let program = vec![
        def("name", &[], vec![lit("Ada")]),
        def("hello", &["who"], vec![lit("Hello, "), call("who", vec![])]),
        call("hello", vec![call("name", vec![])]),
    ];
    assert_eq!(dump_of(program), "div[\"Hello, \", div[div[\"Ada\", ], ], ], ");
}

struct Dice {
    state: u64,
}

impl Dice {
    fn roll(&mut self, sides: u64) -> u64 {
        self.state = self.state.wrapping_mul(6364136223846793005).wrapping_add(1442695040888963407);
        (self.state >> 33) % sides
    }
}

fn random_argument(dice: &mut Dice, visible: &Vec<(String, usize)>) -> SyntaxNode {
    let plain: Vec<&(String, usize)> = visible.iter().filter(|entry| entry.1 == 0).collect();
    if plain.is_empty() || dice.roll(2) == 0 {
        lit("text")
    } else {
        let chosen = plain[dice.roll(plain.len() as u64) as usize];
        call(&chosen.0, vec![])
    }
}

fn random_lines(dice: &mut Dice, depth: u64, visible: &mut Vec<(String, usize)>) -> Vec<SyntaxNode> {
    let names = ["a", "b", "c", "x", "y"];
    let mut lines = vec![];
    let count = dice.roll(4);
    for _ in 0..count {
        match dice.roll(if depth < 3 { 4 } else { 2 }) {
            0 => lines.push(lit("t")),
            1 => {
                if !visible.is_empty() {
                    let chosen = visible[dice.roll(visible.len() as u64) as usize].clone();
                    let mut arguments = vec![];
                    for _ in 0..chosen.1 {
                        arguments.push(random_argument(dice, visible));
                    }
                    lines.push(call(&chosen.0, arguments));
                }
            }
            2 => {
                let mark = visible.len();
                let children = random_lines(dice, depth + 1, visible);
                visible.truncate(mark);
                let attributes = match dice.roll(3) {
                    0 => vec![],
                    1 => vec![Attribute::Class(owned("k")), Attribute::Class(owned("l"))],
                    _ => vec![Attribute::Id(owned("i")), Attribute::Pair(owned("n"), owned("v"))],
                };
                lines.push(tag("e", attributes, children));
            }
            _ => {
                let name = names[dice.roll(names.len() as u64) as usize];
                let arity = dice.roll(3) as usize;
                let parameters: Vec<&str> = names[5 - arity..5].to_vec();
                let outside: Vec<(String, usize)> = visible.clone();
                for parameter in &parameters {
                    visible.retain(|entry| entry.0 != *parameter);
                    visible.push((owned(parameter), 0));
                }
                let body = random_lines(dice, depth + 1, visible);
                *visible = outside;
                lines.push(def(name, &parameters, body));
                visible.retain(|entry| entry.0 != name);
                visible.push((owned(name), arity));
            }
        }
    }
    lines
}

#[test]
fn programs_made_by_chance_leave_no_placeholder() {
    let mut dice = Dice { state: 2024 };
    let mut expanded = 0;
    for _ in 0..3000 {
        let mut visible = vec![];
        let program = random_lines(&mut dice, 0, &mut visible);
        match transpile(&program) {
            Ok(document) => {
                expanded += 1;
                assert_eq!(count_placeholders(&document.root), 0);
                assert!(stack_to_html(&document.root).is_ok());
            }
            Err(error) => match error {
                CompileError::UndefinedVariableError(_) | CompileError::ArgumentCountError(_, _, _) => {}
                other => panic!("{:?}", other),
            },
        }
    }
    assert!(expanded > 1000);
}
