use nicehtml::{
    stack_to_html, stack_to_str, transpile, Attribute, CompileError, Document, ElementNode, Node,
    SyntaxNode,
};

fn s(text: &str) -> String {
    text.to_string()
}

fn literal(text: &str) -> SyntaxNode {
    SyntaxNode::StringLiteral { text: s(text) }
}

fn reference(name: &str, arguments: Vec<SyntaxNode>) -> SyntaxNode {
    SyntaxNode::VariableReference { name: s(name), arguments }
}

fn definition(name: &str, parameters: &[&str], body: Vec<SyntaxNode>) -> SyntaxNode {
    SyntaxNode::Definition {
        name: s(name),
        parameters: parameters.iter().map(|p| s(p)).collect(),
        body,
    }
}

fn element(tag: &str, attributes: Vec<Attribute>, children: Vec<SyntaxNode>) -> SyntaxNode {
    SyntaxNode::Element { tag: s(tag), attributes, children }
}

fn compiled(program: Vec<SyntaxNode>) -> Document {
    match transpile(&program) {
        Ok(document) => document,
        Err(error) => panic!("{:?}", error),
    }
}

fn only_element(parent: &ElementNode) -> &ElementNode {
    assert_eq!(parent.children.len(), 1);
    match &parent.children[0] {
        Node::Element(element) => element,
        other => panic!("{:?}", other),
    }
}

fn only_literal(parent: &ElementNode) -> &str {
    assert_eq!(parent.children.len(), 1);
    match &parent.children[0] {
        Node::Literal(literal) => literal.content.as_str(),
        other => panic!("{:?}", other),
    }
}

#[test]
fn variable_reference_yields_its_literal() {
    let document = compiled(vec![
        definition("greeting", &[], vec![literal("hi")]),
        reference("greeting", vec![]),
        SyntaxNode::EndOfInput,
    ]);
    let body = only_element(&document.root);
    assert_eq!(body.tag, "div");
    assert!(body.attributes.is_empty());
    assert_eq!(only_literal(body), "hi");
    assert_eq!(stack_to_str(&document.root), "div[\"hi\", ], ");
}

#[test]
fn macro_call_replaces_the_placeholder() {
    let document = compiled(vec![
        definition("wrap", &["x"], vec![element("div", vec![], vec![reference("x", vec![])])]),
        reference("wrap", vec![literal("hi")]),
    ]);
    let body = only_element(&document.root);
    let div = only_element(body);
    assert_eq!(div.tag, "div");
    let argument = only_element(div);
    assert_eq!(argument.tag, "div");
    assert_eq!(only_literal(argument), "hi");
    assert_eq!(stack_to_str(&document.root), "div[div[div[\"hi\", ], ], ], ");
    assert!(stack_to_html(&document.root).is_ok());
}

#[test]
fn undefined_reference_is_reported() {
    let program = vec![reference("missing", vec![])];
    assert_eq!(transpile(&program).err(), Some(CompileError::UndefinedVariableError(s("missing"))));
}

#[test]
fn missing_argument_is_reported_with_both_counts() {
    let program = vec![
        definition("box", &["a", "b"], vec![reference("a", vec![]), reference("b", vec![])]),
        reference("box", vec![literal("only one")]),
    ];
    assert_eq!(transpile(&program).err(), Some(CompileError::ArgumentCountError(s("box"), 2, 1)));
}

#[test]
fn second_id_shorthand_is_reported() {
    let program = vec![element(
        "section",
        vec![Attribute::Id(s("first")), Attribute::Id(s("second"))],
        vec![],
    )];
    assert_eq!(
        transpile(&program).err(),
        Some(CompileError::DuplicateIdAttributeError(s("section")))
    );
}

#[test]
fn sibling_elements_keep_their_own_macros() {
    let document = compiled(vec![
        element(
            "header",
            vec![],
            vec![definition("x", &[], vec![literal("left")]), reference("x", vec![])],
        ),
        element(
            "footer",
            vec![],
            vec![definition("x", &[], vec![literal("right")]), reference("x", vec![])],
        ),
    ]);
    assert_eq!(document.root.children.len(), 2);
    let (header, footer) = match (&document.root.children[0], &document.root.children[1]) {
        (Node::Element(header), Node::Element(footer)) => (header, footer),
        other => panic!("{:?}", other),
    };
    assert_eq!(header.tag, "header");
    assert_eq!(footer.tag, "footer");
    assert_eq!(only_literal(only_element(header)), "left");
    assert_eq!(only_literal(only_element(footer)), "right");
    assert_eq!(
        document.scopes.lookup(header.scope, &s("x")).map(|b| stack_to_str(&body_of(b.body))),
        Some(s("\"left\", "))
    );
    assert_eq!(
        document.scopes.lookup(footer.scope, &s("x")).map(|b| stack_to_str(&body_of(b.body))),
        Some(s("\"right\", "))
    );
    assert!(document.scopes.lookup(document.root.scope, &s("x")).is_none());
}

fn body_of(node: Node) -> ElementNode {
    match node {
        Node::Element(element) => element,
        other => panic!("{:?}", other),
    }
}
