use nicehtml::node::{copy_attributes, copy_strings, find_position};
use nicehtml::{ElementNode, LiteralNode, Node, PlaceholderNode};

fn word(text: &str) -> String {
    text.to_string()
}

fn text_node(text: &str) -> Node {
    Node::new_literal(word(text))
}

fn hole(name: &str) -> Node {
    Node::new_placeholder(word(name))
}

fn plain_element(tag: &str, scope: usize, children: Vec<Node>) -> ElementNode {
    let mut element = ElementNode::new_element(word(tag), vec![], scope);
    for child in children {
        element.append_child(child);
    }
    element
}

#[test]
fn constructors_fill_the_fields() {
    assert_eq!(text_node("hi"), Node::Literal(LiteralNode { content: word("hi") }));
    assert_eq!(hole("x"), Node::Placeholder(PlaceholderNode { parameter_name: word("x") }));
    let element = ElementNode::new_element(word("a"), vec![(word("href"), word("/"))], 7);
    assert_eq!(
        element,
        ElementNode {
            tag: word("a"),
            attributes: vec![(word("href"), word("/"))],
            children: vec![],
            scope: 7,
        }
    );
}

#[test]
fn children_are_appended_in_order() {
    let mut element = ElementNode::new_element(word("p"), vec![], 0);
    element.append_child(text_node("one"));
    element.append_child(hole("x"));
    element.append_child(Node::Element(plain_element("b", 1, vec![])));
    assert_eq!(element.children.len(), 3);
    assert_eq!(element.children[0], text_node("one"));
    assert_eq!(element.children[1], hole("x"));
    assert_eq!(element.children[2], Node::Element(plain_element("b", 1, vec![])));
    assert_eq!(element.tag, "p");
    assert_eq!(element.scope, 0);
}

#[test]
fn deep_copy_equals_its_source_and_is_independent_of_it() {
    let source = plain_element(
        "div",
        3,
        vec![
            text_node("a"),
            Node::Element(plain_element("span", 4, vec![hole("x"), text_node("b")])),
        ],
    );
    let mut copy = source.deep_copy();
    assert_eq!(copy, source);
    copy.append_child(text_node("more"));
    copy.insert_arguments(&vec![word("x")], &vec![text_node("filled")]);
    assert_eq!(source.children.len(), 2);
    match &source.children[1] {
        Node::Element(span) => assert_eq!(span.children[0], hole("x")),
        other => panic!("{:?}", other),
    }
    let node = Node::Element(source);
    assert_eq!(node.deep_copy(), node);
    assert_eq!(hole("y").deep_copy(), hole("y"));
    assert_eq!(text_node("t").deep_copy(), text_node("t"));
}

#[test]
fn arguments_replace_placeholders_by_position() {
    let mut body = plain_element("div", 0, vec![hole("b"), text_node("-"), hole("a")]);
    body.insert_arguments(
        &vec![word("a"), word("b")],
        &vec![text_node("first"), text_node("second")],
    );
    assert_eq!(
        body,
        plain_element("div", 0, vec![text_node("second"), text_node("-"), text_node("first")])
    );
}

#[test]
fn arguments_reach_placeholders_in_nested_elements() {
    let mut body = plain_element(
        "div",
        0,
        vec![Node::Element(plain_element(
            "ul",
            1,
            vec![Node::Element(plain_element("li", 2, vec![hole("x")])), hole("x")],
        ))],
    );
    body.insert_arguments(&vec![word("x")], &vec![text_node("v")]);
    assert_eq!(
        body,
        plain_element(
            "div",
            0,
            vec![Node::Element(plain_element(
                "ul",
                1,
                vec![Node::Element(plain_element("li", 2, vec![text_node("v")])), text_node("v")],
            ))],
        )
    );
}

#[test]
fn placeholders_of_other_names_stay() {
    let mut body = plain_element("div", 0, vec![hole("x"), hole("y")]);
    body.insert_arguments(&vec![word("x")], &vec![text_node("v")]);
    assert_eq!(body, plain_element("div", 0, vec![text_node("v"), hole("y")]));
}

#[test]
fn name_that_stands_twice_takes_the_argument_of_its_first_position() {
    let mut body = plain_element("div", 0, vec![hole("x")]);
    body.insert_arguments(
        &vec![word("x"), word("x")],
        &vec![text_node("first"), text_node("second")],
    );
    assert_eq!(body, plain_element("div", 0, vec![text_node("first")]));
}

#[test]
fn argument_that_was_put_in_is_not_searched_again() {
    let mut body = plain_element("div", 0, vec![hole("a")]);
    let argument = Node::Element(plain_element("div", 9, vec![hole("b")]));
    body.insert_arguments(&vec![word("a"), word("b")], &vec![argument, text_node("other")]);
    assert_eq!(
        body,
        plain_element("div", 0, vec![Node::Element(plain_element("div", 9, vec![hole("b")]))])
    );
}

#[test]
fn without_parameters_nothing_is_replaced() {
    let mut body = plain_element("div", 5, vec![hole("x"), text_node("t")]);
    body.insert_arguments(&vec![], &vec![]);
    assert_eq!(body, plain_element("div", 5, vec![hole("x"), text_node("t")]));
}

#[test]
fn surplus_arguments_are_ignored() {
    let mut body = plain_element("div", 5, vec![hole("x")]);
    body.insert_arguments(&vec![word("x")], &vec![text_node("used"), text_node("spare")]);
    assert_eq!(body, plain_element("div", 5, vec![text_node("used")]));
}

#[test]
fn position_is_the_first_occurrence() {
    let names = vec![word("a"), word("b"), word("a"), word("c")];
    assert_eq!(find_position(&names, &word("a")), Some(0));
    assert_eq!(find_position(&names, &word("b")), Some(1));
    assert_eq!(find_position(&names, &word("c")), Some(3));
    assert_eq!(find_position(&names, &word("d")), None);
    assert_eq!(find_position(&vec![], &word("a")), None);
}

#[test]
fn lists_are_copied_item_by_item() {
    let names = vec![word("a"), word(""), word("c")];
    assert_eq!(copy_strings(&names), names);
    assert_eq!(copy_strings(&vec![]), Vec::<String>::new());
    let attributes = vec![(word("k"), word("v")), (word("k"), word("w"))];
    assert_eq!(copy_attributes(&attributes), attributes);
}
