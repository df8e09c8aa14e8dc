//! The syntax tree that the engine expands.
use crate::node::strings_view;
use vstd::prelude::*;

verus! {

/// Model of an `Attribute`.
pub enum AttributeView {
    Pair(Seq<char>, Seq<char>),
    Id(Seq<char>),
    Class(Seq<char>),
}

/// One entry of an element's attribute list.
#[derive(Debug, PartialEq, Eq)]
pub enum Attribute {
    /// A name and a value.
    Pair(String, String),
    /// The id shorthand, with the id.
    Id(String),
    /// The class shorthand, with one class.
    Class(String),
}

impl View for Attribute {
    type V = AttributeView;

    open spec fn view(&self) -> AttributeView {
        match *self {
            Attribute::Pair(name, value) => AttributeView::Pair(name@, value@),
            Attribute::Id(value) => AttributeView::Id(value@),
            Attribute::Class(value) => AttributeView::Class(value@),
        }
    }
}

/// The entries of an attribute list, each as its model.
pub open spec fn attribute_list_view(attributes: Seq<Attribute>) -> Seq<AttributeView> {
    Seq::new(attributes.len(), |i: int| attributes[i]@)
}

/// Model of a `SyntaxNode`.
pub enum SyntaxView {
    Definition { name: Seq<char>, parameters: Seq<Seq<char>>, body: Seq<SyntaxView> },
    Element { tag: Seq<char>, attributes: Seq<AttributeView>, children: Seq<SyntaxView> },
    VariableReference { name: Seq<char>, arguments: Seq<SyntaxView> },
    StringLiteral { text: Seq<char> },
    EndOfInput,
    Unexpected { text: Seq<char> },
}

/// A node of the syntax tree.
#[derive(Debug, PartialEq, Eq)]
pub enum SyntaxNode {
    /// `name = body` or `name(parameters) = body`.
    Definition { name: String, parameters: Vec<String>, body: Vec<SyntaxNode> },
    /// A tag with its attribute list and its nested lines.
    Element { tag: String, attributes: Vec<Attribute>, children: Vec<SyntaxNode> },
    /// `$name` or `$name(arguments)`.
    VariableReference { name: String, arguments: Vec<SyntaxNode> },
    /// A string literal; `text` is what stands between the quotes.
    StringLiteral { text: String },
    /// The marker that ends the input.
    EndOfInput,
    /// A node of a kind that the engine does not know, with its text as
    /// written.
    Unexpected { text: String },
}

/// The model of a node of the syntax tree.
pub open spec fn syntax_view(node: SyntaxNode) -> SyntaxView
    decreases node,
{
    match node {
        SyntaxNode::Definition { name, parameters, body } => SyntaxView::Definition {
            name: name@,
            parameters: strings_view(parameters@),
            body: syntax_list_view(body@),
        },
        SyntaxNode::Element { tag, attributes, children } => SyntaxView::Element {
            tag: tag@,
            attributes: attribute_list_view(attributes@),
            children: syntax_list_view(children@),
        },
        SyntaxNode::VariableReference { name, arguments } => SyntaxView::VariableReference {
            name: name@,
            arguments: syntax_list_view(arguments@),
        },
        SyntaxNode::StringLiteral { text } => SyntaxView::StringLiteral { text: text@ },
        SyntaxNode::EndOfInput => SyntaxView::EndOfInput,
        SyntaxNode::Unexpected { text } => SyntaxView::Unexpected { text: text@ },
    }
}

/// The models of the nodes of a list, in order.
pub open spec fn syntax_list_view(nodes: Seq<SyntaxNode>) -> Seq<SyntaxView>
    decreases nodes,
{
    Seq::new(
        nodes.len(),
        |i: int|
            if 0 <= i < nodes.len() {
                syntax_view(nodes[i])
            } else {
                SyntaxView::EndOfInput
            },
    )
}

impl View for SyntaxNode {
    type V = SyntaxView;

    open spec fn view(&self) -> SyntaxView {
        syntax_view(*self)
    }
}

} // verus!
