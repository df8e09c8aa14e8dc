//! The parse tree as the front end's parser leaves it, and its reading into
//! the syntax tree that the engine expands.
use crate::error::{CompileError, CompileErrorView};
use crate::node::strings_view;
use crate::syntax::{
    attribute_list_view, syntax_list_view, Attribute, AttributeView, SyntaxNode, SyntaxView,
};
use vstd::prelude::*;
use vstd::string::StrSliceExecFns;

verus! {

/// The grammar rules that the reading tells apart.
#[derive(Debug, Clone, Copy, PartialEq, Eq)]
pub enum RuleKind {
    /// `name = body` or `name(parameters) = body`: the name, the
    /// parameters, and last the body, which holds the body's lines.
    Definition,
    /// An element: first its head, which holds the tag and the attributes,
    /// then, if it has any, a node that holds its nested lines.
    Element,
    /// `$name` or `$name(arguments)`: the name, then the arguments.
    Variable,
    /// A line that is a string literal: the string.
    StringLine,
    /// The end of the input.
    EndOfInput,
    /// A name.
    Identifier,
    /// A string literal with its quotes.
    Str,
    /// The id shorthand in an attribute list: the id, a name.
    IdShorthand,
    /// The class shorthand in an attribute list: the class, a name.
    ClassShorthand,
    /// Any other rule.
    Other,
}

/// Model of a `ParseNode`.
pub struct ParseView {
    pub rule: RuleKind,
    pub text: Seq<char>,
    pub inner: Seq<ParseView>,
}

/// A node of the parse tree: the rule that matched, the text that it
/// matched, and the nodes of the rules that matched inside it, in order.
#[derive(Debug, PartialEq, Eq)]
pub struct ParseNode {
    pub rule: RuleKind,
    pub text: String,
    pub inner: Vec<ParseNode>,
}

/// The model of a node of the parse tree.
pub open spec fn parse_view(node: ParseNode) -> ParseView
    decreases node,
{
    ParseView { rule: node.rule, text: node.text@, inner: parse_list_view(node.inner@) }
}

/// The models of the nodes of a list, in order.
pub open spec fn parse_list_view(nodes: Seq<ParseNode>) -> Seq<ParseView>
    decreases nodes,
{
    Seq::new(
        nodes.len(),
        |i: int|
            if 0 <= i < nodes.len() {
                parse_view(nodes[i])
            } else {
                ParseView { rule: RuleKind::Other, text: Seq::empty(), inner: Seq::empty() }
            },
    )
}

impl View for ParseNode {
    type V = ParseView;

    open spec fn view(&self) -> ParseView {
        parse_view(*self)
    }
}

/// The name that a node holds: the text of an identifier. Any other node is
/// a syntax error.
pub open spec fn identifier_of(node: ParseView) -> Result<Seq<char>, CompileErrorView> {
    if node.rule is Identifier {
        Ok(node.text)
    } else {
        Err(CompileErrorView::SyntaxError("expected identifier"@))
    }
}

/// The text that a node holds: what stands between the first and the last
/// character, the quotes, of a string. Any other node, and a string too
/// short to have both quotes, is a syntax error.
pub open spec fn string_of(node: ParseView) -> Result<Seq<char>, CompileErrorView> {
    if node.rule is Str && node.text.len() >= 2 {
        Ok(node.text.subrange(1, node.text.len() - 1))
    } else {
        Err(CompileErrorView::SyntaxError("expected string"@))
    }
}

/// The names that the first `count` nodes hold, or the first error.
pub open spec fn identifiers_of(nodes: Seq<ParseView>, count: nat) -> Result<
    Seq<Seq<char>>,
    CompileErrorView,
>
    decreases count,
{
    if count == 0 || count > nodes.len() {
        Ok(Seq::empty())
    } else {
        match identifiers_of(nodes, (count - 1) as nat) {
            Err(error) => Err(error),
            Ok(before) => match identifier_of(nodes[count - 1]) {
                Err(error) => Err(error),
                Ok(name) => Ok(before.push(name)),
            },
        }
    }
}

/// The attribute that a node of an attribute list stands for. The id
/// shorthand and the class shorthand hold a name; every other node is read
/// as a pair and holds a name and a string. A node that holds too little is
/// an internal error.
pub open spec fn attribute_of(node: ParseView) -> Result<AttributeView, CompileErrorView> {
    if node.inner.len() == 0 {
        Err(CompileErrorView::InternalInvariantError)
    } else {
        match identifier_of(node.inner[0]) {
            Err(error) => Err(error),
            Ok(name) => match node.rule {
                RuleKind::IdShorthand => Ok(AttributeView::Id(name)),
                RuleKind::ClassShorthand => Ok(AttributeView::Class(name)),
                _ => if node.inner.len() < 2 {
                    Err(CompileErrorView::InternalInvariantError)
                } else {
                    match string_of(node.inner[1]) {
                        Err(error) => Err(error),
                        Ok(value) => Ok(AttributeView::Pair(name, value)),
                    }
                },
            },
        }
    }
}

/// The attributes that the nodes from the second to the one at `count`
/// stand for, or the first error. The first node of an element's head is
/// its tag.
pub open spec fn attributes_of(head: Seq<ParseView>, count: nat) -> Result<
    Seq<AttributeView>,
    CompileErrorView,
>
    decreases count,
{
    if count <= 1 || count > head.len() {
        Ok(Seq::empty())
    } else {
        match attributes_of(head, (count - 1) as nat) {
            Err(error) => Err(error),
            Ok(before) => match attribute_of(head[count - 1]) {
                Err(error) => Err(error),
                Ok(attribute) => Ok(before.push(attribute)),
            },
        }
    }
}

/// The definition that a node stands for: its name, its parameters and,
/// last, its body, which holds the body's lines. A node that holds too
/// little is an internal error.
pub open spec fn definition_of(node: ParseView) -> Result<SyntaxView, CompileErrorView>
    decreases node, 0nat,
{
    if node.inner.len() < 2 {
        Err(CompileErrorView::InternalInvariantError)
    } else {
        match identifier_of(node.inner[0]) {
            Err(error) => Err(error),
            Ok(name) => match identifiers_of(
                node.inner.subrange(1, node.inner.len() - 1),
                (node.inner.len() - 2) as nat,
            ) {
                Err(error) => Err(error),
                Ok(parameters) => match lines_of(
                    node.inner.last().inner,
                    node.inner.last().inner.len(),
                ) {
                    Err(error) => Err(error),
                    Ok(body) => Ok(SyntaxView::Definition { name, parameters, body }),
                },
            },
        }
    }
}

/// The element that a node stands for: first its head, which holds the tag
/// and the attributes, then, if the element has nested lines, the node that
/// holds them. A node that holds too little is an internal error.
pub open spec fn element_of(node: ParseView) -> Result<SyntaxView, CompileErrorView>
    decreases node, 0nat,
{
    if node.inner.len() == 0 || node.inner[0].inner.len() == 0 {
        Err(CompileErrorView::InternalInvariantError)
    } else {
        let head = node.inner[0].inner;
        match identifier_of(head[0]) {
            Err(error) => Err(error),
            Ok(tag) => match attributes_of(head, head.len()) {
                Err(error) => Err(error),
                Ok(attributes) => if node.inner.len() < 2 {
                    Ok(SyntaxView::Element { tag, attributes, children: Seq::empty() })
                } else {
                    match lines_of(node.inner[1].inner, node.inner[1].inner.len()) {
                        Err(error) => Err(error),
                        Ok(children) => Ok(SyntaxView::Element { tag, attributes, children }),
                    }
                },
            },
        }
    }
}

/// The line that a node stands for, by its rule: a definition, an element,
/// a reference, or a string line, which holds a string. The end of the
/// input stands for the end marker, and a node of any other rule for a line
/// of an unknown kind.
pub open spec fn line_of(node: ParseView) -> Result<SyntaxView, CompileErrorView>
    decreases node, 1nat,
{
    match node.rule {
        RuleKind::Definition => definition_of(node),
        RuleKind::Element => element_of(node),
        RuleKind::Variable => reference_of(node),
        RuleKind::StringLine => if node.inner.len() == 0 {
            Err(CompileErrorView::InternalInvariantError)
        } else {
            match string_of(node.inner[0]) {
                Err(error) => Err(error),
                Ok(text) => Ok(SyntaxView::StringLiteral { text }),
            }
        },
        RuleKind::EndOfInput => Ok(SyntaxView::EndOfInput),
        _ => Ok(SyntaxView::Unexpected { text: node.text }),
    }
}

/// The lines that the first `count` nodes stand for, or the first error.
pub open spec fn lines_of(nodes: Seq<ParseView>, count: nat) -> Result<
    Seq<SyntaxView>,
    CompileErrorView,
>
    decreases nodes, count,
{
    if count == 0 || count > nodes.len() {
        Ok(Seq::empty())
    } else {
        match lines_of(nodes, (count - 1) as nat) {
            Err(error) => Err(error),
            Ok(before) => match line_of(nodes[count - 1]) {
                Err(error) => Err(error),
                Ok(line) => Ok(before.push(line)),
            },
        }
    }
}

/// The reference that a node stands for: its name and its arguments. A node
/// that holds nothing is an internal error.
pub open spec fn reference_of(node: ParseView) -> Result<SyntaxView, CompileErrorView>
    decreases node, 0nat,
{
    if node.inner.len() == 0 {
        Err(CompileErrorView::InternalInvariantError)
    } else {
        match identifier_of(node.inner[0]) {
            Err(error) => Err(error),
            Ok(name) => match arguments_of(node.inner, node.inner.len()) {
                Err(error) => Err(error),
                Ok(arguments) => Ok(SyntaxView::VariableReference { name, arguments }),
            },
        }
    }
}

/// The argument expressions that the nodes from the second to the one at
/// `count` stand for, or the first error. The first node of a reference is
/// its name.
pub open spec fn arguments_of(nodes: Seq<ParseView>, count: nat) -> Result<
    Seq<SyntaxView>,
    CompileErrorView,
>
    decreases nodes, count,
{
    if count <= 1 || count > nodes.len() {
        Ok(Seq::empty())
    } else {
        match arguments_of(nodes, (count - 1) as nat) {
            Err(error) => Err(error),
            Ok(before) => match argument_of(nodes[count - 1]) {
                Err(error) => Err(error),
                Ok(argument) => Ok(before.push(argument)),
            },
        }
    }
}

/// The argument expression that a node stands for: a string for a string
/// literal, a reference for a reference, and a node of any other rule for
/// an expression of an unknown kind.
pub open spec fn argument_of(node: ParseView) -> Result<SyntaxView, CompileErrorView>
    decreases node, 1nat,
{
    match node.rule {
        RuleKind::Str => match string_of(node) {
            Err(error) => Err(error),
            Ok(text) => Ok(SyntaxView::StringLiteral { text }),
        },
        RuleKind::Variable => reference_of(node),
        _ => Ok(SyntaxView::Unexpected { text: node.text }),
    }
}

proof fn lemma_identifiers_error(nodes: Seq<ParseView>, count: nat, more: nat)
    requires
        count <= more <= nodes.len(),
        identifiers_of(nodes, count) is Err,
    ensures
        identifiers_of(nodes, more) == identifiers_of(nodes, count),
    decreases more,
{
    if count < more {
        lemma_identifiers_error(nodes, count, (more - 1) as nat);
    }
}

proof fn lemma_attributes_error(head: Seq<ParseView>, count: nat, more: nat)
    requires
        count <= more <= head.len(),
        attributes_of(head, count) is Err,
    ensures
        attributes_of(head, more) == attributes_of(head, count),
    decreases more,
{
    if count < more {
        lemma_attributes_error(head, count, (more - 1) as nat);
    }
}

proof fn lemma_lines_error(nodes: Seq<ParseView>, count: nat, more: nat)
    requires
        count <= more <= nodes.len(),
        lines_of(nodes, count) is Err,
    ensures
        lines_of(nodes, more) == lines_of(nodes, count),
    decreases more,
{
    if count < more {
        lemma_lines_error(nodes, count, (more - 1) as nat);
    }
}

proof fn lemma_arguments_error(nodes: Seq<ParseView>, count: nat, more: nat)
    requires
        count <= more <= nodes.len(),
        arguments_of(nodes, count) is Err,
    ensures
        arguments_of(nodes, more) == arguments_of(nodes, count),
    decreases more,
{
    if count < more {
        lemma_arguments_error(nodes, count, (more - 1) as nat);
    }
}

/// The name that an identifier holds.
pub fn unwrap_identifier<'a>(identifier: &'a ParseNode) -> (name: Result<&'a str, CompileError>)
    ensures
        match identifier_of(identifier@) {
            Ok(text) => name is Ok && name->Ok_0@ == text,
            Err(error) => name is Err && name->Err_0@ == error,
        },
{
    match identifier.rule {
        RuleKind::Identifier => Ok(identifier.text.as_str()),
        _ => Err(CompileError::SyntaxError("expected identifier".to_owned())),
    }
}

/// The text of a string without its quotes.
pub fn unwrap_string<'a>(string: &'a ParseNode) -> (text: Result<&'a str, CompileError>)
    ensures
        match string_of(string@) {
            Ok(inside) => text is Ok && text->Ok_0@ == inside,
            Err(error) => text is Err && text->Err_0@ == error,
        },
{
    match string.rule {
        RuleKind::Str => {
            let quoted = string.text.as_str();
            let length = quoted.unicode_len();
            if length >= 2 {
                Ok(quoted.substring_char(1, length - 1))
            } else {
                Err(CompileError::SyntaxError("expected string".to_owned()))
            }
        },
        _ => Err(CompileError::SyntaxError("expected string".to_owned())),
    }
}

/// Reads one node of an attribute list.
pub fn read_attribute(node: &ParseNode) -> (attribute: Result<Attribute, CompileError>)
    ensures
        match attribute_of(node@) {
            Ok(read) => attribute is Ok && attribute->Ok_0@ == read,
            Err(error) => attribute is Err && attribute->Err_0@ == error,
        },
{
    if node.inner.len() == 0 {
        return Err(CompileError::InternalInvariantError);
    }
    assert(node@.inner[0] == node.inner@[0]@);
    let name = match unwrap_identifier(&node.inner[0]) {
        Ok(name) => name,
        Err(error) => {
            return Err(error);
        },
    };
    match node.rule {
        RuleKind::IdShorthand => Ok(Attribute::Id(name.to_owned())),
        RuleKind::ClassShorthand => Ok(Attribute::Class(name.to_owned())),
        _ => {
            if node.inner.len() < 2 {
                return Err(CompileError::InternalInvariantError);
            }
            assert(node@.inner[1] == node.inner@[1]@);
            match unwrap_string(&node.inner[1]) {
                Ok(value) => Ok(Attribute::Pair(name.to_owned(), value.to_owned())),
                Err(error) => Err(error),
            }
        },
    }
}

/// Reads one line.
pub fn read_line(node: &ParseNode) -> (line: Result<SyntaxNode, CompileError>)
    ensures
        match line_of(node@) {
            Ok(read) => line is Ok && line->Ok_0@ == read,
            Err(error) => line is Err && line->Err_0@ == error,
        },
    decreases node, 1nat,
{
    match node.rule {
        RuleKind::Definition => read_definition(node),
        RuleKind::Element => read_element(node),
        RuleKind::Variable => read_variable(node),
        RuleKind::StringLine => {
            if node.inner.len() == 0 {
                return Err(CompileError::InternalInvariantError);
            }
            assert(node@.inner[0] == node.inner@[0]@);
            match unwrap_string(&node.inner[0]) {
                Ok(text) => Ok(SyntaxNode::StringLiteral { text: text.to_owned() }),
                Err(error) => Err(error),
            }
        },
        RuleKind::EndOfInput => Ok(SyntaxNode::EndOfInput),
        _ => Ok(SyntaxNode::Unexpected { text: node.text.clone() }),
    }
}

/// Reads the lines that a list of nodes stands for, in order.
pub fn read_lines(nodes: &Vec<ParseNode>) -> (lines: Result<Vec<SyntaxNode>, CompileError>)
    ensures
        match lines_of(parse_list_view(nodes@), nodes@.len()) {
            Ok(read) => lines is Ok && syntax_list_view(lines->Ok_0@) == read,
            Err(error) => lines is Err && lines->Err_0@ == error,
        },
    decreases nodes, nodes.len(),
{
    let ghost views = parse_list_view(nodes@);
    let mut lines: Vec<SyntaxNode> = Vec::new();
    let mut i: usize = 0;
    assert(syntax_list_view(lines@) =~= Seq::empty());
    while i < nodes.len()
        invariant
            i <= nodes.len(),
            views == parse_list_view(nodes@),
            lines_of(views, i as nat) is Ok,
            syntax_list_view(lines@) == lines_of(views, i as nat)->Ok_0,
        decreases nodes.len() - i,
    {
        proof {
            vstd::std_specs::vec::axiom_vec_index_decreases(*nodes, i as int);
            assert(views[i as int] == nodes@[i as int]@);
        }
        let ghost before = lines@;
        match read_line(&nodes[i]) {
            Ok(line) => {
                lines.push(line);
                assert(syntax_list_view(lines@) =~= syntax_list_view(before).push(line@));
            },
            Err(error) => {
                proof {
                    lemma_lines_error(views, (i + 1) as nat, views.len());
                }
                return Err(error);
            },
        }
        i += 1;
    }
    Ok(lines)
}

/// Reads a definition.
pub fn read_definition(node: &ParseNode) -> (line: Result<SyntaxNode, CompileError>)
    ensures
        match definition_of(node@) {
            Ok(read) => line is Ok && line->Ok_0@ == read,
            Err(error) => line is Err && line->Err_0@ == error,
        },
    decreases node, 0nat,
{
    let count = node.inner.len();
    if count < 2 {
        return Err(CompileError::InternalInvariantError);
    }
    assert(node@.inner[0] == node.inner@[0]@);
    let name = match unwrap_identifier(&node.inner[0]) {
        Ok(name) => name,
        Err(error) => {
            return Err(error);
        },
    };
    let ghost between = node@.inner.subrange(1, count - 1);
    let mut arg_names: Vec<String> = Vec::new();
    let mut i: usize = 1;
    assert(strings_view(arg_names@) =~= Seq::empty());
    while i < count - 1
        invariant
            1 <= i <= count - 1,
            count == node.inner.len(),
            identifier_of(node@.inner[0]) == Ok::<Seq<char>, CompileErrorView>(name@),
            between == node@.inner.subrange(1, count - 1),
            identifiers_of(between, (i - 1) as nat) is Ok,
            strings_view(arg_names@) == identifiers_of(between, (i - 1) as nat)->Ok_0,
        decreases count - i,
    {
        assert(between[i - 1] == node.inner@[i as int]@);
        let ghost before = arg_names@;
        match unwrap_identifier(&node.inner[i]) {
            Ok(parameter) => {
                arg_names.push(parameter.to_owned());
                assert(strings_view(arg_names@) =~= strings_view(before).push(parameter@));
            },
            Err(error) => {
                proof {
                    lemma_identifiers_error(between, i as nat, between.len());
                }
                return Err(error);
            },
        }
        i += 1;
    }
    proof {
        vstd::std_specs::vec::axiom_vec_index_decreases(node.inner, count - 1);
        assert(node@.inner.last() == node.inner@[count - 1]@);
    }
    let definition_body = &node.inner[count - 1];
    match read_lines(&definition_body.inner) {
        Ok(body) => Ok(
            SyntaxNode::Definition { name: name.to_owned(), parameters: arg_names, body },
        ),
        Err(error) => Err(error),
    }
}

/// Reads an element.
pub fn read_element(node: &ParseNode) -> (line: Result<SyntaxNode, CompileError>)
    ensures
        match element_of(node@) {
            Ok(read) => line is Ok && line->Ok_0@ == read,
            Err(error) => line is Err && line->Err_0@ == error,
        },
    decreases node, 0nat,
{
    if node.inner.len() == 0 {
        return Err(CompileError::InternalInvariantError);
    }
    assert(node@.inner[0] == node.inner@[0]@);
    let head = &node.inner[0].inner;
    if head.len() == 0 {
        return Err(CompileError::InternalInvariantError);
    }
    let ghost views = parse_list_view(head@);
    assert(views[0] == head@[0]@);
    let tag = match unwrap_identifier(&head[0]) {
        Ok(tag) => tag,
        Err(error) => {
            return Err(error);
        },
    };
    let mut attributes: Vec<Attribute> = Vec::new();
    let mut i: usize = 1;
    assert(attribute_list_view(attributes@) =~= Seq::empty());
    while i < head.len()
        invariant
            1 <= i <= head.len(),
            node.inner.len() > 0,
            node@.inner[0].inner == views,
            identifier_of(views[0]) == Ok::<Seq<char>, CompileErrorView>(tag@),
            views == parse_list_view(head@),
            attributes_of(views, i as nat) is Ok,
            attribute_list_view(attributes@) == attributes_of(views, i as nat)->Ok_0,
        decreases head.len() - i,
    {
        assert(views[i as int] == head@[i as int]@);
        let ghost before = attributes@;
        match read_attribute(&head[i]) {
            Ok(attribute) => {
                attributes.push(attribute);
                assert(attribute_list_view(attributes@) =~= attribute_list_view(before).push(
                    attribute@,
                ));
            },
            Err(error) => {
                proof {
                    lemma_attributes_error(views, (i + 1) as nat, views.len());
                }
                return Err(error);
            },
        }
        i += 1;
    }
    if node.inner.len() < 2 {
        let children: Vec<SyntaxNode> = Vec::new();
        assert(syntax_list_view(children@) =~= Seq::empty());
        return Ok(SyntaxNode::Element { tag: tag.to_owned(), attributes, children });
    }
    proof {
        vstd::std_specs::vec::axiom_vec_index_decreases(node.inner, 1);
        assert(node@.inner[1] == node.inner@[1]@);
    }
    match read_lines(&node.inner[1].inner) {
        Ok(children) => Ok(SyntaxNode::Element { tag: tag.to_owned(), attributes, children }),
        Err(error) => Err(error),
    }
}

/// Reads a reference with its argument expressions.
pub fn read_variable(node: &ParseNode) -> (line: Result<SyntaxNode, CompileError>)
    ensures
        match reference_of(node@) {
            Ok(read) => line is Ok && line->Ok_0@ == read,
            Err(error) => line is Err && line->Err_0@ == error,
        },
    decreases node, 0nat,
{
    if node.inner.len() == 0 {
        return Err(CompileError::InternalInvariantError);
    }
    let ghost views = node@.inner;
    assert(views[0] == node.inner@[0]@);
    let var_name = match unwrap_identifier(&node.inner[0]) {
        Ok(name) => name,
        Err(error) => {
            return Err(error);
        },
    };
    let mut args: Vec<SyntaxNode> = Vec::new();
    let mut i: usize = 1;
    assert(syntax_list_view(args@) =~= Seq::empty());
    while i < node.inner.len()
        invariant
            1 <= i <= node.inner.len(),
            identifier_of(views[0]) == Ok::<Seq<char>, CompileErrorView>(var_name@),
            views == node@.inner,
            arguments_of(views, i as nat) is Ok,
            syntax_list_view(args@) == arguments_of(views, i as nat)->Ok_0,
        decreases node.inner.len() - i,
    {
        proof {
            vstd::std_specs::vec::axiom_vec_index_decreases(node.inner, i as int);
            assert(views[i as int] == node.inner@[i as int]@);
        }
        let ghost before = args@;
        let arg_pair = &node.inner[i];
        let argument = match arg_pair.rule {
            RuleKind::Str => match unwrap_string(arg_pair) {
                Ok(text) => Ok(SyntaxNode::StringLiteral { text: text.to_owned() }),
                Err(error) => Err(error),
            },
            RuleKind::Variable => read_variable(arg_pair),
            _ => Ok(SyntaxNode::Unexpected { text: arg_pair.text.clone() }),
        };
        assert(match argument_of(views[i as int]) {
            Ok(read) => argument is Ok && argument->Ok_0@ == read,
            Err(error) => argument is Err && argument->Err_0@ == error,
        });
        match argument {
            Ok(argument) => {
                args.push(argument);
                assert(syntax_list_view(args@) =~= syntax_list_view(before).push(argument@));
            },
            Err(error) => {
                proof {
                    lemma_arguments_error(views, (i + 1) as nat, views.len());
                }
                return Err(error);
            },
        }
        i += 1;
    }
    Ok(SyntaxNode::VariableReference { name: var_name.to_owned(), arguments: args })
}

} // verus!
