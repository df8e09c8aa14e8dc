//! What expansion means: for each kind of syntax node, the nodes that it
//! adds to the element under construction and what it does to the scope
//! arena, as mathematical functions.
use crate::attributes::merged_attributes;
use crate::error::CompileErrorView;
use crate::node::{substitute_element, ElementView, NodeView};
use crate::scope::{copy_scope, define, lookup, open_scope, BindingView, ScopeView};
use crate::syntax::SyntaxView;
use vstd::prelude::*;

verus! {

/// The outcome of an expansion: the arena as it is afterwards, and the nodes
/// that were added behind the children of the element under construction.
pub struct Expanded {
    pub scopes: Seq<ScopeView>,
    pub nodes: Seq<NodeView>,
}

/// The element that a body or an argument is collected in: a `div` without
/// attributes and children.
pub open spec fn empty_element(scope: nat) -> ElementView {
    ElementView { tag: "div"@, attributes: Seq::empty(), children: Seq::empty(), scope }
}

/// The bindings that the frame of a definition's body starts with: each
/// parameter is bound, without parameters of its own, to the placeholder of
/// its name.
pub open spec fn parameter_bindings(parameters: Seq<Seq<char>>) -> Map<Seq<char>, BindingView> {
    Map::new(
        |name: Seq<char>| parameters.contains(name),
        |name: Seq<char>|
            BindingView { name, parameters: Seq::empty(), body: NodeView::Placeholder(name) },
    )
}

/// A copy of the binding's body put to use at the frame `scope`. A body that
/// is an element gets a frame of its own, which binds what the body's frame
/// binds and whose parent is `scope`, and has the arguments put in the place
/// of the binding's parameters. Any other body is taken as it is.
pub open spec fn instantiate(
    binding: BindingView,
    arguments: Seq<NodeView>,
    scopes: Seq<ScopeView>,
    scope: nat,
) -> Expanded {
    match binding.body {
        NodeView::Element(body) => Expanded {
            scopes: copy_scope(scopes, body.scope, Some(scope)),
            nodes: seq![
                NodeView::Element(
                    substitute_element(
                        body.with_scope(scopes.len()),
                        binding.parameters,
                        arguments,
                    ),
                ),
            ],
        },
        _ => Expanded { scopes, nodes: seq![binding.body] },
    }
}

/// Expansion of one line into the element whose frame is `scope`.
///
/// A definition opens a frame below `scope` that binds the parameters,
/// expands its body there into an empty element, and binds its name to that
/// element in the frame `scope`; it adds no node. An element opens an empty
/// frame below `scope`, expands its children there, and adds itself. A
/// reference adds what `expand_reference` gives, a string literal its text.
/// The end marker does nothing, and a node of an unknown kind is an error.
pub open spec fn expand_line(node: SyntaxView, scopes: Seq<ScopeView>, scope: nat) -> Result<
    Expanded,
    CompileErrorView,
>
    decreases node, 0nat,
{
    match node {
        SyntaxView::Definition { name, parameters, body } => {
            let inner = scopes.len();
            let opened = scopes.push(
                ScopeView { bindings: parameter_bindings(parameters), parent: Some(scope) },
            );
            match expand_children(body, body.len(), opened, inner) {
                Err(error) => Err(error),
                Ok(built) => Ok(
                    Expanded {
                        scopes: define(
                            built.scopes,
                            scope,
                            BindingView {
                                name,
                                parameters,
                                body: NodeView::Element(
                                    empty_element(inner).with_appended(built.nodes),
                                ),
                            },
                        ),
                        nodes: Seq::empty(),
                    },
                ),
            }
        },
        SyntaxView::Element { tag, attributes, children } => {
            match merged_attributes(tag, attributes) {
                Err(error) => Err(error),
                Ok(pairs) => {
                    let inner = scopes.len();
                    match expand_children(
                        children,
                        children.len(),
                        open_scope(scopes, Some(scope)),
                        inner,
                    ) {
                        Err(error) => Err(error),
                        Ok(built) => Ok(
                            Expanded {
                                scopes: built.scopes,
                                nodes: seq![
                                    NodeView::Element(
                                        ElementView {
                                            tag,
                                            attributes: pairs,
                                            children: built.nodes,
                                            scope: inner,
                                        },
                                    ),
                                ],
                            },
                        ),
                    }
                },
            }
        },
        SyntaxView::VariableReference { name, arguments } => expand_reference(
            name,
            arguments,
            scopes,
            scope,
        ),
        SyntaxView::StringLiteral { text } => Ok(
            Expanded { scopes, nodes: seq![NodeView::Literal(text)] },
        ),
        SyntaxView::EndOfInput => Ok(Expanded { scopes, nodes: Seq::empty() }),
        SyntaxView::Unexpected { text } => Err(CompileErrorView::InternalInvariantError),
    }
}

/// Expansion of the first `count` lines of `nodes`, one after the other,
/// into the element whose frame is `scope`. The first error ends it.
pub open spec fn expand_children(
    nodes: Seq<SyntaxView>,
    count: nat,
    scopes: Seq<ScopeView>,
    scope: nat,
) -> Result<Expanded, CompileErrorView>
    decreases nodes, count,
{
    if count == 0 || count > nodes.len() {
        Ok(Expanded { scopes, nodes: Seq::empty() })
    } else {
        match expand_children(nodes, (count - 1) as nat, scopes, scope) {
            Err(error) => Err(error),
            Ok(before) => match expand_line(nodes[count - 1], before.scopes, scope) {
                Err(error) => Err(error),
                Ok(line) => Ok(
                    Expanded { scopes: line.scopes, nodes: before.nodes + line.nodes },
                ),
            },
        }
    }
}

/// Expansion of a reference to `name` with the given argument expressions.
///
/// The name is looked up from `scope` outwards; a name that is not found is
/// an error. As many arguments as the binding has parameters are evaluated
/// in order, as far as there are any. After that, a number of arguments
/// other than the number of parameters is an error. Otherwise the reference
/// adds the binding's body, instantiated with the evaluated arguments.
pub open spec fn expand_reference(
    name: Seq<char>,
    arguments: Seq<SyntaxView>,
    scopes: Seq<ScopeView>,
    scope: nat,
) -> Result<Expanded, CompileErrorView>
    decreases arguments, arguments.len() + 1,
{
    match lookup(scopes, scope, name) {
        None => Err(CompileErrorView::UndefinedVariableError(name)),
        Some(binding) => {
            let expected = binding.parameters.len();
            let count = if expected < arguments.len() {
                expected
            } else {
                arguments.len()
            };
            match evaluate_arguments(name, arguments, count, scopes, scope) {
                Err(error) => Err(error),
                Ok(evaluated) => if arguments.len() != expected {
                    Err(CompileErrorView::ArgumentCountError(name, expected, arguments.len()))
                } else {
                    Ok(instantiate(binding, evaluated.nodes, evaluated.scopes, scope))
                },
            }
        },
    }
}

/// Evaluation of the first `count` arguments of a call of `name`, one after
/// the other. The nodes of the outcome are the evaluated arguments. The
/// first error ends it.
pub open spec fn evaluate_arguments(
    name: Seq<char>,
    arguments: Seq<SyntaxView>,
    count: nat,
    scopes: Seq<ScopeView>,
    scope: nat,
) -> Result<Expanded, CompileErrorView>
    decreases arguments, count,
{
    if count == 0 || count > arguments.len() {
        Ok(Expanded { scopes, nodes: Seq::empty() })
    } else {
        match evaluate_arguments(name, arguments, (count - 1) as nat, scopes, scope) {
            Err(error) => Err(error),
            Ok(before) => match evaluate_argument(
                name,
                (count - 1) as nat,
                arguments[count - 1],
                before.scopes,
                scope,
            ) {
                Err(error) => Err(error),
                Ok(argument) => Ok(
                    Expanded { scopes: argument.scopes, nodes: before.nodes + argument.nodes },
                ),
            },
        }
    }
}

/// Evaluation of the argument at `position` of a call of `name`.
///
/// The argument is collected in an empty element with a new frame below
/// `scope`. A string literal puts its text there; a reference without
/// arguments is expanded there as any reference is. Every other expression,
/// a reference with arguments among them, is an error. The outcome holds
/// one node, the element.
pub open spec fn evaluate_argument(
    name: Seq<char>,
    position: nat,
    argument: SyntaxView,
    scopes: Seq<ScopeView>,
    scope: nat,
) -> Result<Expanded, CompileErrorView>
    decreases argument, 0nat,
{
    let wrapper = scopes.len();
    let opened = open_scope(scopes, Some(scope));
    match argument {
        SyntaxView::StringLiteral { text } => Ok(
            Expanded {
                scopes: opened,
                nodes: seq![
                    NodeView::Element(
                        empty_element(wrapper).with_appended(seq![NodeView::Literal(text)]),
                    ),
                ],
            },
        ),
        SyntaxView::VariableReference { name: inner, arguments } => if arguments.len() > 0 {
            Err(CompileErrorView::InvalidArgumentTypeError(name, position))
        } else {
            match expand_reference(inner, arguments, opened, wrapper) {
                Err(error) => Err(error),
                Ok(expanded) => Ok(
                    Expanded {
                        scopes: expanded.scopes,
                        nodes: seq![
                            NodeView::Element(
                                empty_element(wrapper).with_appended(expanded.nodes),
                            ),
                        ],
                    },
                ),
            }
        },
        _ => Err(CompileErrorView::InvalidArgumentTypeError(name, position)),
    }
}

/// Expansion of a whole program into the root element, whose frame is the
/// first of a new arena.
pub open spec fn expand_program(program: Seq<SyntaxView>) -> Result<Expanded, CompileErrorView> {
    expand_children(program, program.len(), open_scope(Seq::empty(), None), 0)
}

/// The root element of a program with the given expansion: an empty element
/// with the first frame, which holds what the program's lines added.
pub open spec fn root_of(expanded: Expanded) -> ElementView {
    empty_element(0).with_appended(expanded.nodes)
}

/// How many of the first `count` lines are expanded before the first error:
/// the length of the longest run of lines, from the first on, that expands
/// without one.
pub open spec fn expanded_lines(
    nodes: Seq<SyntaxView>,
    count: nat,
    scopes: Seq<ScopeView>,
    scope: nat,
) -> nat
    decreases count,
{
    if count == 0 || count > nodes.len() {
        0
    } else if expand_children(nodes, count, scopes, scope) is Ok {
        count
    } else {
        expanded_lines(nodes, (count - 1) as nat, scopes, scope)
    }
}

/// Where the first `done` lines expand and the line behind them fails,
/// `done` is the number of lines that are expanded before the first error.
pub proof fn lemma_expanded_lines(
    nodes: Seq<SyntaxView>,
    done: nat,
    count: nat,
    scopes: Seq<ScopeView>,
    scope: nat,
)
    requires
        done < count <= nodes.len(),
        expand_children(nodes, done, scopes, scope) is Ok,
        expand_children(nodes, done + 1, scopes, scope) is Err,
    ensures
        expanded_lines(nodes, count, scopes, scope) == done,
    decreases count,
{
    lemma_expand_children_error(nodes, done + 1, count, scopes, scope);
    if count > done + 1 {
        lemma_expanded_lines(nodes, done, (count - 1) as nat, scopes, scope);
    } else {
        assert(expanded_lines(nodes, done, scopes, scope) == done);
    }
}

/// An error among the first lines is the error of the whole list.
pub proof fn lemma_expand_children_error(
    nodes: Seq<SyntaxView>,
    count: nat,
    more: nat,
    scopes: Seq<ScopeView>,
    scope: nat,
)
    requires
        count <= more <= nodes.len(),
        expand_children(nodes, count, scopes, scope) is Err,
    ensures
        expand_children(nodes, more, scopes, scope) == expand_children(nodes, count, scopes, scope),
    decreases more,
{
    if count < more {
        lemma_expand_children_error(nodes, count, (more - 1) as nat, scopes, scope);
    }
}

/// An error among the first arguments is the error of the whole list.
pub proof fn lemma_evaluate_arguments_error(
    name: Seq<char>,
    arguments: Seq<SyntaxView>,
    count: nat,
    more: nat,
    scopes: Seq<ScopeView>,
    scope: nat,
)
    requires
        count <= more <= arguments.len(),
        evaluate_arguments(name, arguments, count, scopes, scope) is Err,
    ensures
        evaluate_arguments(name, arguments, more, scopes, scope) == evaluate_arguments(
            name,
            arguments,
            count,
            scopes,
            scope,
        ),
    decreases more,
{
    if count < more {
        lemma_evaluate_arguments_error(name, arguments, count, (more - 1) as nat, scopes, scope);
    }
}

} // verus!
