//! The expansion engine: a walk over the syntax tree that fills scope
//! frames, builds the node tree and puts arguments in the place of
//! parameters where a macro is called.
use crate::attributes::{merge_attributes, merged_attributes};
use crate::error::{CompileError, CompileErrorView};
use crate::laws::{
    extends, extends_but_at, lemma_evaluate_arguments_frames, lemma_expand_children_frames,
    lemma_expansion_leaves_no_placeholder,
};
use crate::node::{
    copy_strings, nodes_view, placeholder_free, strings_view, ElementNode, ElementView, Node,
    NodeView,
};
use crate::scope::{handle_view, open_scope, Binding, BindingView, ScopeArena, ScopeView};
use crate::semantics::{
    empty_element, evaluate_argument, evaluate_arguments, expand_children, expand_line,
    expand_program, expand_reference, expanded_lines, lemma_evaluate_arguments_error,
    lemma_expand_children_error, lemma_expanded_lines, parameter_bindings, root_of, Expanded,
};
use crate::syntax::{attribute_list_view, syntax_list_view, Attribute, SyntaxNode, SyntaxView};
use vstd::prelude::*;

verus! {

/// The engine did what `outcome` says. On success the arena is the
/// outcome's and the element under construction has the outcome's nodes
/// behind the children it had. On failure the error is the outcome's, the
/// element under construction is as it was, and so is every frame that the
/// arena had: what was built up to the error is in new frames only, which
/// nothing refers to.
pub open spec fn carried_out(
    outcome: Result<Expanded, CompileErrorView>,
    result: Result<(), CompileError>,
    stack_before: ElementView,
    stack_after: ElementView,
    scopes_before: Seq<ScopeView>,
    scopes_after: Seq<ScopeView>,
) -> bool {
    match outcome {
        Ok(expanded) => {
            &&& result is Ok
            &&& scopes_after == expanded.scopes
            &&& stack_after == stack_before.with_appended(expanded.nodes)
        },
        Err(error) => {
            &&& result is Err
            &&& result->Err_0@ == error
            &&& stack_after == stack_before
            &&& extends(scopes_before, scopes_after)
        },
    }
}

/// The engine did what the expansion of the lines `nodes` says. On success
/// that is as for one line. On failure the error is the outcome's, and the
/// element under construction and the arena are as the lines before the
/// failing one left them: the element has the nodes of those lines behind
/// the children it had, and every frame that the arena had after those
/// lines is as it was then. Of the frames that the arena had at the start,
/// only the frame `scope` may differ, by what those lines defined.
pub open spec fn children_carried_out(
    nodes: Seq<SyntaxView>,
    scope: nat,
    result: Result<(), CompileError>,
    stack_before: ElementView,
    stack_after: ElementView,
    scopes_before: Seq<ScopeView>,
    scopes_after: Seq<ScopeView>,
) -> bool {
    match expand_children(nodes, nodes.len(), scopes_before, scope) {
        Ok(expanded) => {
            &&& result is Ok
            &&& scopes_after == expanded.scopes
            &&& stack_after == stack_before.with_appended(expanded.nodes)
        },
        Err(error) => {
            let done = expand_children(
                nodes,
                expanded_lines(nodes, nodes.len(), scopes_before, scope),
                scopes_before,
                scope,
            );
            &&& result is Err
            &&& result->Err_0@ == error
            &&& done is Ok
            &&& stack_after == stack_before.with_appended(done->Ok_0.nodes)
            &&& extends(done->Ok_0.scopes, scopes_after)
            &&& extends_but_at(scopes_before, scopes_after, scope)
        },
    }
}

proof fn lemma_extends_onwards(
    first: Seq<ScopeView>,
    second: Seq<ScopeView>,
    third: Seq<ScopeView>,
    scope: nat,
)
    requires
        extends(second, third),
    ensures
        extends(first, second) ==> extends(first, third),
        extends_but_at(first, second, scope) ==> extends_but_at(first, third, scope),
        extends(first, first),
        extends(first, third) ==> extends_but_at(first, third, scope),
{
}

proof fn lemma_appended_twice(element: ElementView, first: Seq<NodeView>, second: Seq<NodeView>)
    ensures
        element.with_appended(first).with_appended(second) == element.with_appended(
            first + second,
        ),
        element.with_appended(Seq::empty()) == element,
{
    assert((element.children + first) + second =~= element.children + (first + second));
    assert(element.children + Seq::<NodeView>::empty() =~= element.children);
}

proof fn lemma_parameter_bindings_step(parameters: Seq<Seq<char>>, i: int)
    requires
        0 <= i < parameters.len(),
    ensures
        parameter_bindings(parameters.take(i + 1)) == parameter_bindings(parameters.take(i)).insert(
            parameters[i],
            BindingView {
                name: parameters[i],
                parameters: Seq::empty(),
                body: NodeView::Placeholder(parameters[i]),
            },
        ),
        parameter_bindings(parameters.take(0)) == Map::<Seq<char>, BindingView>::empty(),
{
    let shorter = parameters.take(i);
    let longer = parameters.take(i + 1);
    assert forall|name: Seq<char>| longer.contains(name) <==> (shorter.contains(name) || name
        == parameters[i]) by {
        if longer.contains(name) {
            let k = choose|k: int| 0 <= k < longer.len() && longer[k] == name;
            if k < i {
                assert(shorter[k] == name);
            }
        }
        if shorter.contains(name) {
            let k = choose|k: int| 0 <= k < shorter.len() && shorter[k] == name;
            assert(longer[k] == name);
        }
        if name == parameters[i] {
            assert(longer[i] == name);
        }
    }
    assert(parameter_bindings(longer) =~= parameter_bindings(shorter).insert(
        parameters[i],
        BindingView {
            name: parameters[i],
            parameters: Seq::empty(),
            body: NodeView::Placeholder(parameters[i]),
        },
    ));
    assert(parameter_bindings(parameters.take(0)) =~= Map::<Seq<char>, BindingView>::empty());
}

impl ElementNode {
    /// A `div` without attributes and children, with a new, empty frame of
    /// its own whose parent is `parent`.
    pub fn new_empty(scopes: &mut ScopeArena, parent: Option<usize>) -> (element: ElementNode)
        requires
            old(scopes).wf(),
            parent matches Some(p) ==> p < old(scopes)@.len(),
        ensures
            final(scopes).wf(),
            final(scopes)@ == open_scope(old(scopes)@, handle_view(parent)),
            element@ == empty_element(old(scopes)@.len()),
    {
        let scope = scopes.new_scope(parent);
        let element = ElementNode::new_element("div".to_owned(), Vec::new(), scope);
        assert(element@.attributes =~= Seq::empty());
        element
    }
}

/// Expands one line into `stack`.
pub fn process_line(line: &SyntaxNode, stack: &mut ElementNode, scopes: &mut ScopeArena) -> (result:
    Result<(), CompileError>)
    requires
        old(scopes).wf(),
        old(stack).scope < old(scopes)@.len(),
    ensures
        final(scopes).wf(),
        old(scopes)@.len() <= final(scopes)@.len(),
        final(stack).scope == old(stack).scope,
        carried_out(
            expand_line(line@, old(scopes)@, old(stack).scope as nat),
            result,
            old(stack)@,
            final(stack)@,
            old(scopes)@,
            final(scopes)@,
        ),
        line is Unexpected ==> final(scopes)@ == old(scopes)@,
    decreases line, 0nat,
{
    match line {
        SyntaxNode::Definition { name, parameters, body } => process_definition(
            name,
            parameters,
            body,
            stack,
            scopes,
        ),
        SyntaxNode::Element { tag, attributes, children } => process_element(
            tag,
            attributes,
            children,
            stack,
            scopes,
        ),
        SyntaxNode::VariableReference { name, arguments } => process_variable(
            name,
            arguments,
            stack,
            scopes,
        ),
        SyntaxNode::StringLiteral { text } => {
            process_string_line(text, stack);
            Ok(())
        },
        SyntaxNode::EndOfInput => {
            proof {
                lemma_appended_twice(stack@, Seq::empty(), Seq::empty());
            }
            Ok(())
        },
        SyntaxNode::Unexpected { text } => Err(CompileError::InternalInvariantError),
    }
}

/// Expands the lines of a body, one after the other, into `stack`.
pub fn process_children(
    children: &Vec<SyntaxNode>,
    stack: &mut ElementNode,
    scopes: &mut ScopeArena,
) -> (result: Result<(), CompileError>)
    requires
        old(scopes).wf(),
        old(stack).scope < old(scopes)@.len(),
    ensures
        final(scopes).wf(),
        old(scopes)@.len() <= final(scopes)@.len(),
        final(stack).scope == old(stack).scope,
        children_carried_out(
            syntax_list_view(children@),
            old(stack).scope as nat,
            result,
            old(stack)@,
            final(stack)@,
            old(scopes)@,
            final(scopes)@,
        ),
    decreases children, children.len(),
{
    let ghost lines = syntax_list_view(children@);
    let ghost scope = stack.scope as nat;
    proof {
        lemma_appended_twice(stack@, Seq::empty(), Seq::empty());
    }
    let mut i: usize = 0;
    while i < children.len()
        invariant
            i <= children.len(),
            scopes.wf(),
            old(scopes)@.len() <= scopes@.len(),
            stack.scope == old(stack).scope,
            stack.scope < scopes@.len(),
            old(stack).scope < old(scopes)@.len(),
            lines == syntax_list_view(children@),
            scope == old(stack).scope as nat,
            expand_children(lines, i as nat, old(scopes)@, scope) is Ok,
            scopes@ == expand_children(lines, i as nat, old(scopes)@, scope)->Ok_0.scopes,
            stack@ == old(stack)@.with_appended(
                expand_children(lines, i as nat, old(scopes)@, scope)->Ok_0.nodes,
            ),
        decreases children.len() - i,
    {
        proof {
            vstd::std_specs::vec::axiom_vec_index_decreases(*children, i as int);
        }
        let ghost before = expand_children(lines, i as nat, old(scopes)@, scope)->Ok_0;
        let ghost line = expand_line(lines[i as int], before.scopes, scope);
        match process_line(&children[i], stack, scopes) {
            Ok(()) => {},
            Err(error) => {
                proof {
                    assert(expand_children(lines, (i + 1) as nat, old(scopes)@, scope) is Err);
                    lemma_expand_children_error(
                        lines,
                        (i + 1) as nat,
                        lines.len(),
                        old(scopes)@,
                        scope,
                    );
                    lemma_expanded_lines(lines, i as nat, lines.len(), old(scopes)@, scope);
                    lemma_expand_children_frames(lines, i as nat, old(scopes)@, scope);
                    lemma_extends_onwards(old(scopes)@, before.scopes, scopes@, scope);
                }
                return Err(error);
            },
        }
        proof {
            lemma_appended_twice(old(stack)@, before.nodes, line->Ok_0.nodes);
        }
        i += 1;
    }
    Ok(())
}

/// Adds a string literal's text to `stack`.
pub fn process_string_line(text: &String, stack: &mut ElementNode)
    ensures
        final(stack)@ == old(stack)@.with_appended(seq![NodeView::Literal(text@)]),
{
    stack.append_child(Node::new_literal(text.clone()));
}

/// Expands a definition: builds its body in a frame of its own, in which
/// each parameter stands for its placeholder, and binds the name in the
/// frame of `stack`. Nothing is added to `stack`.
pub fn process_definition(
    name: &String,
    parameters: &Vec<String>,
    body: &Vec<SyntaxNode>,
    stack: &mut ElementNode,
    scopes: &mut ScopeArena,
) -> (result: Result<(), CompileError>)
    requires
        old(scopes).wf(),
        old(stack).scope < old(scopes)@.len(),
    ensures
        final(scopes).wf(),
        old(scopes)@.len() <= final(scopes)@.len(),
        final(stack).scope == old(stack).scope,
        carried_out(
            expand_line(
                SyntaxView::Definition {
                    name: name@,
                    parameters: strings_view(parameters@),
                    body: syntax_list_view(body@),
                },
                old(scopes)@,
                old(stack).scope as nat,
            ),
            result,
            old(stack)@,
            final(stack)@,
            old(scopes)@,
            final(scopes)@,
        ),
    decreases body, body.len() + 1,
{
    let ghost names = strings_view(parameters@);
    let ghost scope = stack.scope as nat;
    let mut definition_body = ElementNode::new_empty(scopes, Some(stack.scope));
    let inner = definition_body.scope;
    let mut i: usize = 0;
    proof {
        if names.len() > 0 {
            lemma_parameter_bindings_step(names, 0);
        } else {
            assert(parameter_bindings(names.take(0)) =~= Map::<Seq<char>, BindingView>::empty());
        }
        assert(scopes@ =~= old(scopes)@.push(
            ScopeView { bindings: parameter_bindings(names.take(0)), parent: Some(scope) },
        ));
    }
    while i < parameters.len()
        invariant
            i <= parameters.len(),
            scopes.wf(),
            names == strings_view(parameters@),
            inner == old(scopes)@.len(),
            scopes@ == old(scopes)@.push(
                ScopeView {
                    bindings: parameter_bindings(names.take(i as int)),
                    parent: Some(scope),
                },
            ),
        decreases parameters.len() - i,
    {
        let parameter = Binding {
            name: parameters[i].clone(),
            parameters: Vec::new(),
            body: Node::new_placeholder(parameters[i].clone()),
        };
        proof {
            lemma_parameter_bindings_step(names, i as int);
            assert(parameter@.parameters =~= Seq::empty());
        }
        scopes.define(inner, parameter);
        proof {
            assert(scopes@ =~= old(scopes)@.push(
                ScopeView {
                    bindings: parameter_bindings(names.take(i + 1)),
                    parent: Some(scope),
                },
            ));
        }
        i += 1;
    }
    proof {
        assert(names.take(parameters.len() as int) =~= names);
    }
    match process_children(body, &mut definition_body, scopes) {
        Ok(()) => {},
        Err(error) => {
            return Err(error);
        },
    }
    let variable = Binding {
        name: name.clone(),
        parameters: copy_strings(parameters),
        body: Node::Element(definition_body),
    };
    scopes.define(stack.scope, variable);
    proof {
        lemma_appended_twice(stack@, Seq::empty(), Seq::empty());
    }
    Ok(())
}

/// Expands an element: builds it with a frame of its own below the frame of
/// `stack`, expands its children into it, and adds it to `stack`.
pub fn process_element(
    tag: &String,
    attributes: &Vec<Attribute>,
    children: &Vec<SyntaxNode>,
    stack: &mut ElementNode,
    scopes: &mut ScopeArena,
) -> (result: Result<(), CompileError>)
    requires
        old(scopes).wf(),
        old(stack).scope < old(scopes)@.len(),
    ensures
        final(scopes).wf(),
        old(scopes)@.len() <= final(scopes)@.len(),
        final(stack).scope == old(stack).scope,
        carried_out(
            expand_line(
                SyntaxView::Element {
                    tag: tag@,
                    attributes: attribute_list_view(attributes@),
                    children: syntax_list_view(children@),
                },
                old(scopes)@,
                old(stack).scope as nat,
            ),
            result,
            old(stack)@,
            final(stack)@,
            old(scopes)@,
            final(scopes)@,
        ),
        merged_attributes(tag@, attribute_list_view(attributes@)) is Err ==> final(scopes)@
            == old(scopes)@,
    decreases children, children.len() + 1,
{
    let pairs = match merge_attributes(tag, attributes) {
        Ok(pairs) => pairs,
        Err(error) => {
            return Err(error);
        },
    };
    let inner = scopes.new_scope(Some(stack.scope));
    let mut new_stack = ElementNode::new_element(tag.clone(), pairs, inner);
    match process_children(children, &mut new_stack, scopes) {
        Ok(()) => {},
        Err(error) => {
            return Err(error);
        },
    }
    proof {
        assert(new_stack@.children =~= expand_children(
            syntax_list_view(children@),
            children@.len(),
            open_scope(old(scopes)@, Some(old(stack).scope as nat)),
            inner as nat,
        )->Ok_0.nodes);
    }
    stack.append_child(Node::Element(new_stack));
    Ok(())
}

/// Expands a reference: looks the name up from the frame of `stack`
/// outwards, evaluates the arguments, and adds a copy of the binding's body
/// with the arguments in the place of the parameters.
pub fn process_variable(
    name: &String,
    arguments: &Vec<SyntaxNode>,
    stack: &mut ElementNode,
    scopes: &mut ScopeArena,
) -> (result: Result<(), CompileError>)
    requires
        old(scopes).wf(),
        old(stack).scope < old(scopes)@.len(),
    ensures
        final(scopes).wf(),
        old(scopes)@.len() <= final(scopes)@.len(),
        final(stack).scope == old(stack).scope,
        carried_out(
            expand_reference(
                name@,
                syntax_list_view(arguments@),
                old(scopes)@,
                old(stack).scope as nat,
            ),
            result,
            old(stack)@,
            final(stack)@,
            old(scopes)@,
            final(scopes)@,
        ),
        crate::scope::lookup(old(scopes)@, old(stack).scope as nat, name@) is None ==> final(scopes)@
            == old(scopes)@,
    decreases arguments, arguments.len() + 1,
{
    let ghost expressions = syntax_list_view(arguments@);
    let ghost scope = stack.scope as nat;
    let variable = match scopes.lookup(stack.scope, name) {
        Some(variable) => variable,
        None => {
            return Err(CompileError::UndefinedVariableError(name.clone()));
        },
    };
    let expected = variable.parameters.len();
    let count = if expected < arguments.len() {
        expected
    } else {
        arguments.len()
    };
    let mut evaluated: Vec<Node> = Vec::new();
    let mut i: usize = 0;
    proof {
        assert(nodes_view(evaluated@) =~= Seq::empty());
    }
    while i < count
        invariant
            i <= count <= arguments.len(),
            crate::scope::lookup(old(scopes)@, scope, name@) == Some(variable@),
            expected == variable@.parameters.len(),
            count == if expected < arguments.len() {
                expected
            } else {
                arguments.len()
            },
            scopes.wf(),
            old(scopes)@.len() <= scopes@.len(),
            stack.scope == old(stack).scope,
            *stack == *old(stack),
            stack.scope < old(scopes)@.len(),
            scope == old(stack).scope as nat,
            expressions == syntax_list_view(arguments@),
            evaluate_arguments(name@, expressions, i as nat, old(scopes)@, scope) is Ok,
            scopes@ == evaluate_arguments(
                name@,
                expressions,
                i as nat,
                old(scopes)@,
                scope,
            )->Ok_0.scopes,
            evaluated@.len() == i,
            nodes_view(evaluated@) == evaluate_arguments(
                name@,
                expressions,
                i as nat,
                old(scopes)@,
                scope,
            )->Ok_0.nodes,
        decreases count - i,
    {
        proof {
            vstd::std_specs::vec::axiom_vec_index_decreases(*arguments, i as int);
        }
        let ghost before = evaluate_arguments(name@, expressions, i as nat, old(scopes)@, scope)->Ok_0;
        let ghost outcome = evaluate_argument(
            name@,
            i as nat,
            expressions[i as int],
            before.scopes,
            scope,
        );
        proof {
            assert(expressions[i as int] == arguments@[i as int]@);
            lemma_evaluate_arguments_frames(name@, expressions, i as nat, old(scopes)@, scope);
        }
        let mut wrapper = ElementNode::new_empty(scopes, Some(stack.scope));
        let ghost opened = scopes@;
        let accepted: Result<(), CompileError> = match &arguments[i] {
            SyntaxNode::StringLiteral { text } => {
                process_string_line(text, &mut wrapper);
                Ok(())
            },
            SyntaxNode::VariableReference { name: inner, arguments: inner_arguments } => {
                if inner_arguments.len() > 0 {
                    Err(CompileError::InvalidArgumentTypeError(name.clone(), i))
                } else {
                    process_variable(inner, inner_arguments, &mut wrapper, scopes)
                }
            },
            _ => Err(CompileError::InvalidArgumentTypeError(name.clone(), i)),
        };
        match accepted {
            Ok(()) => {},
            Err(error) => {
                proof {
                    assert(outcome is Err && outcome->Err_0 == error@);
                    assert(evaluate_arguments(
                        name@,
                        expressions,
                        (i + 1) as nat,
                        old(scopes)@,
                        scope,
                    ) == Err::<Expanded, CompileErrorView>(error@));
                    lemma_evaluate_arguments_error(
                        name@,
                        expressions,
                        (i + 1) as nat,
                        count as nat,
                        old(scopes)@,
                        scope,
                    );
                    assert(extends(before.scopes, opened));
                    assert(extends(opened, scopes@));
                    lemma_extends_onwards(before.scopes, opened, scopes@, scope);
                    lemma_extends_onwards(old(scopes)@, before.scopes, scopes@, scope);
                }
                return Err(error);
            },
        }
        let ghost collected = evaluated@;
        evaluated.push(Node::Element(wrapper));
        proof {
            assert(outcome is Ok);
            assert(nodes_view(evaluated@) =~= nodes_view(collected) + outcome->Ok_0.nodes);
        }
        i += 1;
    }
    if arguments.len() != expected {
        proof {
            lemma_evaluate_arguments_frames(name@, expressions, count as nat, old(scopes)@, scope);
        }
        return Err(CompileError::ArgumentCountError(name.clone(), expected, arguments.len()));
    }
    let Binding { name: _, parameters, body } = variable;
    match body {
        Node::Element(mut var_body) => {
            var_body.scope = scopes.copy_scope(var_body.scope, Some(stack.scope));
            var_body.insert_arguments(&parameters, &evaluated);
            stack.append_child(Node::Element(var_body));
        },
        other => {
            stack.append_child(other);
        },
    }
    Ok(())
}

/// The outcome of a compilation: the root element, and the arena that the
/// scope handles in the tree refer to.
#[derive(Debug)]
pub struct Document {
    pub root: ElementNode,
    pub scopes: ScopeArena,
}

/// Compiles a program: expands its lines, one after the other, into a new
/// root element. The tree that comes out holds no placeholder.
pub fn transpile(program: &Vec<SyntaxNode>) -> (result: Result<Document, CompileError>)
    ensures
        match expand_program(syntax_list_view(program@)) {
            Ok(expanded) => {
                &&& result is Ok
                &&& result->Ok_0.root@ == root_of(expanded)
                &&& result->Ok_0.scopes@ == expanded.scopes
                &&& result->Ok_0.scopes.wf()
            },
            Err(error) => result is Err && result->Err_0@ == error,
        },
        result is Ok ==> placeholder_free(NodeView::Element(result->Ok_0.root@)),
{
    let mut scopes = ScopeArena::new();
    let mut stack = ElementNode::new_empty(&mut scopes, None);
    match process_children(program, &mut stack, &mut scopes) {
        Ok(()) => {
            proof {
                let expanded = expand_program(syntax_list_view(program@))->Ok_0;
                lemma_expansion_leaves_no_placeholder(syntax_list_view(program@));
                assert(stack@.children =~= expanded.nodes);
            }
            Ok(Document { root: stack, scopes })
        },
        Err(error) => Err(error),
    }
}

} // verus!
