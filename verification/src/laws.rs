//! What holds of every expansion: frames that exist stay as they are but
//! for the definitions made in them, and no placeholder leaves the macro
//! whose parameter it stands for.
use crate::error::CompileErrorView;
use crate::html::render_outcome;
use crate::node::{
    element_placeholders_within, lemma_position, placeholder_free, placeholders_within, position,
    substitute_element, substitute_node, ElementView, NodeView,
};
use crate::scope::{define, encloses, lookup, open_scope, BindingView, ScopeView};
use crate::semantics::{
    empty_element, evaluate_argument, evaluate_arguments, expand_children, expand_line,
    expand_program, expand_reference, parameter_bindings, root_of, Expanded,
};
use crate::syntax::SyntaxView;
use vstd::prelude::*;

verus! {

/// `after` holds every frame of `before`, unchanged, and may hold more.
pub open spec fn extends(before: Seq<ScopeView>, after: Seq<ScopeView>) -> bool {
    &&& before.len() <= after.len()
    &&& forall|i: int| 0 <= i < before.len() ==> after[i] == before[i]
}

/// `after` holds every frame of `before` and may hold more. The frames of
/// `before` are unchanged but for the frame `scope`, which has kept its
/// parent.
pub open spec fn extends_but_at(before: Seq<ScopeView>, after: Seq<ScopeView>, scope: nat) -> bool {
    &&& before.len() <= after.len()
    &&& forall|i: int| 0 <= i < before.len() && i != scope ==> after[i] == before[i]
    &&& scope < before.len() ==> after[scope as int].parent == before[scope as int].parent
}

/// Expanding a line into the frame `scope` leaves every other frame that
/// exists as it is. Only a definition changes the frame `scope` itself.
pub proof fn lemma_expand_line_frames(node: SyntaxView, scopes: Seq<ScopeView>, scope: nat)
    requires
        scope < scopes.len(),
        expand_line(node, scopes, scope) is Ok,
    ensures
        extends_but_at(scopes, expand_line(node, scopes, scope)->Ok_0.scopes, scope),
        !(node is Definition) ==> extends(scopes, expand_line(node, scopes, scope)->Ok_0.scopes),
    decreases node, 0nat,
{
    match node {
        SyntaxView::Definition { name, parameters, body } => {
            let opened = scopes.push(
                ScopeView { bindings: parameter_bindings(parameters), parent: Some(scope) },
            );
            lemma_expand_children_frames(body, body.len(), opened, scopes.len());
        },
        SyntaxView::Element { tag, attributes, children } => {
            lemma_expand_children_frames(
                children,
                children.len(),
                open_scope(scopes, Some(scope)),
                scopes.len(),
            );
        },
        SyntaxView::VariableReference { name, arguments } => {
            lemma_expand_reference_frames(name, arguments, scopes, scope);
        },
        _ => {},
    }
}

/// Expanding lines into the frame `scope` leaves every other frame that
/// exists as it is.
pub proof fn lemma_expand_children_frames(
    nodes: Seq<SyntaxView>,
    count: nat,
    scopes: Seq<ScopeView>,
    scope: nat,
)
    requires
        scope < scopes.len(),
        expand_children(nodes, count, scopes, scope) is Ok,
    ensures
        extends_but_at(scopes, expand_children(nodes, count, scopes, scope)->Ok_0.scopes, scope),
    decreases nodes, count,
{
    if count == 0 || count > nodes.len() {
    } else {
        lemma_expand_children_frames(nodes, (count - 1) as nat, scopes, scope);
        let before = expand_children(nodes, (count - 1) as nat, scopes, scope)->Ok_0;
        lemma_expand_line_frames(nodes[count - 1], before.scopes, scope);
    }
}

/// Expanding a reference changes no frame that exists.
pub proof fn lemma_expand_reference_frames(
    name: Seq<char>,
    arguments: Seq<SyntaxView>,
    scopes: Seq<ScopeView>,
    scope: nat,
)
    requires
        expand_reference(name, arguments, scopes, scope) is Ok,
    ensures
        extends(scopes, expand_reference(name, arguments, scopes, scope)->Ok_0.scopes),
    decreases arguments, arguments.len() + 1,
{
    lemma_evaluate_arguments_frames(name, arguments, arguments.len(), scopes, scope);
}

/// Evaluating arguments changes no frame that exists.
pub proof fn lemma_evaluate_arguments_frames(
    name: Seq<char>,
    arguments: Seq<SyntaxView>,
    count: nat,
    scopes: Seq<ScopeView>,
    scope: nat,
)
    requires
        evaluate_arguments(name, arguments, count, scopes, scope) is Ok,
    ensures
        extends(scopes, evaluate_arguments(name, arguments, count, scopes, scope)->Ok_0.scopes),
    decreases arguments, count,
{
    if count == 0 || count > arguments.len() {
    } else {
        lemma_evaluate_arguments_frames(name, arguments, (count - 1) as nat, scopes, scope);
        let before = evaluate_arguments(name, arguments, (count - 1) as nat, scopes, scope)->Ok_0;
        lemma_evaluate_argument_frames(
            name,
            (count - 1) as nat,
            arguments[count - 1],
            before.scopes,
            scope,
        );
    }
}

/// Evaluating an argument changes no frame that exists.
pub proof fn lemma_evaluate_argument_frames(
    name: Seq<char>,
    position: nat,
    argument: SyntaxView,
    scopes: Seq<ScopeView>,
    scope: nat,
)
    requires
        evaluate_argument(name, position, argument, scopes, scope) is Ok,
    ensures
        extends(scopes, evaluate_argument(name, position, argument, scopes, scope)->Ok_0.scopes),
    decreases argument, 0nat,
{
    match argument {
        SyntaxView::VariableReference { name: inner, arguments } => {
            lemma_expand_reference_frames(
                inner,
                arguments,
                open_scope(scopes, Some(scope)),
                scopes.len(),
            );
        },
        _ => {},
    }
}

/// The names that a placeholder may carry in the body of a binding that is
/// closed over `allowed`: in a body that is an element, those of `allowed`
/// and of the binding's own parameters, which a call replaces; in any other
/// body, which a call takes as it is, those of `allowed`.
pub open spec fn allowed_in_body(binding: BindingView, allowed: Set<Seq<char>>) -> Set<Seq<char>> {
    if binding.body is Element {
        allowed.union(binding.parameters.to_set())
    } else {
        allowed
    }
}

/// Every binding of the frame is closed over `allowed`.
pub open spec fn frame_closed(frame: ScopeView, allowed: Set<Seq<char>>) -> bool {
    forall|name: Seq<char>|
        frame.bindings.contains_key(name) ==> placeholders_within(
            (#[trigger] frame.bindings[name]).body,
            allowed_in_body(frame.bindings[name], allowed),
        )
}

/// The frame `scope` and every frame that encloses it are closed, and each
/// of them was made after its parent.
pub open spec fn chain_closed(scopes: Seq<ScopeView>, scope: nat, allowed: Set<Seq<char>>) -> bool
    decreases scope,
{
    &&& scope < scopes.len()
    &&& frame_closed(scopes[scope as int], allowed)
    &&& match scopes[scope as int].parent {
        Some(p) => p < scope && chain_closed(scopes, p, allowed),
        None => true,
    }
}

/// All the nodes carry only placeholders with a name out of `allowed`.
pub open spec fn all_within(nodes: Seq<NodeView>, allowed: Set<Seq<char>>) -> bool {
    forall|i: int| 0 <= i < nodes.len() ==> placeholders_within(#[trigger] nodes[i], allowed)
}

proof fn lemma_within_monotone(node: NodeView, small: Set<Seq<char>>, large: Set<Seq<char>>)
    requires
        placeholders_within(node, small),
        small.subset_of(large),
    ensures
        placeholders_within(node, large),
    decreases node,
{
    match node {
        NodeView::Element(e) => {
            assert forall|i: int| 0 <= i < e.children.len() implies placeholders_within(
                #[trigger] e.children[i],
                large,
            ) by {
                lemma_within_monotone(e.children[i], small, large);
            }
        },
        _ => {},
    }
}

proof fn lemma_frame_closed_monotone(
    frame: ScopeView,
    small: Set<Seq<char>>,
    large: Set<Seq<char>>,
)
    requires
        frame_closed(frame, small),
        small.subset_of(large),
    ensures
        frame_closed(frame, large),
{
    assert forall|name: Seq<char>| frame.bindings.contains_key(name) implies placeholders_within(
        (#[trigger] frame.bindings[name]).body,
        allowed_in_body(frame.bindings[name], large),
    ) by {
        lemma_within_monotone(
            frame.bindings[name].body,
            allowed_in_body(frame.bindings[name], small),
            allowed_in_body(frame.bindings[name], large),
        );
    }
}

proof fn lemma_chain_closed_monotone(
    scopes: Seq<ScopeView>,
    scope: nat,
    small: Set<Seq<char>>,
    large: Set<Seq<char>>,
)
    requires
        chain_closed(scopes, scope, small),
        small.subset_of(large),
    ensures
        chain_closed(scopes, scope, large),
    decreases scope,
{
    lemma_frame_closed_monotone(scopes[scope as int], small, large);
    match scopes[scope as int].parent {
        Some(p) => {
            lemma_chain_closed_monotone(scopes, p, small, large);
        },
        None => {},
    }
}

proof fn lemma_chain_closed_stable(
    before: Seq<ScopeView>,
    after: Seq<ScopeView>,
    scope: nat,
    allowed: Set<Seq<char>>,
)
    requires
        chain_closed(before, scope, allowed),
        before.len() <= after.len(),
        forall|i: int| 0 <= i <= scope ==> after[i] == before[i],
    ensures
        chain_closed(after, scope, allowed),
    decreases scope,
{
    match before[scope as int].parent {
        Some(p) => {
            lemma_chain_closed_stable(before, after, p, allowed);
        },
        None => {},
    }
}

proof fn lemma_lookup_closed(
    scopes: Seq<ScopeView>,
    scope: nat,
    name: Seq<char>,
    allowed: Set<Seq<char>>,
)
    requires
        chain_closed(scopes, scope, allowed),
        lookup(scopes, scope, name) is Some,
    ensures
        placeholders_within(
            lookup(scopes, scope, name)->Some_0.body,
            allowed_in_body(lookup(scopes, scope, name)->Some_0, allowed),
        ),
    decreases scope,
{
    if scopes[scope as int].bindings.contains_key(name) {
    } else {
        match scopes[scope as int].parent {
            Some(p) => {
                lemma_lookup_closed(scopes, p, name, allowed);
            },
            None => {},
        }
    }
}

proof fn lemma_substitute_within(
    node: NodeView,
    names: Seq<Seq<char>>,
    arguments: Seq<NodeView>,
    allowed: Set<Seq<char>>,
)
    requires
        placeholders_within(node, allowed.union(names.to_set())),
        names.len() <= arguments.len(),
        all_within(arguments, allowed),
    ensures
        placeholders_within(substitute_node(node, names, arguments), allowed),
    decreases node,
{
    match node {
        NodeView::Element(e) => {
            lemma_substitute_element_within(e, names, arguments, allowed);
        },
        NodeView::Literal(_) => {},
        NodeView::Placeholder(name) => {
            lemma_position(names, name);
            match position(names, name) {
                Some(i) => {},
                None => {
                    if names.to_set().contains(name) {
                        let j = choose|j: int| 0 <= j < names.len() && names[j] == name;
                        assert(names[j] == name);
                    }
                },
            }
        },
    }
}

proof fn lemma_substitute_element_within(
    element: ElementView,
    names: Seq<Seq<char>>,
    arguments: Seq<NodeView>,
    allowed: Set<Seq<char>>,
)
    requires
        element_placeholders_within(element, allowed.union(names.to_set())),
        names.len() <= arguments.len(),
        all_within(arguments, allowed),
    ensures
        element_placeholders_within(substitute_element(element, names, arguments), allowed),
    decreases element,
{
    let result = substitute_element(element, names, arguments);
    assert forall|i: int| 0 <= i < result.children.len() implies placeholders_within(
        #[trigger] result.children[i],
        allowed,
    ) by {
        lemma_substitute_within(element.children[i], names, arguments, allowed);
    }
}

proof fn lemma_within_nothing(node: NodeView)
    requires
        placeholders_within(node, Set::empty()),
    ensures
        placeholder_free(node),
    decreases node,
{
    match node {
        NodeView::Element(e) => {
            assert forall|i: int| 0 <= i < e.children.len() implies placeholder_free(
                #[trigger] e.children[i],
            ) by {
                lemma_within_nothing(e.children[i]);
            }
        },
        _ => {},
    }
}

/// Where every binding in reach of the frame `scope` is closed over
/// `allowed`, a line expanded into that frame adds only nodes whose
/// placeholders carry a name out of `allowed`, and leaves the bindings in
/// reach closed.
pub proof fn lemma_expand_line_closed(
    node: SyntaxView,
    scopes: Seq<ScopeView>,
    scope: nat,
    allowed: Set<Seq<char>>,
)
    requires
        chain_closed(scopes, scope, allowed),
        expand_line(node, scopes, scope) is Ok,
    ensures
        chain_closed(expand_line(node, scopes, scope)->Ok_0.scopes, scope, allowed),
        all_within(expand_line(node, scopes, scope)->Ok_0.nodes, allowed),
    decreases node, 0nat,
{
    let expanded = expand_line(node, scopes, scope)->Ok_0;
    lemma_expand_line_frames(node, scopes, scope);
    match node {
        SyntaxView::Definition { name, parameters, body } => {
            let inner = scopes.len();
            let opened = scopes.push(
                ScopeView { bindings: parameter_bindings(parameters), parent: Some(scope) },
            );
            let wider = allowed.union(parameters.to_set());
            lemma_chain_closed_monotone(scopes, scope, allowed, wider);
            lemma_chain_closed_stable(scopes, opened, scope, wider);
            assert(frame_closed(opened[inner as int], wider));
            assert(chain_closed(opened, inner, wider));
            lemma_expand_children_closed(body, body.len(), opened, inner, wider);
            lemma_expand_children_frames(body, body.len(), opened, inner);
            let built = expand_children(body, body.len(), opened, inner)->Ok_0;
            let binding = BindingView {
                name,
                parameters,
                body: NodeView::Element(empty_element(inner).with_appended(built.nodes)),
            };
            assert(empty_element(inner).with_appended(built.nodes).children =~= built.nodes);
            assert(placeholders_within(binding.body, wider));
            lemma_chain_closed_stable(scopes, built.scopes, scope, allowed);
            let defined = define(built.scopes, scope, binding);
            assert(frame_closed(defined[scope as int], allowed)) by {
                assert forall|other: Seq<char>|
                    defined[scope as int].bindings.contains_key(other) implies placeholders_within(
                    (#[trigger] defined[scope as int].bindings[other]).body,
                    allowed_in_body(defined[scope as int].bindings[other], allowed),
                ) by {
                    if other != name {
                        assert(built.scopes[scope as int].bindings.contains_key(other));
                        assert(defined[scope as int].bindings[other]
                            == built.scopes[scope as int].bindings[other]);
                    }
                }
            }
            match scopes[scope as int].parent {
                Some(p) => {
                    lemma_chain_closed_stable(built.scopes, defined, p, allowed);
                },
                None => {},
            }
        },
        SyntaxView::Element { tag, attributes, children } => {
            let inner = scopes.len();
            let opened = open_scope(scopes, Some(scope));
            lemma_chain_closed_stable(scopes, opened, scope, allowed);
            assert(frame_closed(opened[inner as int], allowed));
            lemma_expand_children_closed(children, children.len(), opened, inner, allowed);
            lemma_chain_closed_stable(scopes, expanded.scopes, scope, allowed);
        },
        SyntaxView::VariableReference { name, arguments } => {
            lemma_expand_reference_closed(name, arguments, scopes, scope, allowed);
        },
        _ => {},
    }
}

/// The same of the first `count` lines of a list.
pub proof fn lemma_expand_children_closed(
    nodes: Seq<SyntaxView>,
    count: nat,
    scopes: Seq<ScopeView>,
    scope: nat,
    allowed: Set<Seq<char>>,
)
    requires
        chain_closed(scopes, scope, allowed),
        expand_children(nodes, count, scopes, scope) is Ok,
    ensures
        chain_closed(expand_children(nodes, count, scopes, scope)->Ok_0.scopes, scope, allowed),
        all_within(expand_children(nodes, count, scopes, scope)->Ok_0.nodes, allowed),
    decreases nodes, count,
{
    if count == 0 || count > nodes.len() {
    } else {
        lemma_expand_children_closed(nodes, (count - 1) as nat, scopes, scope, allowed);
        let before = expand_children(nodes, (count - 1) as nat, scopes, scope)->Ok_0;
        lemma_expand_line_closed(nodes[count - 1], before.scopes, scope, allowed);
    }
}

/// The same of a reference.
pub proof fn lemma_expand_reference_closed(
    name: Seq<char>,
    arguments: Seq<SyntaxView>,
    scopes: Seq<ScopeView>,
    scope: nat,
    allowed: Set<Seq<char>>,
)
    requires
        chain_closed(scopes, scope, allowed),
        expand_reference(name, arguments, scopes, scope) is Ok,
    ensures
        chain_closed(expand_reference(name, arguments, scopes, scope)->Ok_0.scopes, scope, allowed),
        all_within(expand_reference(name, arguments, scopes, scope)->Ok_0.nodes, allowed),
    decreases arguments, arguments.len() + 1,
{
    let binding = lookup(scopes, scope, name)->Some_0;
    let expanded = expand_reference(name, arguments, scopes, scope)->Ok_0;
    lemma_lookup_closed(scopes, scope, name, allowed);
    lemma_evaluate_arguments_closed(name, arguments, arguments.len(), scopes, scope, allowed);
    lemma_expand_reference_frames(name, arguments, scopes, scope);
    lemma_chain_closed_stable(scopes, expanded.scopes, scope, allowed);
    let evaluated = evaluate_arguments(name, arguments, arguments.len(), scopes, scope)->Ok_0;
    lemma_evaluate_arguments_count(name, arguments, arguments.len(), scopes, scope);
    match binding.body {
        NodeView::Element(body) => {
            lemma_substitute_element_within(
                body.with_scope(evaluated.scopes.len()),
                binding.parameters,
                evaluated.nodes,
                allowed,
            );
        },
        _ => {},
    }
}

/// Evaluating `count` arguments gives `count` nodes.
pub proof fn lemma_evaluate_arguments_count(
    name: Seq<char>,
    arguments: Seq<SyntaxView>,
    count: nat,
    scopes: Seq<ScopeView>,
    scope: nat,
)
    requires
        count <= arguments.len(),
        evaluate_arguments(name, arguments, count, scopes, scope) is Ok,
    ensures
        evaluate_arguments(name, arguments, count, scopes, scope)->Ok_0.nodes.len() == count,
    decreases count,
{
    if count > 0 {
        lemma_evaluate_arguments_count(name, arguments, (count - 1) as nat, scopes, scope);
        let before = evaluate_arguments(name, arguments, (count - 1) as nat, scopes, scope)->Ok_0;
        lemma_evaluate_argument_single(
            name,
            (count - 1) as nat,
            arguments[count - 1],
            before.scopes,
            scope,
        );
    }
}

/// Evaluating an argument gives one node, an element.
pub proof fn lemma_evaluate_argument_single(
    name: Seq<char>,
    position: nat,
    argument: SyntaxView,
    scopes: Seq<ScopeView>,
    scope: nat,
)
    requires
        evaluate_argument(name, position, argument, scopes, scope) is Ok,
    ensures
        evaluate_argument(name, position, argument, scopes, scope)->Ok_0.nodes.len() == 1,
        evaluate_argument(name, position, argument, scopes, scope)->Ok_0.nodes[0] is Element,
{
}

/// The same of the first `count` arguments of a call.
pub proof fn lemma_evaluate_arguments_closed(
    name: Seq<char>,
    arguments: Seq<SyntaxView>,
    count: nat,
    scopes: Seq<ScopeView>,
    scope: nat,
    allowed: Set<Seq<char>>,
)
    requires
        chain_closed(scopes, scope, allowed),
        evaluate_arguments(name, arguments, count, scopes, scope) is Ok,
    ensures
        chain_closed(
            evaluate_arguments(name, arguments, count, scopes, scope)->Ok_0.scopes,
            scope,
            allowed,
        ),
        all_within(evaluate_arguments(name, arguments, count, scopes, scope)->Ok_0.nodes, allowed),
    decreases arguments, count,
{
    if count == 0 || count > arguments.len() {
    } else {
        lemma_evaluate_arguments_closed(name, arguments, (count - 1) as nat, scopes, scope, allowed);
        let before = evaluate_arguments(name, arguments, (count - 1) as nat, scopes, scope)->Ok_0;
        lemma_evaluate_argument_closed(
            name,
            (count - 1) as nat,
            arguments[count - 1],
            before.scopes,
            scope,
            allowed,
        );
    }
}

/// The same of one argument.
pub proof fn lemma_evaluate_argument_closed(
    name: Seq<char>,
    position: nat,
    argument: SyntaxView,
    scopes: Seq<ScopeView>,
    scope: nat,
    allowed: Set<Seq<char>>,
)
    requires
        chain_closed(scopes, scope, allowed),
        evaluate_argument(name, position, argument, scopes, scope) is Ok,
    ensures
        chain_closed(
            evaluate_argument(name, position, argument, scopes, scope)->Ok_0.scopes,
            scope,
            allowed,
        ),
        all_within(
            evaluate_argument(name, position, argument, scopes, scope)->Ok_0.nodes,
            allowed,
        ),
    decreases argument, 0nat,
{
    let wrapper = scopes.len();
    let opened = open_scope(scopes, Some(scope));
    let evaluated = evaluate_argument(name, position, argument, scopes, scope)->Ok_0;
    lemma_evaluate_argument_frames(name, position, argument, scopes, scope);
    lemma_chain_closed_stable(scopes, evaluated.scopes, scope, allowed);
    match argument {
        SyntaxView::StringLiteral { text } => {
            let element = empty_element(wrapper).with_appended(seq![NodeView::Literal(text)]);
            assert(element.children =~= seq![NodeView::Literal(text)]);
            assert forall|i: int| 0 <= i < element.children.len() implies placeholders_within(
                #[trigger] element.children[i],
                allowed,
            ) by {
                assert(element.children[i] == NodeView::Literal(text));
            }
            assert(placeholders_within(NodeView::Element(element), allowed));
        },
        SyntaxView::VariableReference { name: inner, arguments } => {
            lemma_chain_closed_stable(scopes, opened, scope, allowed);
            assert(frame_closed(opened[wrapper as int], allowed));
            lemma_expand_reference_closed(inner, arguments, opened, wrapper, allowed);
            let expanded = expand_reference(inner, arguments, opened, wrapper)->Ok_0;
            let element = empty_element(wrapper).with_appended(expanded.nodes);
            assert(element.children =~= expanded.nodes);
            assert(placeholders_within(NodeView::Element(element), allowed));
        },
        _ => {},
    }
}

/// No placeholder is left in what a program expands to.
pub proof fn lemma_expansion_leaves_no_placeholder(program: Seq<SyntaxView>)
    requires
        expand_program(program) is Ok,
    ensures
        forall|i: int|
            0 <= i < expand_program(program)->Ok_0.nodes.len() ==> placeholder_free(
                #[trigger] expand_program(program)->Ok_0.nodes[i],
            ),
{
    let scopes = open_scope(Seq::empty(), None);
    assert(frame_closed(scopes[0], Set::empty()));
    lemma_expand_children_closed(program, program.len(), scopes, 0, Set::empty());
    let expanded = expand_program(program)->Ok_0;
    assert forall|i: int| 0 <= i < expanded.nodes.len() implies placeholder_free(
        #[trigger] expanded.nodes[i],
    ) by {
        lemma_within_nothing(expanded.nodes[i]);
    }
}

/// The renderer accepts what a program expands to.
pub proof fn lemma_expansion_renders(program: Seq<SyntaxView>)
    requires
        expand_program(program) is Ok,
    ensures
        render_outcome(root_of(expand_program(program)->Ok_0)) is Ok,
{
    lemma_expansion_leaves_no_placeholder(program);
    let expanded = expand_program(program)->Ok_0;
    assert(root_of(expanded).children =~= expanded.nodes);
}

/// A lookup reads only the frame it starts from and the frames made before
/// that one.
pub proof fn lemma_lookup_reads_earlier_frames(
    before: Seq<ScopeView>,
    after: Seq<ScopeView>,
    scope: nat,
    name: Seq<char>,
)
    requires
        scope < before.len() <= after.len(),
        forall|i: int| 0 <= i <= scope ==> after[i] == before[i],
    ensures
        lookup(after, scope, name) == lookup(before, scope, name),
    decreases scope,
{
    if !before[scope as int].bindings.contains_key(name) {
        match before[scope as int].parent {
            Some(p) => {
                if p < scope {
                    lemma_lookup_reads_earlier_frames(before, after, p, name);
                }
            },
            None => {},
        }
    }
}

/// Where an arena holds every frame of an earlier one unchanged, every name
/// resolves from each of those frames to what it resolved to before. So it
/// is after a line that failed.
pub proof fn lemma_extension_keeps_bindings(
    before: Seq<ScopeView>,
    after: Seq<ScopeView>,
    from: nat,
    name: Seq<char>,
)
    requires
        extends(before, after),
        from < before.len(),
    ensures
        lookup(after, from, name) == lookup(before, from, name),
{
    lemma_lookup_reads_earlier_frames(before, after, from, name);
}

/// Shadowing, inside: from the frame in which a name was defined, the name
/// resolves to that definition, whatever an enclosing frame binds it to.
pub proof fn lemma_define_hides_outer(scopes: Seq<ScopeView>, scope: nat, binding: BindingView)
    requires
        scope < scopes.len(),
    ensures
        lookup(define(scopes, scope, binding), scope, binding.name) == Some(binding),
{
}

/// Shadowing, outside: a definition in the frame `scope` changes nothing of
/// what any name resolves to from a frame that `scope` does not enclose.
pub proof fn lemma_define_is_local(
    scopes: Seq<ScopeView>,
    scope: nat,
    binding: BindingView,
    other: nat,
    name: Seq<char>,
)
    requires
        scope < scopes.len(),
        !encloses(scopes, scope, other),
    ensures
        lookup(define(scopes, scope, binding), other, name) == lookup(scopes, other, name),
    decreases other,
{
    if other < scopes.len() && !scopes[other as int].bindings.contains_key(name) {
        match scopes[other as int].parent {
            Some(p) => {
                if p < other {
                    lemma_define_is_local(scopes, scope, binding, p, name);
                }
            },
            None => {},
        }
    }
}

/// No frame encloses a frame that was made before it.
pub proof fn lemma_encloses_later(scopes: Seq<ScopeView>, ancestor: nat, scope: nat)
    requires
        encloses(scopes, ancestor, scope),
    ensures
        ancestor <= scope,
    decreases scope,
{
    if ancestor != scope {
        lemma_encloses_later(scopes, ancestor, scopes[scope as int].parent->Some_0);
    }
}

/// A definition changes nothing of what any other name resolves to, from
/// any frame.
pub proof fn lemma_define_keeps_other_names(
    scopes: Seq<ScopeView>,
    scope: nat,
    binding: BindingView,
    other: nat,
    name: Seq<char>,
)
    requires
        scope < scopes.len(),
        name != binding.name,
    ensures
        lookup(define(scopes, scope, binding), other, name) == lookup(scopes, other, name),
    decreases other,
{
    if other < scopes.len() && !scopes[other as int].bindings.contains_key(name) {
        match scopes[other as int].parent {
            Some(p) => {
                if p < other {
                    lemma_define_keeps_other_names(scopes, scope, binding, p, name);
                }
            },
            None => {},
        }
    }
}

/// What is defined inside an element, a reference or an argument stays
/// inside: once a line that is no definition has been expanded into the
/// frame `scope`, every name resolves from `scope`, and from each frame
/// made before it, to what it resolved to before.
pub proof fn lemma_inner_definitions_stay_inside(
    node: SyntaxView,
    scopes: Seq<ScopeView>,
    scope: nat,
    from: nat,
    name: Seq<char>,
)
    requires
        !(node is Definition),
        from <= scope < scopes.len(),
        expand_line(node, scopes, scope) is Ok,
    ensures
        lookup(expand_line(node, scopes, scope)->Ok_0.scopes, from, name) == lookup(
            scopes,
            from,
            name,
        ),
{
    lemma_expand_line_frames(node, scopes, scope);
    lemma_lookup_reads_earlier_frames(
        scopes,
        expand_line(node, scopes, scope)->Ok_0.scopes,
        from,
        name,
    );
}

/// A definition binds its name, with its parameters, in the frame it was
/// expanded into. It changes nothing of what another name resolves to from
/// that frame, and nothing at all of what is seen from a frame made before.
pub proof fn lemma_definition_binds_its_name(
    node: SyntaxView,
    scopes: Seq<ScopeView>,
    scope: nat,
    from: nat,
    other: Seq<char>,
)
    requires
        node is Definition,
        from <= scope < scopes.len(),
        expand_line(node, scopes, scope) is Ok,
    ensures
        lookup(expand_line(node, scopes, scope)->Ok_0.scopes, scope, node->Definition_name) is Some,
        lookup(expand_line(node, scopes, scope)->Ok_0.scopes, scope, node->Definition_name)->Some_0.parameters
            == node->Definition_parameters,
        other != node->Definition_name || from < scope ==> lookup(
            expand_line(node, scopes, scope)->Ok_0.scopes,
            from,
            other,
        ) == lookup(scopes, from, other),
{
    let name = node->Definition_name;
    let parameters = node->Definition_parameters;
    let body = node->body;
    let inner = scopes.len();
    let opened = scopes.push(
        ScopeView { bindings: parameter_bindings(parameters), parent: Some(scope) },
    );
    lemma_expand_children_frames(body, body.len(), opened, inner);
    let built = expand_children(body, body.len(), opened, inner)->Ok_0;
    let binding = BindingView {
        name,
        parameters,
        body: NodeView::Element(empty_element(inner).with_appended(built.nodes)),
    };
    lemma_lookup_reads_earlier_frames(scopes, built.scopes, from, other);
    if other != name {
        lemma_define_keeps_other_names(built.scopes, scope, binding, from, other);
    } else if from < scope {
        if encloses(built.scopes, scope, from) {
            lemma_encloses_later(built.scopes, scope, from);
        }
        lemma_define_is_local(built.scopes, scope, binding, from, other);
    }
}

/// Arity: a reference with a number of arguments other than the number of
/// the binding's parameters is rejected. For a variable, which has no
/// parameters, that is every reference with an argument.
pub proof fn lemma_wrong_argument_count_is_rejected(
    name: Seq<char>,
    arguments: Seq<SyntaxView>,
    scopes: Seq<ScopeView>,
    scope: nat,
)
    requires
        lookup(scopes, scope, name) is Some,
        arguments.len() != lookup(scopes, scope, name)->Some_0.parameters.len(),
    ensures
        expand_reference(name, arguments, scopes, scope) is Err,
{
}

/// Arity: where the arguments that are evaluated are all accepted, the
/// error of a reference with the wrong number of arguments names the
/// binding, the number of its parameters and the number of arguments given.
pub proof fn lemma_argument_count_error(
    name: Seq<char>,
    arguments: Seq<SyntaxView>,
    scopes: Seq<ScopeView>,
    scope: nat,
)
    requires
        lookup(scopes, scope, name) is Some,
        arguments.len() != lookup(scopes, scope, name)->Some_0.parameters.len(),
        evaluate_arguments(
            name,
            arguments,
            if lookup(scopes, scope, name)->Some_0.parameters.len() < arguments.len() {
                lookup(scopes, scope, name)->Some_0.parameters.len()
            } else {
                arguments.len()
            },
            scopes,
            scope,
        ) is Ok,
    ensures
        expand_reference(name, arguments, scopes, scope) == Err::<Expanded, CompileErrorView>(
            CompileErrorView::ArgumentCountError(
                name,
                lookup(scopes, scope, name)->Some_0.parameters.len(),
                arguments.len(),
            ),
        ),
{
}

} // verus!
