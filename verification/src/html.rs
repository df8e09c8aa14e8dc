//! The renderer: from a tree without placeholders to a plain description of
//! the markup, and a one-line dump of any tree.
use crate::error::{CompileError, CompileErrorView};
use crate::node::{
    attributes_view, copy_attributes, element_placeholder_free, placeholder_free, ElementNode,
    ElementView, Node, NodeView,
};
use vstd::prelude::*;
use vstd::string::StringExecFns;

verus! {

/// Model of an `HtmlElement`.
pub struct HtmlView {
    pub tag: Seq<char>,
    pub attributes: Seq<(Seq<char>, Seq<char>)>,
    pub inner_html: Option<Seq<char>>,
    pub children: Seq<HtmlView>,
}

/// An element of the output: tag, attributes, and either markup to be set
/// as it is or child elements.
#[derive(Debug, PartialEq, Eq)]
pub struct HtmlElement {
    pub tag: String,
    pub attributes: Vec<(String, String)>,
    pub inner_html: Option<String>,
    pub children: Vec<HtmlElement>,
}

/// The model of an output element.
pub open spec fn html_view(element: HtmlElement) -> HtmlView
    decreases element,
{
    HtmlView {
        tag: element.tag@,
        attributes: attributes_view(element.attributes@),
        inner_html: match element.inner_html {
            Some(text) => Some(text@),
            None => None,
        },
        children: html_list_view(element.children@),
    }
}

/// The models of the output elements of a list, in order.
pub open spec fn html_list_view(elements: Seq<HtmlElement>) -> Seq<HtmlView>
    decreases elements,
{
    Seq::new(
        elements.len(),
        |i: int|
            if 0 <= i < elements.len() {
                html_view(elements[i])
            } else {
                HtmlView {
                    tag: Seq::empty(),
                    attributes: Seq::empty(),
                    inner_html: None,
                    children: Seq::empty(),
                }
            },
    )
}

impl View for HtmlElement {
    type V = HtmlView;

    open spec fn view(&self) -> HtmlView {
        html_view(*self)
    }
}

/// The output element for a literal: a `span` that carries the text as its
/// markup.
pub open spec fn text_span(text: Seq<char>) -> HtmlView {
    HtmlView {
        tag: "span"@,
        attributes: Seq::empty(),
        inner_html: Some(text),
        children: Seq::empty(),
    }
}

/// What a node without placeholders renders to: an element to an element
/// with the same tag and attributes and with its children rendered, a
/// literal to a `span` with the text.
pub open spec fn rendered(node: NodeView) -> HtmlView
    decreases node,
{
    match node {
        NodeView::Element(e) => HtmlView {
            tag: e.tag,
            attributes: e.attributes,
            inner_html: None,
            children: rendered_children(e),
        },
        NodeView::Literal(text) => text_span(text),
        NodeView::Placeholder(name) => text_span(Seq::empty()),
    }
}

/// What the children of an element render to, in order.
pub open spec fn rendered_children(element: ElementView) -> Seq<HtmlView>
    decreases element,
{
    Seq::new(
        element.children.len(),
        |i: int|
            if 0 <= i < element.children.len() {
                rendered(element.children[i])
            } else {
                text_span(Seq::empty())
            },
    )
}

/// What rendering the children of an element gives: the rendered children
/// where no placeholder stands below the element, and an internal error
/// where one does.
pub open spec fn render_outcome(stack: ElementView) -> Result<Seq<HtmlView>, CompileErrorView> {
    if element_placeholder_free(stack) {
        Ok(rendered_children(stack))
    } else {
        Err(CompileErrorView::InternalInvariantError)
    }
}

/// What a call of the renderer returned, as the model has it.
pub open spec fn returned(result: Result<Vec<HtmlElement>, CompileError>) -> Result<
    Seq<HtmlView>,
    CompileErrorView,
> {
    match result {
        Ok(elements) => Ok(html_list_view(elements@)),
        Err(error) => Err(error@),
    }
}

/// Two nodes are the same but for the scope handles of their elements.
pub open spec fn same_markup(first: NodeView, second: NodeView) -> bool
    decreases first,
{
    match first {
        NodeView::Element(e) => second is Element && same_element_markup(e, second->Element_0),
        _ => first == second,
    }
}

/// Two elements have the same tag and attributes, and children that are the
/// same but for scope handles.
pub open spec fn same_element_markup(first: ElementView, second: ElementView) -> bool
    decreases first,
{
    &&& first.tag == second.tag
    &&& first.attributes == second.attributes
    &&& first.children.len() == second.children.len()
    &&& forall|i: int|
        0 <= i < first.children.len() ==> same_markup(
            #[trigger] first.children[i],
            second.children[i],
        )
}

/// Idempotent rendering: what the renderer returns is a function of the
/// tree, so that two renderings of one tree are the same.
pub proof fn lemma_rendering_twice_is_the_same(
    stack: ElementNode,
    first: Result<Vec<HtmlElement>, CompileError>,
    second: Result<Vec<HtmlElement>, CompileError>,
)
    requires
        returned(first) == render_outcome(stack@),
        returned(second) == render_outcome(stack@),
    ensures
        returned(first) == returned(second),
{
}

/// Rendering reads nothing of the scope handles: trees that are the same
/// but for them render to the same.
pub proof fn lemma_rendering_ignores_scopes(first: ElementView, second: ElementView)
    requires
        same_element_markup(first, second),
    ensures
        render_outcome(first) == render_outcome(second),
    decreases first,
{
    lemma_same_markup_same_placeholders(first, second);
    if element_placeholder_free(first) {
        assert(rendered_children(first) =~= rendered_children(second)) by {
            assert forall|i: int| 0 <= i < first.children.len() implies rendered(
                first.children[i],
            ) == rendered(second.children[i]) by {
                lemma_rendered_ignores_scopes(first.children[i], second.children[i]);
            }
        }
    }
}

proof fn lemma_rendered_ignores_scopes(first: NodeView, second: NodeView)
    requires
        same_markup(first, second),
        placeholder_free(first),
    ensures
        rendered(first) == rendered(second),
    decreases first,
{
    match first {
        NodeView::Element(e) => {
            let other = second->Element_0;
            assert(rendered_children(e) =~= rendered_children(other)) by {
                assert forall|i: int| 0 <= i < e.children.len() implies rendered(e.children[i])
                    == rendered(other.children[i]) by {
                    lemma_rendered_ignores_scopes(e.children[i], other.children[i]);
                }
            }
        },
        _ => {},
    }
}

proof fn lemma_same_markup_same_placeholders(first: ElementView, second: ElementView)
    requires
        same_element_markup(first, second),
    ensures
        element_placeholder_free(first) == element_placeholder_free(second),
    decreases first,
{
    assert forall|i: int| 0 <= i < first.children.len() implies placeholder_free(
        first.children[i],
    ) == placeholder_free(second.children[i]) by {
        match first.children[i] {
            NodeView::Element(e) => {
                lemma_same_markup_same_placeholders(e, second.children[i]->Element_0);
            },
            _ => {},
        }
    }
    if element_placeholder_free(first) {
        assert forall|i: int| 0 <= i < second.children.len() implies placeholder_free(
            #[trigger] second.children[i],
        ) by {
            assert(placeholder_free(first.children[i]));
        }
    }
    if element_placeholder_free(second) {
        assert forall|i: int| 0 <= i < first.children.len() implies placeholder_free(
            #[trigger] first.children[i],
        ) by {
            assert(placeholder_free(second.children[i]));
        }
    }
}

/// Renders the children of `stack`. A placeholder anywhere below `stack`
/// is an error, and nothing is rendered then.
pub fn stack_to_html(stack: &ElementNode) -> (result: Result<Vec<HtmlElement>, CompileError>)
    ensures
        returned(result) == render_outcome(stack@),
    decreases *stack,
{
    let mut output: Vec<HtmlElement> = Vec::new();
    let mut i: usize = 0;
    while i < stack.children.len()
        invariant
            i <= stack.children.len(),
            output@.len() == i,
            forall|j: int| 0 <= j < i ==> placeholder_free(#[trigger] stack@.children[j]),
            forall|j: int| 0 <= j < i ==> output@[j]@ == rendered(#[trigger] stack@.children[j]),
        decreases stack.children.len() - i,
    {
        assert(stack@.children[i as int] == stack.children@[i as int]@);
        match &stack.children[i] {
            Node::Element(element) => {
                let new_element = match stack_to_html(element) {
                    Ok(children) => HtmlElement {
                        tag: element.tag.clone(),
                        attributes: copy_attributes(&element.attributes),
                        inner_html: None,
                        children,
                    },
                    Err(error) => {
                        assert(!placeholder_free(stack@.children[i as int]));
                        return Err(error);
                    },
                };
                output.push(new_element);
            },
            Node::Literal(string) => {
                let new_element = HtmlElement {
                    tag: "span".to_owned(),
                    attributes: Vec::new(),
                    inner_html: Some(string.content.clone()),
                    children: Vec::new(),
                };
                assert(new_element@.attributes =~= Seq::empty());
                assert(new_element@.children =~= Seq::empty());
                output.push(new_element);
            },
            Node::Placeholder(_) => {
                assert(!placeholder_free(stack@.children[i as int]));
                return Err(CompileError::InternalInvariantError);
            },
        }
        i += 1;
    }
    assert(html_list_view(output@) =~= rendered_children(stack@));
    Ok(output)
}

/// The one-line dump of a node, which ends in a comma and a space: an
/// element as its tag and, in square brackets, the dump of its children; a
/// literal in double quotes; a placeholder as `$` and its name.
pub open spec fn dump(node: NodeView) -> Seq<char>
    decreases node, 0nat,
{
    match node {
        NodeView::Element(e) => e.tag + "["@ + dump_children(e, e.children.len()) + "], "@,
        NodeView::Literal(text) => "\""@ + text + "\""@ + ", "@,
        NodeView::Placeholder(name) => "$"@ + name + ", "@,
    }
}

/// The dumps of the first `count` children of an element, one behind the
/// other.
pub open spec fn dump_children(element: ElementView, count: nat) -> Seq<char>
    decreases element, count,
{
    if count == 0 || count > element.children.len() {
        Seq::empty()
    } else {
        dump_children(element, (count - 1) as nat) + dump(element.children[count - 1])
    }
}

/// The one-line dump of the children of `stack`, placeholders included.
pub fn stack_to_str(stack: &ElementNode) -> (result: String)
    ensures
        result@ == dump_children(stack@, stack@.children.len()),
    decreases *stack,
{
    let mut result = String::new();
    let mut i: usize = 0;
    while i < stack.children.len()
        invariant
            i <= stack.children.len(),
            result@ == dump_children(stack@, i as nat),
        decreases stack.children.len() - i,
    {
        assert(stack@.children[i as int] == stack.children@[i as int]@);
        let ghost before = result@;
        match &stack.children[i] {
            Node::Element(element) => {
                result.append(element.tag.as_str());
                result.append("[");
                let inner = stack_to_str(element);
                result.append(inner.as_str());
                result.append("], ");
                assert(result@ =~= before + dump(stack@.children[i as int]));
            },
            Node::Literal(string) => {
                result.append("\"");
                result.append(string.content.as_str());
                result.append("\"");
                result.append(", ");
                assert(result@ =~= before + dump(stack@.children[i as int]));
            },
            Node::Placeholder(placeholder) => {
                result.append("$");
                result.append(placeholder.parameter_name.as_str());
                result.append(", ");
                assert(result@ =~= before + dump(stack@.children[i as int]));
            },
        }
        i += 1;
    }
    result
}

} // verus!
