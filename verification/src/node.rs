//! The node model: elements, literals and placeholders, with their
//! mathematical views and the structural operations on them.
use vstd::prelude::*;

verus! {

/// Model of an element: its tag, its attributes in order, its children in
/// order, and the handle of the scope frame that belongs to it.
pub struct ElementView {
    pub tag: Seq<char>,
    pub attributes: Seq<(Seq<char>, Seq<char>)>,
    pub children: Seq<NodeView>,
    pub scope: nat,
}

/// Model of a node.
pub enum NodeView {
    Element(ElementView),
    /// Raw text, rendered verbatim.
    Literal(Seq<char>),
    /// A marker that stands for the macro parameter of the given name.
    Placeholder(Seq<char>),
}

/// Raw text content.
#[derive(Debug, PartialEq, Eq)]
pub struct LiteralNode {
    pub content: String,
}

/// A marker standing in for a macro parameter.
#[derive(Debug, PartialEq, Eq)]
pub struct PlaceholderNode {
    pub parameter_name: String,
}

/// A markup tag with attributes and children. `scope` is the handle of the
/// element's own frame in the scope arena it was built with.
#[derive(Debug, PartialEq, Eq)]
pub struct ElementNode {
    pub tag: String,
    pub attributes: Vec<(String, String)>,
    pub children: Vec<Node>,
    pub scope: usize,
}

/// A node of the tree that the engine builds. A tree that goes to the
/// renderer holds no placeholder.
#[derive(Debug, PartialEq, Eq)]
pub enum Node {
    Element(ElementNode),
    Literal(LiteralNode),
    Placeholder(PlaceholderNode),
}

/// The strings of a list, each as a sequence of characters.
pub open spec fn strings_view(strings: Seq<String>) -> Seq<Seq<char>> {
    Seq::new(strings.len(), |i: int| strings[i]@)
}

/// The pairs of an attribute list, each as two sequences of characters.
pub open spec fn attributes_view(attributes: Seq<(String, String)>) -> Seq<(Seq<char>, Seq<char>)> {
    Seq::new(attributes.len(), |i: int| (attributes[i].0@, attributes[i].1@))
}

/// The model of a node.
pub open spec fn node_view(node: Node) -> NodeView
    decreases node,
{
    match node {
        Node::Element(e) => NodeView::Element(element_view(e)),
        Node::Literal(l) => NodeView::Literal(l.content@),
        Node::Placeholder(p) => NodeView::Placeholder(p.parameter_name@),
    }
}

/// The models of the nodes of a list, in order.
pub open spec fn nodes_view(nodes: Seq<Node>) -> Seq<NodeView>
    decreases nodes,
{
    Seq::new(
        nodes.len(),
        |i: int|
            if 0 <= i < nodes.len() {
                node_view(nodes[i])
            } else {
                NodeView::Literal(Seq::empty())
            },
    )
}

/// The model of an element.
pub open spec fn element_view(element: ElementNode) -> ElementView
    decreases element,
{
    ElementView {
        tag: element.tag@,
        attributes: attributes_view(element.attributes@),
        children: nodes_view(element.children@),
        scope: element.scope as nat,
    }
}

impl View for Node {
    type V = NodeView;

    open spec fn view(&self) -> NodeView {
        node_view(*self)
    }
}

impl View for ElementNode {
    type V = ElementView;

    open spec fn view(&self) -> ElementView {
        element_view(*self)
    }
}

impl ElementView {
    /// The element with `nodes` added behind its children.
    pub open spec fn with_appended(self, nodes: Seq<NodeView>) -> ElementView {
        ElementView { children: self.children + nodes, ..self }
    }

    /// The element with another scope handle.
    pub open spec fn with_scope(self, scope: nat) -> ElementView {
        ElementView { scope, ..self }
    }
}

/// `i` is the first position of `name` in `names`.
pub open spec fn is_first_index(names: Seq<Seq<char>>, name: Seq<char>, i: int) -> bool {
    &&& 0 <= i < names.len()
    &&& names[i] == name
    &&& forall|j: int| 0 <= j < i ==> names[j] != name
}

/// The first position of `name` in `names`, if it occurs there.
pub open spec fn position(names: Seq<Seq<char>>, name: Seq<char>) -> Option<int> {
    if exists|i: int| is_first_index(names, name, i) {
        Some(choose|i: int| is_first_index(names, name, i))
    } else {
        None
    }
}

/// A name has at most one first position.
pub proof fn lemma_first_index_unique(names: Seq<Seq<char>>, name: Seq<char>, i: int, k: int)
    requires
        is_first_index(names, name, i),
        is_first_index(names, name, k),
    ensures
        i == k,
{
    if i < k {
        assert(names[i] != name);
    } else if k < i {
        assert(names[k] != name);
    }
}

/// What `position` returns, said without a choice.
pub proof fn lemma_position(names: Seq<Seq<char>>, name: Seq<char>)
    ensures
        match position(names, name) {
            Some(i) => is_first_index(names, name, i),
            None => forall|j: int| 0 <= j < names.len() ==> names[j] != name,
        },
{
    if exists|i: int| is_first_index(names, name, i) {
    } else {
        assert forall|j: int| 0 <= j < names.len() implies names[j] != name by {
            if names[j] == name {
                lemma_first_occurrence_exists(names, name, j);
            }
        }
    }
}

proof fn lemma_first_occurrence_exists(names: Seq<Seq<char>>, name: Seq<char>, j: int)
    requires
        0 <= j < names.len(),
        names[j] == name,
    ensures
        exists|i: int| is_first_index(names, name, i),
    decreases j,
{
    if exists|k: int| 0 <= k < j && names[k] == name {
        let k = choose|k: int| 0 <= k < j && names[k] == name;
        lemma_first_occurrence_exists(names, name, k);
    } else {
        assert(is_first_index(names, name, j));
    }
}

/// The node that stands where `node` stood once the parameters `names` have
/// been given the values `arguments`, position by position: a placeholder
/// whose name is among `names` becomes the argument at the name's first
/// position, an element has the same done to each of its children, and
/// everything else stays. So does a placeholder whose name stands at a
/// position for which there is no argument.
pub open spec fn substitute_node(
    node: NodeView,
    names: Seq<Seq<char>>,
    arguments: Seq<NodeView>,
) -> NodeView
    decreases node,
{
    match node {
        NodeView::Element(e) => NodeView::Element(substitute_element(e, names, arguments)),
        NodeView::Literal(_) => node,
        NodeView::Placeholder(name) => match position(names, name) {
            Some(i) => if i < arguments.len() {
                arguments[i]
            } else {
                node
            },
            None => node,
        },
    }
}

/// The element with `substitute_node` applied to each child. The element's
/// own tag, attributes and scope handle stay.
pub open spec fn substitute_element(
    element: ElementView,
    names: Seq<Seq<char>>,
    arguments: Seq<NodeView>,
) -> ElementView
    decreases element,
{
    ElementView {
        children: Seq::new(
            element.children.len(),
            |i: int|
                if 0 <= i < element.children.len() {
                    substitute_node(element.children[i], names, arguments)
                } else {
                    element.children[i]
                },
        ),
        ..element
    }
}

/// No placeholder occurs in the node or below it.
pub open spec fn placeholder_free(node: NodeView) -> bool
    decreases node,
{
    match node {
        NodeView::Element(e) => element_placeholder_free(e),
        NodeView::Literal(_) => true,
        NodeView::Placeholder(_) => false,
    }
}

/// No placeholder occurs below the element.
pub open spec fn element_placeholder_free(element: ElementView) -> bool
    decreases element,
{
    forall|i: int|
        0 <= i < element.children.len() ==> placeholder_free(#[trigger] element.children[i])
}

/// Every placeholder in the node or below it carries a name out of `allowed`.
pub open spec fn placeholders_within(node: NodeView, allowed: Set<Seq<char>>) -> bool
    decreases node,
{
    match node {
        NodeView::Element(e) => element_placeholders_within(e, allowed),
        NodeView::Literal(_) => true,
        NodeView::Placeholder(name) => allowed.contains(name),
    }
}

/// Every placeholder below the element carries a name out of `allowed`.
pub open spec fn element_placeholders_within(element: ElementView, allowed: Set<Seq<char>>) -> bool
    decreases element,
{
    forall|i: int|
        0 <= i < element.children.len() ==> placeholders_within(
            #[trigger] element.children[i],
            allowed,
        )
}

/// Copies a list of strings.
pub fn copy_strings(strings: &Vec<String>) -> (copy: Vec<String>)
    ensures
        copy@ == strings@,
{
    let mut copy: Vec<String> = Vec::new();
    let mut i: usize = 0;
    while i < strings.len()
        invariant
            i <= strings.len(),
            copy@ == strings@.take(i as int),
        decreases strings.len() - i,
    {
        copy.push(strings[i].clone());
        assert(copy@ =~= strings@.take(i + 1));
        i += 1;
    }
    assert(strings@.take(strings.len() as int) =~= strings@);
    copy
}

/// Copies an attribute list.
pub fn copy_attributes(attributes: &Vec<(String, String)>) -> (copy: Vec<(String, String)>)
    ensures
        copy@ == attributes@,
{
    let mut copy: Vec<(String, String)> = Vec::new();
    let mut i: usize = 0;
    while i < attributes.len()
        invariant
            i <= attributes.len(),
            copy@ == attributes@.take(i as int),
        decreases attributes.len() - i,
    {
        copy.push((attributes[i].0.clone(), attributes[i].1.clone()));
        assert(copy@ =~= attributes@.take(i + 1));
        i += 1;
    }
    assert(attributes@.take(attributes.len() as int) =~= attributes@);
    copy
}

/// The first position of `name` in `names`.
pub fn find_position(names: &Vec<String>, name: &String) -> (found: Option<usize>)
    ensures
        match found {
            Some(i) => position(strings_view(names@), name@) == Some(i as int),
            None => position(strings_view(names@), name@) is None,
        },
{
    let mut i: usize = 0;
    while i < names.len()
        invariant
            i <= names.len(),
            forall|j: int| 0 <= j < i ==> strings_view(names@)[j] != name@,
        decreases names.len() - i,
    {
        if names[i] == *name {
            proof {
                assert(is_first_index(strings_view(names@), name@, i as int));
                lemma_position(strings_view(names@), name@);
                lemma_first_index_unique(
                    strings_view(names@),
                    name@,
                    i as int,
                    position(strings_view(names@), name@).unwrap(),
                );
            }
            return Some(i);
        }
        i += 1;
    }
    proof {
        lemma_position(strings_view(names@), name@);
    }
    None
}

impl Node {
    /// A literal node with the given text.
    pub fn new_literal(content: String) -> (node: Node)
        ensures
            node@ == NodeView::Literal(content@),
    {
        Node::Literal(LiteralNode { content })
    }

    /// A placeholder node for the named parameter.
    pub fn new_placeholder(parameter_name: String) -> (node: Node)
        ensures
            node@ == NodeView::Placeholder(parameter_name@),
    {
        Node::Placeholder(PlaceholderNode { parameter_name })
    }

    /// A structural copy of the node and of all that is below it.
    pub fn deep_copy(&self) -> (copy: Node)
        ensures
            copy@ == self@,
        decreases *self,
    {
        match self {
            Node::Element(e) => Node::Element(e.deep_copy()),
            Node::Literal(l) => Node::Literal(LiteralNode { content: l.content.clone() }),
            Node::Placeholder(p) => Node::Placeholder(
                PlaceholderNode { parameter_name: p.parameter_name.clone() },
            ),
        }
    }
}

impl ElementNode {
    /// An element without children.
    pub fn new_element(tag: String, attributes: Vec<(String, String)>, scope: usize) -> (element:
        ElementNode)
        ensures
            element@ == (ElementView {
                tag: tag@,
                attributes: attributes_view(attributes@),
                children: Seq::empty(),
                scope: scope as nat,
            }),
    {
        let element = ElementNode { tag, attributes, children: Vec::new(), scope };
        assert(element@.children =~= Seq::empty());
        element
    }

    /// Adds `child` behind the element's children.
    pub fn append_child(&mut self, child: Node)
        ensures
            final(self)@ == old(self)@.with_appended(seq![child@]),
    {
        self.children.push(child);
        assert(self@.children =~= old(self)@.children + seq![child@]);
    }

    /// A structural copy of the element and of all that is below it. The copy
    /// carries the same scope handle.
    pub fn deep_copy(&self) -> (copy: ElementNode)
        ensures
            copy@ == self@,
        decreases *self,
    {
        let mut children: Vec<Node> = Vec::new();
        let mut i: usize = 0;
        while i < self.children.len()
            invariant
                i <= self.children.len(),
                children@.len() == i,
                forall|j: int| 0 <= j < i ==> children@[j]@ == self.children@[j]@,
            decreases self.children.len() - i,
        {
            children.push(self.children[i].deep_copy());
            i += 1;
        }
        let copy = ElementNode {
            tag: self.tag.clone(),
            attributes: copy_attributes(&self.attributes),
            children,
            scope: self.scope,
        };
        assert(copy@.children =~= self@.children);
        copy
    }

    /// Replaces, in the whole subtree below the element, every placeholder
    /// whose name is among `parameter_names` by a copy of the argument that
    /// stands at the name's first position in `parameter_names`. What was
    /// put in is not searched again.
    ///
    /// The replacement goes by the name alone. A placeholder that stands for
    /// the parameter of another macro and carries a name out of
    /// `parameter_names` is replaced as well.
    pub fn insert_arguments(&mut self, parameter_names: &Vec<String>, argument_nodes: &Vec<Node>)
        ensures
            final(self)@ == substitute_element(
                old(self)@,
                strings_view(parameter_names@),
                nodes_view(argument_nodes@),
            ),
        decreases *old(self),
    {
        let ghost names = strings_view(parameter_names@);
        let ghost arguments = nodes_view(argument_nodes@);
        let mut i: usize = 0;
        while i < self.children.len()
            invariant
                i <= self.children.len(),
                self.children.len() == old(self).children.len(),
                self.tag == old(self).tag,
                self.attributes == old(self).attributes,
                self.scope == old(self).scope,
                names == strings_view(parameter_names@),
                arguments == nodes_view(argument_nodes@),
                forall|j: int|
                    0 <= j < i ==> self.children@[j]@ == substitute_node(
                        old(self).children@[j]@,
                        names,
                        arguments,
                    ),
                forall|j: int|
                    i <= j < self.children.len() ==> self.children@[j] == old(self).children@[j],
            decreases self.children.len() - i,
        {
            proof {
                vstd::std_specs::vec::axiom_vec_index_decreases(old(self).children, i as int);
            }
            let replacement: Option<Node> = match &self.children[i] {
                Node::Placeholder(p) => match find_position(parameter_names, &p.parameter_name) {
                    Some(at) => if at < argument_nodes.len() {
                        Some(argument_nodes[at].deep_copy())
                    } else {
                        None
                    },
                    None => None,
                },
                _ => None,
            };
            match replacement {
                Some(node) => {
                    self.children.set(i, node);
                },
                None => {
                    match &mut self.children[i] {
                        Node::Element(e) => {
                            e.insert_arguments(parameter_names, argument_nodes);
                        },
                        _ => {},
                    }
                },
            }
            i += 1;
        }
        assert(self@.children =~= substitute_element(old(self)@, names, arguments).children);
    }
}

} // verus!
