//! The document tree: what a parser hands over, held as plain owned values.
//!
//! Every node owns its children, so a tree is finite and acyclic by
//! construction, and every node but the root has exactly one parent.

use vstd::prelude::*;

verus! {

/// A name qualified by the namespace it belongs to.
#[derive(Debug)]
pub struct QualName {
    /// The namespace URI; empty where there is none.
    pub ns: String,
    /// The local name.
    pub local: String,
}

/// The mathematical value of a `QualName`.
pub struct QualNameView {
    pub ns: Seq<char>,
    pub local: Seq<char>,
}

impl View for QualName {
    type V = QualNameView;

    open spec fn view(&self) -> QualNameView {
        QualNameView { ns: self.ns@, local: self.local@ }
    }
}

impl Clone for QualName {
    fn clone(&self) -> (copy: QualName)
        ensures
            copy@ == self@,
    {
        QualName { ns: self.ns.clone(), local: self.local.clone() }
    }
}

/// One attribute of an element.
#[derive(Debug)]
pub struct Attribute {
    pub name: QualName,
    pub value: String,
}

/// The mathematical value of an `Attribute`.
pub struct AttributeView {
    pub name: QualNameView,
    pub value: Seq<char>,
}

impl View for Attribute {
    type V = AttributeView;

    open spec fn view(&self) -> AttributeView {
        AttributeView { name: self.name@, value: self.value@ }
    }
}

impl Clone for Attribute {
    fn clone(&self) -> (copy: Attribute)
        ensures
            copy@ == self@,
    {
        Attribute { name: self.name.clone(), value: self.value.clone() }
    }
}

/// What a node is, with the data that belongs to its kind.
#[derive(Debug)]
#[allow(inconsistent_fields)]
pub enum NodeData {
    /// The root of a document, and the root of a template's contents.
    Document,
    Doctype { name: String, public_id: String, system_id: String },
    Text { contents: String },
    Comment { contents: String },
    /// An element. Attributes are kept in the order in which they were
    /// stored; `template_contents` is present for template elements only.
    Element { name: QualName, attrs: Vec<Attribute>, template_contents: Option<Box<Node>> },
    ProcessingInstruction { target: String, contents: String },
}

/// A node with the nodes below it, in document order.
#[derive(Debug)]
pub struct Node {
    pub data: NodeData,
    pub children: Vec<Node>,
}

/// The mathematical value of a `NodeData`.
#[allow(inconsistent_fields)]
pub enum NodeDataView {
    Document,
    Doctype { name: Seq<char>, public_id: Seq<char>, system_id: Seq<char> },
    Text { contents: Seq<char> },
    Comment { contents: Seq<char> },
    Element {
        name: QualNameView,
        attrs: Seq<AttributeView>,
        template_contents: Option<Box<NodeView>>,
    },
    ProcessingInstruction { target: Seq<char>, contents: Seq<char> },
}

/// The mathematical value of a `Node`: its structure, and nothing of how it
/// is laid out in memory.
pub struct NodeView {
    pub data: NodeDataView,
    pub children: Seq<NodeView>,
}

/// The values of a sequence of attributes.
pub open spec fn attrs_view(attrs: Seq<Attribute>) -> Seq<AttributeView> {
    Seq::new(attrs.len(), |i: int| attrs[i]@)
}

/// The values of a sequence of nodes.
pub open spec fn nodes_view(nodes: Seq<Node>) -> Seq<NodeView>
    decreases nodes,
{
    if nodes.len() == 0 {
        Seq::empty()
    } else {
        nodes_view(nodes.drop_last()).push(nodes.last()@)
    }
}

impl View for NodeData {
    type V = NodeDataView;

    open spec fn view(&self) -> NodeDataView
        decreases self,
    {
        match self {
            NodeData::Document => NodeDataView::Document,
            NodeData::Doctype { name, public_id, system_id } => NodeDataView::Doctype {
                name: name@,
                public_id: public_id@,
                system_id: system_id@,
            },
            NodeData::Text { contents } => NodeDataView::Text { contents: contents@ },
            NodeData::Comment { contents } => NodeDataView::Comment { contents: contents@ },
            NodeData::Element { name, attrs, template_contents } => NodeDataView::Element {
                name: name@,
                attrs: attrs_view(attrs@),
                template_contents: match template_contents {
                    Some(content) => Some(Box::new((**content)@)),
                    None => None,
                },
            },
            NodeData::ProcessingInstruction { target, contents } => {
                NodeDataView::ProcessingInstruction { target: target@, contents: contents@ }
            },
        }
    }
}

impl View for Node {
    type V = NodeView;

    open spec fn view(&self) -> NodeView
        decreases self,
    {
        NodeView { data: self.data@, children: nodes_view(self.children@) }
    }
}

/// The value of a sequence of nodes holds the value of each node, in order.
pub proof fn lemma_nodes_view(nodes: Seq<Node>)
    ensures
        nodes_view(nodes).len() == nodes.len(),
        forall|i: int| 0 <= i < nodes.len() ==> #[trigger] nodes_view(nodes)[i] == nodes[i]@,
    decreases nodes.len(),
{
    if nodes.len() > 0 {
        lemma_nodes_view(nodes.drop_last());
        assert(nodes_view(nodes) == nodes_view(nodes.drop_last()).push(nodes.last()@));
        assert forall|i: int| 0 <= i < nodes.len() implies #[trigger] nodes_view(nodes)[i]
            == nodes[i]@ by {
            if i < nodes.len() - 1 {
                assert(nodes.drop_last()[i] == nodes[i]);
            }
        }
    } else {
        assert(nodes_view(nodes) == Seq::<NodeView>::empty());
    }
}

/// A copy of the attributes in `attrs`.
fn clone_attrs(attrs: &Vec<Attribute>) -> (copy: Vec<Attribute>)
    ensures
        attrs_view(copy@) == attrs_view(attrs@),
{
    let mut copy: Vec<Attribute> = Vec::new();
    let mut i: usize = 0;
    while i < attrs.len()
        invariant
            i <= attrs@.len(),
            copy@.len() == i,
            forall|k: int| 0 <= k < i ==> (#[trigger] copy@[k])@ == attrs@[k]@,
        decreases attrs.len() - i,
    {
        copy.push(attrs[i].clone());
        i += 1;
    }
    assert(attrs_view(copy@) =~= attrs_view(attrs@));
    copy
}

/// A copy of what `data` holds.
fn clone_data(data: &NodeData) -> (copy: NodeData)
    ensures
        copy@ == data@,
    decreases data,
{
    match data {
        NodeData::Document => NodeData::Document,
        NodeData::Doctype { name, public_id, system_id } => NodeData::Doctype {
            name: name.clone(),
            public_id: public_id.clone(),
            system_id: system_id.clone(),
        },
        NodeData::Text { contents } => NodeData::Text { contents: contents.clone() },
        NodeData::Comment { contents } => NodeData::Comment { contents: contents.clone() },
        NodeData::Element { name, attrs, template_contents } => NodeData::Element {
            name: name.clone(),
            attrs: clone_attrs(attrs),
            template_contents: match template_contents {
                Some(content) => Some(Box::new(clone_node(content))),
                None => None,
            },
        },
        NodeData::ProcessingInstruction { target, contents } => NodeData::ProcessingInstruction {
            target: target.clone(),
            contents: contents.clone(),
        },
    }
}

/// A copy of the tree below `node`.
fn clone_node(node: &Node) -> (copy: Node)
    ensures
        copy@ == node@,
    decreases node,
{
    let mut children: Vec<Node> = Vec::new();
    let mut i: usize = 0;
    proof {
        lemma_nodes_view(node.children@);
    }
    while i < node.children.len()
        invariant
            i <= node.children@.len(),
            children@.len() == i,
            forall|k: int| 0 <= k < i ==> (#[trigger] children@[k])@ == node.children@[k]@,
        decreases node.children.len() - i,
    {
        children.push(clone_node(&node.children[i]));
        i += 1;
    }
    proof {
        lemma_nodes_view(children@);
        assert(nodes_view(children@) =~= nodes_view(node.children@));
    }
    Node { data: clone_data(&node.data), children }
}

impl Clone for NodeData {
    fn clone(&self) -> (copy: NodeData)
        ensures
            copy@ == self@,
    {
        clone_data(self)
    }
}

impl Clone for Node {
    /// A copy of the whole tree below this node.
    fn clone(&self) -> (copy: Node)
        ensures
            copy@ == self@,
    {
        clone_node(self)
    }
}

} // verus!
