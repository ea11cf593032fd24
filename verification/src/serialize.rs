//! The canonical text form of a document tree: one line per node, indented by
//! depth, attributes in stable order of their local names.

use vstd::prelude::*;
use vstd::string::StringExecFns;
use crate::order::{bytes_le, key_of, str_eq};
use crate::sort::{is_stable_order, keys_of, lemma_sorted_order_is_stable, sorted_order, stable_order};
use crate::tree::{
    attrs_view, lemma_nodes_view, nodes_view, Attribute, AttributeView, Node, NodeData,
    NodeDataView, NodeView, QualName,
};

verus! {

/// The namespace of SVG elements.
pub const SVG_NAMESPACE: &'static str = "http://www.w3.org/2000/svg";

/// The namespace of MathML elements.
pub const MATHML_NAMESPACE: &'static str = "http://www.w3.org/1998/Math/MathML";

/// The namespace of XLink attributes.
pub const XLINK_NAMESPACE: &'static str = "http://www.w3.org/1999/xlink";

/// The namespace of attributes such as `xml:lang`.
pub const XML_NAMESPACE: &'static str = "http://www.w3.org/XML/1998/namespace";

/// The namespace of namespace declarations.
pub const XMLNS_NAMESPACE: &'static str = "http://www.w3.org/2000/xmlns/";

/// `n` space characters.
pub open spec fn spaces(n: nat) -> Seq<char> {
    Seq::new(n, |i: int| ' ')
}

/// One line of output: a pipe, `indent` spaces, the payload, a newline.
pub open spec fn line(indent: nat, payload: Seq<char>) -> Seq<char> {
    "|"@ + spaces(indent) + payload + "\n"@
}

/// What stands before an element's local name, by its namespace.
pub open spec fn element_prefix(ns: Seq<char>) -> Seq<char> {
    if ns == SVG_NAMESPACE@ {
        "svg "@
    } else if ns == MATHML_NAMESPACE@ {
        "math "@
    } else {
        Seq::empty()
    }
}

/// What stands before an attribute's local name, by its namespace.
pub open spec fn attribute_prefix(ns: Seq<char>) -> Seq<char> {
    if ns == XLINK_NAMESPACE@ {
        "xlink "@
    } else if ns == XML_NAMESPACE@ {
        "xml "@
    } else if ns == XMLNS_NAMESPACE@ {
        "xmlns "@
    } else {
        Seq::empty()
    }
}

/// The payload of a doctype's line. The two identifiers are written, both
/// quoted, as soon as one of them is not empty.
pub open spec fn doctype_payload(
    name: Seq<char>,
    public_id: Seq<char>,
    system_id: Seq<char>,
) -> Seq<char> {
    if public_id.len() > 0 || system_id.len() > 0 {
        "<!DOCTYPE "@ + name + " \""@ + public_id + "\" \""@ + system_id + "\""@ + ">"@
    } else {
        "<!DOCTYPE "@ + name + ">"@
    }
}

/// The payload of a text node's line: the text between double quotes, as it is.
pub open spec fn text_payload(contents: Seq<char>) -> Seq<char> {
    "\""@ + contents + "\""@
}

/// The payload of a comment's line.
pub open spec fn comment_payload(contents: Seq<char>) -> Seq<char> {
    "<!-- "@ + contents + " -->"@
}

/// The payload of an element's own line.
pub open spec fn element_payload(ns: Seq<char>, local: Seq<char>) -> Seq<char> {
    "<"@ + element_prefix(ns) + local + ">"@
}

/// The payload of an attribute's line.
pub open spec fn attribute_payload(attr: AttributeView) -> Seq<char> {
    attribute_prefix(attr.name.ns) + attr.name.local + "=\""@ + attr.value + "\""@
}

/// The keys by which attributes are ordered: their local names alone.
pub open spec fn attribute_keys(attrs: Seq<AttributeView>) -> Seq<Seq<u8>> {
    Seq::new(attrs.len(), |i: int| key_of(attrs[i].name.local))
}

/// The order in which the attributes of one element are written.
pub open spec fn attribute_order(attrs: Seq<AttributeView>) -> Seq<int> {
    sorted_order(attribute_keys(attrs))
}

/// The lines of the attributes at the positions that `order` lists, in that
/// order.
pub open spec fn attribute_lines(attrs: Seq<AttributeView>, order: Seq<int>, indent: nat) -> Seq<
    char,
>
    decreases order.len(),
{
    if order.len() == 0 {
        Seq::empty()
    } else {
        attribute_lines(attrs, order.drop_last(), indent) + line(
            indent,
            attribute_payload(attrs[order.last()]),
        )
    }
}

/// The lines of an element's attributes.
pub open spec fn attributes_text(attrs: Seq<AttributeView>, indent: nat) -> Seq<char> {
    attribute_lines(attrs, attribute_order(attrs), indent)
}

/// The text of one node and all below it, the node itself at `indent`.
///
/// A document node and a processing instruction write no line of their own.
/// The children of a document node stay at `indent`; all other children go
/// two deeper, and what a template holds goes four deeper, below a line that
/// reads `content`.
pub open spec fn node_text(node: NodeView, indent: nat) -> Seq<char>
    decreases node,
{
    match node.data {
        NodeDataView::Document => nodes_text(node.children, indent),
        NodeDataView::Doctype { name, public_id, system_id } => line(
            indent,
            doctype_payload(name, public_id, system_id),
        ) + nodes_text(node.children, indent + 2),
        NodeDataView::Text { contents } => line(indent, text_payload(contents)) + nodes_text(
            node.children,
            indent + 2,
        ),
        NodeDataView::Comment { contents } => line(indent, comment_payload(contents)) + nodes_text(
            node.children,
            indent + 2,
        ),
        NodeDataView::Element { name, attrs, template_contents } => line(
            indent,
            element_payload(name.ns, name.local),
        ) + attributes_text(attrs, indent + 2) + nodes_text(node.children, indent + 2) + (
        match template_contents {
            Some(content) => line(indent + 2, "content"@) + nodes_text(
                content.children,
                indent + 4,
            ),
            None => Seq::empty(),
        }),
        NodeDataView::ProcessingInstruction { .. } => nodes_text(node.children, indent + 2),
    }
}

/// The text of a sequence of nodes, one after the other, each at `indent`.
pub open spec fn nodes_text(nodes: Seq<NodeView>, indent: nat) -> Seq<char>
    decreases nodes,
{
    if nodes.len() == 0 {
        Seq::empty()
    } else {
        nodes_text(nodes.drop_last(), indent) + node_text(nodes.last(), indent)
    }
}

/// `text` without its last character, where that is a newline.
pub open spec fn strip_trailing_newline(text: Seq<char>) -> Seq<char> {
    if text.len() > 0 && text.last() == '\n' {
        text.drop_last()
    } else {
        text
    }
}

/// The canonical text of a document: the children of the root at indent 1,
/// the root itself unwritten, and no newline at the very end.
pub open spec fn document_text(root: NodeView) -> Seq<char> {
    strip_trailing_newline(nodes_text(root.children, 1))
}

/// `String::pop` takes the last character off the string and returns it. On
/// an empty string it returns `None` and changes nothing.
pub assume_specification[ String::pop ](text: &mut String) -> (popped: Option<char>)
    ensures
        old(text)@.len() == 0 ==> popped is None && final(text)@ == old(text)@,
        old(text)@.len() > 0 ==> popped == Some(old(text)@.last()) && final(text)@ == old(
            text,
        )@.drop_last(),
;

/// The text of a tree is decided by its structure alone. Two trees of one
/// structure have the same text, byte for byte, however each of them was
/// built; so has one tree written twice.
pub proof fn lemma_text_is_decided_by_structure(
    first: Node,
    second: Node,
    first_text: String,
    second_text: String,
)
    requires
        first@ == second@,
        first_text@ == document_text(first@),
        second_text@ == document_text(second@),
    ensures
        first_text@ == second_text@,
        key_of(first_text@) == key_of(second_text@),
        forall|indent: nat| node_text(first@, indent) == node_text(second@, indent),
{
}

/// The lines of an element's attributes stand in ascending order of their
/// local names, whatever their namespaces; attributes of one local name stand
/// in the order in which the element stores them; and every attribute has its
/// line, once. `attribute_order` lists the stored positions line by line.
pub proof fn lemma_attribute_lines_in_stable_order(attrs: Seq<AttributeView>)
    ensures
        is_stable_order(attribute_keys(attrs), attribute_order(attrs)),
        forall|a: int, b: int|
            #![trigger attribute_order(attrs)[a], attribute_order(attrs)[b]]
            0 <= a < b < attrs.len() ==> {
                let first = attrs[attribute_order(attrs)[a]];
                let second = attrs[attribute_order(attrs)[b]];
                &&& bytes_le(key_of(first.name.local), key_of(second.name.local))
                &&& first.name.local == second.name.local ==> attribute_order(attrs)[a]
                    < attribute_order(attrs)[b]
            },
{
    let keys = attribute_keys(attrs);
    let p = attribute_order(attrs);
    lemma_sorted_order_is_stable(keys);
    assert forall|a: int, b: int|
        #![trigger attribute_order(attrs)[a], attribute_order(attrs)[b]]
        0 <= a < b < attrs.len() implies {
        let first = attrs[p[a]];
        let second = attrs[p[b]];
        &&& bytes_le(key_of(first.name.local), key_of(second.name.local))
        &&& first.name.local == second.name.local ==> p[a] < p[b]
    } by {
        assert(0 <= p[a] < keys.len() && 0 <= p[b] < keys.len());
        assert(bytes_le(keys[p[a]], keys[p[b]]));
        assert(keys[p[a]] == keys[p[b]] ==> p[a] < p[b]);
    }
}

/// A line ends with a newline.
proof fn lemma_line_ends_with_newline(indent: nat, payload: Seq<char>)
    ensures
        line(indent, payload).len() > 0,
        line(indent, payload).last() == '\n',
{
    reveal_strlit("\n");
}

/// The lines of attributes are empty or end with a newline.
proof fn lemma_attribute_lines_end_with_newline(
    attrs: Seq<AttributeView>,
    order: Seq<int>,
    indent: nat,
)
    ensures
        attribute_lines(attrs, order, indent).len() == 0 || attribute_lines(
            attrs,
            order,
            indent,
        ).last() == '\n',
{
    if order.len() > 0 {
        lemma_line_ends_with_newline(indent, attribute_payload(attrs[order.last()]));
    }
}

/// The text of a node is empty or ends with a newline.
proof fn lemma_node_text_ends_with_newline(node: NodeView, indent: nat)
    ensures
        node_text(node, indent).len() == 0 || node_text(node, indent).last() == '\n',
    decreases node,
{
    match node.data {
        NodeDataView::Document => {
            lemma_nodes_text_ends_with_newline(node.children, indent);
        },
        NodeDataView::Doctype { name, public_id, system_id } => {
            lemma_line_ends_with_newline(indent, doctype_payload(name, public_id, system_id));
            lemma_nodes_text_ends_with_newline(node.children, indent + 2);
        },
        NodeDataView::Text { contents } => {
            lemma_line_ends_with_newline(indent, text_payload(contents));
            lemma_nodes_text_ends_with_newline(node.children, indent + 2);
        },
        NodeDataView::Comment { contents } => {
            lemma_line_ends_with_newline(indent, comment_payload(contents));
            lemma_nodes_text_ends_with_newline(node.children, indent + 2);
        },
        NodeDataView::Element { name, attrs, template_contents } => {
            lemma_line_ends_with_newline(indent, element_payload(name.ns, name.local));
            lemma_attribute_lines_end_with_newline(attrs, attribute_order(attrs), indent + 2);
            lemma_nodes_text_ends_with_newline(node.children, indent + 2);
            match template_contents {
                Some(content) => {
                    lemma_line_ends_with_newline(indent + 2, "content"@);
                    lemma_nodes_text_ends_with_newline(content.children, indent + 4);
                },
                None => {},
            }
        },
        NodeDataView::ProcessingInstruction { .. } => {
            lemma_nodes_text_ends_with_newline(node.children, indent + 2);
        },
    }
}

/// The text of a sequence of nodes is empty or ends with a newline.
proof fn lemma_nodes_text_ends_with_newline(nodes: Seq<NodeView>, indent: nat)
    ensures
        nodes_text(nodes, indent).len() == 0 || nodes_text(nodes, indent).last() == '\n',
    decreases nodes,
{
    if nodes.len() > 0 {
        lemma_nodes_text_ends_with_newline(nodes.drop_last(), indent);
        lemma_node_text_ends_with_newline(nodes.last(), indent);
    }
}

/// A string of `indent` spaces.
fn padding(indent: usize) -> (pad: String)
    ensures
        pad@ == spaces(indent as nat),
{
    let mut pad = String::new();
    let mut i: usize = 0;
    proof {
        reveal_strlit(" ");
    }
    while i < indent
        invariant
            i <= indent,
            pad@ == spaces(i as nat),
            " "@ == seq![' '],
        decreases indent - i,
    {
        pad.append(" ");
        i += 1;
        assert(pad@ =~= spaces(i as nat));
    }
    pad
}

/// The padding two deeper than `pad`.
fn deeper(pad: &str) -> (next: String)
    requires
        pad@ == spaces(pad@.len()),
    ensures
        next@ == spaces(pad@.len() + 2),
{
    let mut next = String::from_str(pad);
    proof {
        reveal_strlit("  ");
    }
    next.append("  ");
    assert(next@ =~= spaces(pad@.len() + 2));
    next
}

/// Appends the line that reads `content` to `buf`.
fn emit_content_marker(buf: &mut String, pad: &str)
    requires
        pad@ == spaces(pad@.len()),
    ensures
        final(buf)@ == old(buf)@ + line(pad@.len(), "content"@),
{
    buf.append("|");
    buf.append(pad);
    buf.append("content");
    buf.append("\n");
    assert(buf@ =~= old(buf)@ + line(pad@.len(), "content"@));
}

/// The text that stands before an element's local name.
fn element_prefix_of(ns: &str) -> (prefix: &'static str)
    ensures
        prefix@ == element_prefix(ns@),
{
    if str_eq(ns, SVG_NAMESPACE) {
        "svg "
    } else if str_eq(ns, MATHML_NAMESPACE) {
        "math "
    } else {
        proof {
            reveal_strlit("");
        }
        ""
    }
}

/// The text that stands before an attribute's local name.
fn attribute_prefix_of(ns: &str) -> (prefix: &'static str)
    ensures
        prefix@ == attribute_prefix(ns@),
{
    if str_eq(ns, XLINK_NAMESPACE) {
        "xlink "
    } else if str_eq(ns, XML_NAMESPACE) {
        "xml "
    } else if str_eq(ns, XMLNS_NAMESPACE) {
        "xmlns "
    } else {
        proof {
            reveal_strlit("");
        }
        ""
    }
}

/// Appends a doctype's line to `buf`.
fn emit_doctype(buf: &mut String, pad: &str, name: &str, public_id: &str, system_id: &str)
    requires
        pad@ == spaces(pad@.len()),
    ensures
        final(buf)@ == old(buf)@ + line(
            pad@.len(),
            doctype_payload(name@, public_id@, system_id@),
        ),
{
    buf.append("|");
    buf.append(pad);
    buf.append("<!DOCTYPE ");
    buf.append(name);
    if !public_id.is_empty() || !system_id.is_empty() {
        buf.append(" \"");
        buf.append(public_id);
        buf.append("\" \"");
        buf.append(system_id);
        buf.append("\"");
    }
    buf.append(">");
    buf.append("\n");
    assert(buf@ =~= old(buf)@ + line(pad@.len(), doctype_payload(name@, public_id@, system_id@)));
}

/// Appends a text node's line to `buf`.
fn emit_text(buf: &mut String, pad: &str, contents: &str)
    requires
        pad@ == spaces(pad@.len()),
    ensures
        final(buf)@ == old(buf)@ + line(pad@.len(), text_payload(contents@)),
{
    buf.append("|");
    buf.append(pad);
    buf.append("\"");
    buf.append(contents);
    buf.append("\"");
    buf.append("\n");
    assert(buf@ =~= old(buf)@ + line(pad@.len(), text_payload(contents@)));
}

/// Appends a comment's line to `buf`.
fn emit_comment(buf: &mut String, pad: &str, contents: &str)
    requires
        pad@ == spaces(pad@.len()),
    ensures
        final(buf)@ == old(buf)@ + line(pad@.len(), comment_payload(contents@)),
{
    buf.append("|");
    buf.append(pad);
    buf.append("<!-- ");
    buf.append(contents);
    buf.append(" -->");
    buf.append("\n");
    assert(buf@ =~= old(buf)@ + line(pad@.len(), comment_payload(contents@)));
}

/// Appends an element's own line to `buf`.
fn emit_element_open(buf: &mut String, pad: &str, name: &QualName)
    requires
        pad@ == spaces(pad@.len()),
    ensures
        final(buf)@ == old(buf)@ + line(pad@.len(), element_payload(name@.ns, name@.local)),
{
    buf.append("|");
    buf.append(pad);
    buf.append("<");
    buf.append(element_prefix_of(name.ns.as_str()));
    buf.append(name.local.as_str());
    buf.append(">");
    buf.append("\n");
    assert(buf@ =~= old(buf)@ + line(pad@.len(), element_payload(name@.ns, name@.local)));
}

/// Appends one attribute's line to `buf`.
fn emit_attribute(buf: &mut String, pad: &str, attr: &Attribute)
    requires
        pad@ == spaces(pad@.len()),
    ensures
        final(buf)@ == old(buf)@ + line(pad@.len(), attribute_payload(attr@)),
{
    buf.append("|");
    buf.append(pad);
    buf.append(attribute_prefix_of(attr.name.ns.as_str()));
    buf.append(attr.name.local.as_str());
    buf.append("=\"");
    buf.append(attr.value.as_str());
    buf.append("\"");
    buf.append("\n");
    assert(buf@ =~= old(buf)@ + line(pad@.len(), attribute_payload(attr@)));
}

/// Appends the lines of an element's attributes to `buf`.
fn emit_attributes(buf: &mut String, pad: &str, attrs: &Vec<Attribute>)
    requires
        pad@ == spaces(pad@.len()),
    ensures
        final(buf)@ == old(buf)@ + attributes_text(attrs_view(attrs@), pad@.len()),
{
    let ghost views = attrs_view(attrs@);
    let mut names: Vec<&str> = Vec::new();
    let mut i: usize = 0;
    while i < attrs.len()
        invariant
            i <= attrs.len(),
            names@.len() == i,
            forall|k: int| 0 <= k < i ==> (#[trigger] names@[k])@ == attrs@[k].name.local@,
        decreases attrs.len() - i,
    {
        names.push(attrs[i].name.local.as_str());
        i += 1;
    }
    assert(keys_of(names@) =~= attribute_keys(views));
    let order = stable_order(&names);
    let ghost full = attribute_order(views);
    let mut k: usize = 0;
    while k < order.len()
        invariant
            pad@ == spaces(pad@.len()),
            views == attrs_view(attrs@),
            full == attribute_order(views),
            is_stable_order(attribute_keys(views), full),
            order@.len() == attrs@.len(),
            forall|j: int| 0 <= j < order@.len() ==> #[trigger] order@[j] as int == full[j],
            k <= order@.len(),
            buf@ == old(buf)@ + attribute_lines(views, full.take(k as int), pad@.len()),
        decreases order.len() - k,
    {
        let position = order[k];
        assert(position as int == full[k as int]);
        let ghost before = buf@;
        emit_attribute(buf, pad, &attrs[position]);
        k += 1;
        proof {
            assert(buf@ == before + line(pad@.len(), attribute_payload(views[position as int])));
            assert(full.take(k as int).drop_last() =~= full.take(k - 1));
            assert(full.take(k as int).last() == full[k - 1]);
        }
    }
    assert(full.take(k as int) =~= full);
}

/// Appends the text of `node`, and of all below it, to `buf`.
fn emit_node(buf: &mut String, pad: &str, node: &Node)
    requires
        pad@ == spaces(pad@.len()),
    ensures
        final(buf)@ == old(buf)@ + node_text(node@, pad@.len()),
    decreases node, 1nat,
{
    let ghost indent = pad@.len();
    let ghost view = node@;
    assert(view.children == nodes_view(node.children@));
    assert(view.data == node.data@);
    match &node.data {
        NodeData::Document => {
            emit_nodes(buf, pad, &node.children);
        },
        NodeData::Doctype { name, public_id, system_id } => {
            emit_doctype(buf, pad, name.as_str(), public_id.as_str(), system_id.as_str());
            emit_below(buf, pad, &node.children);
            assert(buf@ =~= old(buf)@ + node_text(view, indent));
        },
        NodeData::Text { contents } => {
            emit_text(buf, pad, contents.as_str());
            emit_below(buf, pad, &node.children);
            assert(buf@ =~= old(buf)@ + node_text(view, indent));
        },
        NodeData::Comment { contents } => {
            emit_comment(buf, pad, contents.as_str());
            emit_below(buf, pad, &node.children);
            assert(buf@ =~= old(buf)@ + node_text(view, indent));
        },
        NodeData::Element { name, attrs, template_contents } => {
            emit_element_open(buf, pad, name);
            let ghost own = line(indent, element_payload(name@.ns, name@.local));
            let ghost body = own + attributes_text(attrs_view(attrs@), indent + 2) + nodes_text(
                view.children,
                indent + 2,
            );
            match template_contents {
                Some(content) => {
                    let inner = deeper(pad);
                    emit_attributes(buf, inner.as_str(), attrs);
                    emit_nodes(buf, inner.as_str(), &node.children);
                    assert(buf@ =~= old(buf)@ + body);
                    emit_content_marker(buf, inner.as_str());
                    emit_below(buf, inner.as_str(), &content.children);
                    let ghost held = line(indent + 2, "content"@) + nodes_text(
                        nodes_view(content.children@),
                        indent + 4,
                    );
                    assert(buf@ =~= old(buf)@ + (body + held));
                    assert(node_text(view, indent) == body + held);
                },
                None => {
                    if attrs.len() > 0 || node.children.len() > 0 {
                        let inner = deeper(pad);
                        emit_attributes(buf, inner.as_str(), attrs);
                        emit_nodes(buf, inner.as_str(), &node.children);
                    } else {
                        assert(attribute_keys(attrs_view(attrs@)).len() == 0);
                        assert(view.children =~= Seq::empty());
                    }
                    assert(buf@ =~= old(buf)@ + body);
                    assert(body + Seq::<char>::empty() =~= body);
                    assert(node_text(view, indent) == body + Seq::<char>::empty());
                },
            }
        },
        NodeData::ProcessingInstruction { .. } => {
            emit_below(buf, pad, &node.children);
        },
    }
}

/// Appends the text of each of `nodes` to `buf`, two deeper than `pad`.
fn emit_below(buf: &mut String, pad: &str, nodes: &Vec<Node>)
    requires
        pad@ == spaces(pad@.len()),
    ensures
        final(buf)@ == old(buf)@ + nodes_text(nodes_view(nodes@), pad@.len() + 2),
    decreases nodes, 1nat,
{
    if nodes.len() > 0 {
        let inner = deeper(pad);
        emit_nodes(buf, inner.as_str(), nodes);
    } else {
        assert(nodes_view(nodes@) =~= Seq::empty());
        assert(buf@ =~= old(buf)@ + Seq::<char>::empty());
    }
}

/// Appends the text of each of `nodes` to `buf`, in order.
fn emit_nodes(buf: &mut String, pad: &str, nodes: &Vec<Node>)
    requires
        pad@ == spaces(pad@.len()),
    ensures
        final(buf)@ == old(buf)@ + nodes_text(nodes_view(nodes@), pad@.len()),
    decreases nodes, 0nat,
{
    let ghost views = nodes_view(nodes@);
    proof {
        lemma_nodes_view(nodes@);
    }
    let mut i: usize = 0;
    while i < nodes.len()
        invariant
            pad@ == spaces(pad@.len()),
            views == nodes_view(nodes@),
            views.len() == nodes@.len(),
            forall|k: int| 0 <= k < nodes@.len() ==> #[trigger] views[k] == nodes@[k]@,
            i <= nodes@.len(),
            buf@ == old(buf)@ + nodes_text(views.take(i as int), pad@.len()),
        decreases nodes.len() - i,
    {
        emit_node(buf, pad, &nodes[i]);
        i += 1;
        proof {
            assert(views.take(i as int).drop_last() =~= views.take(i - 1));
            assert(views.take(i as int).last() == views[i - 1]);
        }
    }
    assert(views.take(i as int) =~= views);
}

/// Appends to `buf` the text of `node` and of all below it, the node itself
/// at `indent`.
pub fn serialize_to_test_format(buf: &mut String, indent: usize, node: &Node)
    ensures
        final(buf)@ == old(buf)@ + node_text(node@, indent as nat),
{
    let pad = padding(indent);
    emit_node(buf, pad.as_str(), node);
}

/// The canonical text of the document below `document`: its children from
/// indent 1 on, without the newline that would end the text.
pub fn dom_to_test_format(document: &Node) -> (text: String)
    ensures
        text@ == document_text(document@),
{
    let mut text = String::new();
    let pad = padding(1);
    emit_nodes(&mut text, pad.as_str(), &document.children);
    proof {
        lemma_nodes_text_ends_with_newline(document@.children, 1);
        assert(text@ =~= nodes_text(document@.children, 1));
    }
    if !text.as_str().is_empty() {
        text.pop();
    }
    text
}

} // verus!
