use html_bench::serialize::{dom_to_test_format, serialize_to_test_format};
use html_bench::tree::{Attribute, Node, NodeData, QualName};

const HTML: &str = "http://www.w3.org/1999/xhtml";
const SVG: &str = "http://www.w3.org/2000/svg";
const MATHML: &str = "http://www.w3.org/1998/Math/MathML";
const XLINK: &str = "http://www.w3.org/1999/xlink";
const XML: &str = "http://www.w3.org/XML/1998/namespace";
const XMLNS: &str = "http://www.w3.org/2000/xmlns/";

fn qual(ns: &str, local: &str) -> QualName {
    QualName { ns: ns.to_string(), local: local.to_string() }
}

fn attr(ns: &str, local: &str, value: &str) -> Attribute {
    Attribute { name: qual(ns, local), value: value.to_string() }
}

fn leaf(data: NodeData) -> Node {
    Node { data, children: Vec::new() }
}

fn text(contents: &str) -> Node {
    leaf(NodeData::Text { contents: contents.to_string() })
}

fn comment(contents: &str) -> Node {
    leaf(NodeData::Comment { contents: contents.to_string() })
}

fn doctype(name: &str, public_id: &str, system_id: &str) -> Node {
    leaf(NodeData::Doctype {
        name: name.to_string(),
        public_id: public_id.to_string(),
        system_id: system_id.to_string(),
    })
}

fn element(ns: &str, local: &str, attrs: Vec<Attribute>, children: Vec<Node>) -> Node {
    Node {
        data: NodeData::Element { name: qual(ns, local), attrs, template_contents: None },
        children,
    }
}

fn document(children: Vec<Node>) -> Node {
    Node { data: NodeData::Document, children }
}

#[test]
fn empty_document_gives_empty_text() {
    assert_eq!(dom_to_test_format(&document(vec![])), "");
}

#[test]
fn document_root_writes_no_line() {
    let doc = document(vec![element(HTML, "html", vec![], vec![])]);
    assert_eq!(dom_to_test_format(&doc), "| <html>");
}

#[test]
fn trailing_newline_is_stripped_once() {
    let doc = document(vec![text("a\n")]);
    assert_eq!(dom_to_test_format(&doc), "| \"a\n\"");
    let doc = document(vec![comment("x"), comment("y")]);
    assert_eq!(dom_to_test_format(&doc), "| <!-- x -->\n| <!-- y -->");
}

#[test]
fn doctype_without_identifiers() {
    let doc = document(vec![doctype("html", "", "")]);
    assert_eq!(dom_to_test_format(&doc), "| <!DOCTYPE html>");
}

#[test]
fn doctype_with_both_identifiers() {
    let doc = document(vec![doctype(
        "html",
        "-//W3C//DTD HTML 4.01//EN",
        "http://www.w3.org/TR/html4/strict.dtd",
    )]);
    assert_eq!(
        dom_to_test_format(&doc),
        "| <!DOCTYPE html \"-//W3C//DTD HTML 4.01//EN\" \"http://www.w3.org/TR/html4/strict.dtd\">"
    );
}

#[test]
fn doctype_with_one_identifier_quotes_both() {
    let doc = document(vec![doctype("html", "pub", "")]);
    assert_eq!(dom_to_test_format(&doc), "| <!DOCTYPE html \"pub\" \"\">");
    let doc = document(vec![doctype("html", "", "sys")]);
    assert_eq!(dom_to_test_format(&doc), "| <!DOCTYPE html \"\" \"sys\">");
}

#[test]
fn doctype_with_empty_name() {
    let doc = document(vec![doctype("", "", "")]);
    assert_eq!(dom_to_test_format(&doc), "| <!DOCTYPE >");
}

#[test]
fn text_is_quoted_without_escaping() {
    let doc = document(vec![text("say \"hi\" & <go>")]);
    assert_eq!(dom_to_test_format(&doc), "| \"say \"hi\" & <go>\"");
}

#[test]
fn comment_line() {
    let doc = document(vec![comment(" a -- b ")]);
    assert_eq!(dom_to_test_format(&doc), "| <!--  a -- b  -->");
}

#[test]
fn children_are_two_deeper() {
    let doc = document(vec![element(
        HTML,
        "html",
        vec![],
        vec![
            element(HTML, "head", vec![], vec![]),
            element(HTML, "body", vec![], vec![element(HTML, "p", vec![], vec![text("hi")])]),
        ],
    )]);
    assert_eq!(
        dom_to_test_format(&doc),
        "| <html>\n|   <head>\n|   <body>\n|     <p>\n|       \"hi\""
    );
}

#[test]
fn svg_and_math_elements_carry_a_prefix() {
    let doc = document(vec![
        element(SVG, "svg", vec![], vec![element(SVG, "circle", vec![], vec![])]),
        element(MATHML, "mi", vec![], vec![]),
        element(HTML, "div", vec![], vec![]),
        element("", "plain", vec![], vec![]),
        element("urn:other", "thing", vec![], vec![]),
    ]);
    assert_eq!(
        dom_to_test_format(&doc),
        "| <svg svg>\n|   <svg circle>\n| <math mi>\n| <div>\n| <plain>\n| <thing>"
    );
}

#[test]
fn attributes_are_sorted_by_local_name() {
    let doc = document(vec![element(
        HTML,
        "a",
        vec![attr("", "title", "t"), attr("", "href", "#"), attr("", "class", "c d")],
        vec![text("x")],
    )]);
    assert_eq!(
        dom_to_test_format(&doc),
        "| <a>\n|   class=\"c d\"\n|   href=\"#\"\n|   title=\"t\"\n|   \"x\""
    );
}

#[test]
fn attribute_order_is_by_bytes() {
    let doc = document(vec![element(
        HTML,
        "a",
        vec![
            attr("", "b", "1"),
            attr("", "ab", "2"),
            attr("", "a", "3"),
            attr("", "B", "4"),
            attr("", "\u{e9}", "5"),
            attr("", "z", "6"),
        ],
        vec![],
    )]);
    assert_eq!(
        dom_to_test_format(&doc),
        "| <a>\n|   B=\"4\"\n|   a=\"3\"\n|   ab=\"2\"\n|   b=\"1\"\n|   z=\"6\"\n|   \u{e9}=\"5\""
    );
}

#[test]
fn attributes_of_one_local_name_keep_their_stored_order() {
    let first = element(
        SVG,
        "use",
        vec![attr(XLINK, "href", "x"), attr("", "id", "i"), attr("", "href", "plain")],
        vec![],
    );
    assert_eq!(
        dom_to_test_format(&document(vec![first])),
        "| <svg use>\n|   xlink href=\"x\"\n|   href=\"plain\"\n|   id=\"i\""
    );
    let second = element(
        SVG,
        "use",
        vec![attr("", "href", "plain"), attr("", "id", "i"), attr(XLINK, "href", "x")],
        vec![],
    );
    assert_eq!(
        dom_to_test_format(&document(vec![second])),
        "| <svg use>\n|   href=\"plain\"\n|   xlink href=\"x\"\n|   id=\"i\""
    );
}

#[test]
fn attribute_namespaces_carry_a_prefix() {
    let doc = document(vec![element(
        SVG,
        "a",
        vec![
            attr(XMLNS, "xlink", "u"),
            attr(XML, "lang", "en"),
            attr(XLINK, "href", "#"),
            attr(HTML, "other", "o"),
            attr(SVG, "shape", "s"),
        ],
        vec![],
    )]);
    assert_eq!(
        dom_to_test_format(&doc),
        "| <svg a>\n|   xlink href=\"#\"\n|   xml lang=\"en\"\n|   other=\"o\"\n|   shape=\"s\"\n|   xmlns xlink=\"u\""
    );
}

#[test]
fn attribute_value_is_not_escaped() {
    let doc = document(vec![element(HTML, "i", vec![attr("", "t", "a\"b")], vec![])]);
    assert_eq!(dom_to_test_format(&doc), "| <i>\n|   t=\"a\"b\"");
}

#[test]
fn template_contents_follow_the_children() {
    let held = document(vec![element(HTML, "b", vec![], vec![text("in")]), text("tail")]);
    let template = Node {
        data: NodeData::Element {
            name: qual(HTML, "template"),
            attrs: vec![attr("", "id", "t")],
            template_contents: Some(Box::new(held)),
        },
        children: vec![text("child")],
    };
    let doc = document(vec![element(HTML, "body", vec![], vec![template])]);
    assert_eq!(
        dom_to_test_format(&doc),
        "| <body>\n|   <template>\n|     id=\"t\"\n|     \"child\"\n|     content\n|       <b>\n|         \"in\"\n|       \"tail\""
    );
}

#[test]
fn empty_template_contents_still_give_the_marker() {
    let template = Node {
        data: NodeData::Element {
            name: qual(HTML, "template"),
            attrs: vec![],
            template_contents: Some(Box::new(document(vec![]))),
        },
        children: vec![],
    };
    assert_eq!(dom_to_test_format(&document(vec![template])), "| <template>\n|   content");
}

#[test]
fn processing_instruction_writes_no_line_but_its_children() {
    let pi = Node {
        data: NodeData::ProcessingInstruction {
            target: "xml".to_string(),
            contents: "version".to_string(),
        },
        children: vec![text("inside")],
    };
    let doc = document(vec![comment("a"), pi, comment("b")]);
    assert_eq!(dom_to_test_format(&doc), "| <!-- a -->\n|   \"inside\"\n| <!-- b -->");
    let alone = leaf(NodeData::ProcessingInstruction {
        target: "t".to_string(),
        contents: String::new(),
    });
    assert_eq!(dom_to_test_format(&document(vec![alone])), "");
}

#[test]
fn children_of_text_comment_and_doctype_are_two_deeper() {
    let mut t = text("t");
    t.children.push(comment("under text"));
    let mut c = comment("c");
    c.children.push(text("under comment"));
    let mut d = doctype("html", "", "");
    d.children.push(text("under doctype"));
    let doc = document(vec![t, c, d]);
    assert_eq!(
        dom_to_test_format(&doc),
        "| \"t\"\n|   <!-- under text -->\n| <!-- c -->\n|   \"under comment\"\n| <!DOCTYPE html>\n|   \"under doctype\""
    );
}

#[test]
fn nested_document_writes_no_line_and_keeps_the_indent() {
    let inner = document(vec![text("deep")]);
    let doc = document(vec![element(HTML, "p", vec![], vec![inner])]);
    assert_eq!(dom_to_test_format(&doc), "| <p>\n|   \"deep\"");
}

#[test]
fn serialize_appends_at_the_given_indent() {
    let mut buf = String::from("seen\n");
    let node = element(HTML, "p", vec![attr("", "id", "x")], vec![text("hi")]);
    serialize_to_test_format(&mut buf, 0, &node);
    assert_eq!(buf, "seen\n|<p>\n|  id=\"x\"\n|  \"hi\"\n");
    serialize_to_test_format(&mut buf, 3, &text("t"));
    assert_eq!(buf, "seen\n|<p>\n|  id=\"x\"\n|  \"hi\"\n|   \"t\"\n");
}

#[test]
fn serialize_of_a_document_node_writes_only_its_children() {
    let mut buf = String::new();
    serialize_to_test_format(&mut buf, 2, &document(vec![text("a"), text("b")]));
    assert_eq!(buf, "|  \"a\"\n|  \"b\"\n");
}

#[test]
fn serialization_is_repeatable() {
    let doc = document(vec![
        doctype("html", "", ""),
        element(
            HTML,
            "html",
            vec![attr("", "lang", "en"), attr("", "class", "k")],
            vec![comment("c"), text("t")],
        ),
    ]);
    let first = dom_to_test_format(&doc);
    let second = dom_to_test_format(&doc);
    assert_eq!(first.as_bytes(), second.as_bytes());
    assert_eq!(
        first,
        "| <!DOCTYPE html>\n| <html>\n|   class=\"k\"\n|   lang=\"en\"\n|   <!-- c -->\n|   \"t\""
    );
}

#[test]
fn same_structure_built_another_way_gives_the_same_text() {
    // Top down, from literals.
    let top_down = document(vec![element(
        HTML,
        "ul",
        vec![attr("", "id", "list")],
        vec![
            element(HTML, "li", vec![], vec![text("one")]),
            element(HTML, "li", vec![], vec![text("two")]),
        ],
    )]);
    // Bottom up, by pushing into trees that exist already.
    let mut bottom_up = Node { data: NodeData::Document, children: Vec::with_capacity(8) };
    let mut list = Node {
        data: NodeData::Element {
            name: QualName { ns: String::from(HTML), local: String::from("ul") },
            attrs: Vec::new(),
            template_contents: None,
        },
        children: Vec::new(),
    };
    for word in ["one", "two"] {
        let mut item = element(HTML, "li", Vec::new(), Vec::new());
        let mut contents = String::with_capacity(16);
        contents.push_str(word);
        item.children.push(leaf(NodeData::Text { contents }));
        list.children.push(item);
    }
    if let NodeData::Element { attrs, .. } = &mut list.data {
        attrs.push(attr("", "id", "list"));
    }
    bottom_up.children.push(list);
    let expected = "| <ul>\n|   id=\"list\"\n|   <li>\n|     \"one\"\n|   <li>\n|     \"two\"";
    assert_eq!(dom_to_test_format(&top_down), expected);
    assert_eq!(dom_to_test_format(&bottom_up), expected);
}

#[test]
fn deep_nesting_keeps_adding_two() {
    let mut node = text("leaf");
    for _ in 0..40 {
        node = element(HTML, "div", vec![], vec![node]);
    }
    let out = dom_to_test_format(&document(vec![node]));
    let lines: Vec<&str> = out.split('\n').collect();
    assert_eq!(lines.len(), 41);
    for (depth, line) in lines.iter().enumerate() {
        let pad = " ".repeat(1 + 2 * depth);
        if depth < 40 {
            assert_eq!(*line, format!("|{}<div>", pad));
        } else {
            assert_eq!(*line, format!("|{}\"leaf\"", pad));
        }
    }
}

#[test]
fn a_cloned_tree_has_the_same_text_and_a_life_of_its_own() {
    let held = document(vec![text("kept")]);
    let template = Node {
        data: NodeData::Element {
            name: qual(HTML, "template"),
            attrs: vec![attr(XML, "lang", "en"), attr("", "id", "t")],
            template_contents: Some(Box::new(held)),
        },
        children: vec![comment("c"), doctype("d", "p", "")],
    };
    let source = document(vec![template]);
    let mut copy = source.clone();
    let expected = "| <template>\n|   id=\"t\"\n|   xml lang=\"en\"\n|   <!-- c -->\n|   <!DOCTYPE d \"p\" \"\">\n|   content\n|     \"kept\"";
    assert_eq!(dom_to_test_format(&source), expected);
    assert_eq!(dom_to_test_format(&copy), expected);
    copy.children.push(text("more"));
    assert_eq!(dom_to_test_format(&source), expected);
    assert_eq!(dom_to_test_format(&copy), format!("{}\n| \"more\"", expected));
}
