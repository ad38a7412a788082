//! KDL documents as plain data, and the reading of a text into one.

use vstd::prelude::*;

verus! {

/// A value of a document, as far as a world reads it.
#[derive(Clone, Debug)]
pub enum DocValue {
    Text(String),
    Integer(i128),
    /// Any other value: a float, a boolean, null.
    Other,
}

/// The mathematical value of a [`DocValue`].
pub enum DocValueView {
    Text(Seq<char>),
    Integer(i128),
    Other,
}

impl View for DocValue {
    type V = DocValueView;

    open spec fn view(&self) -> DocValueView {
        match *self {
            DocValue::Text(s) => DocValueView::Text(s@),
            DocValue::Integer(i) => DocValueView::Integer(i),
            DocValue::Other => DocValueView::Other,
        }
    }
}

/// A node of a document: its name, the values of its entries in order
/// (arguments and named entries alike), and its block of children where it has
/// one.
#[derive(Debug)]
pub struct DocNode {
    pub name: String,
    pub entries: Vec<DocValue>,
    pub children: Option<Vec<DocNode>>,
}

/// The mathematical value of a [`DocNode`].
pub struct DocNodeView {
    pub name: Seq<char>,
    pub entries: Seq<DocValueView>,
    pub children: Option<Seq<DocNodeView>>,
}

/// The value of a node: name, entries, and the values of its children.
pub open spec fn node_view(n: DocNode) -> DocNodeView
    decreases n,
{
    DocNodeView {
        name: n.name@,
        entries: n.entries@.map_values(|v: DocValue| v@),
        children: match n.children {
            Some(c) => Some(
                Seq::new(
                    c.len() as nat,
                    |i: int|
                        if 0 <= i < c.len() {
                            node_view(c[i])
                        } else {
                            arbitrary()
                        },
                ),
            ),
            None => None,
        },
    }
}

impl View for DocNode {
    type V = DocNodeView;

    open spec fn view(&self) -> DocNodeView {
        node_view(*self)
    }
}

/// The values of a list of nodes.
pub open spec fn nodes_view(nodes: Seq<DocNode>) -> Seq<DocNodeView> {
    nodes.map_values(|n: DocNode| n@)
}

/// `kdl::KdlDocument`, a parsed document, taken as it is: nothing is
/// known of it but what `kdl_nodes` names.
#[verifier::external_type_specification]
#[verifier::external_body]
pub struct ExKdlDocument(kdl::KdlDocument);

/// What `kdl` reads out of a text: the nodes of the document, or `None`
/// where the text is not a KDL document.
pub uninterp spec fn kdl_parse(text: Seq<char>) -> Option<Seq<DocNodeView>>;

/// The nodes that a parsed document holds, in order.
pub uninterp spec fn kdl_nodes(doc: kdl::KdlDocument) -> Seq<DocNodeView>;

/// `kdl`'s `KdlDocument::from_str`: the document that the text denotes.
/// The error that says why a text is no document is dropped.
#[verifier::external_body]
fn parse_kdl(data: &str) -> (r: Option<kdl::KdlDocument>)
    ensures
        match r {
            Some(doc) => kdl_parse(data@) == Some(kdl_nodes(doc)),
            None => kdl_parse(data@) is None,
        },
{
    data.parse::<kdl::KdlDocument>().ok()
}

/// `KdlDocument::nodes`, with `KdlNode::name`, `KdlNode::entries`,
/// `KdlEntry::value` and `KdlNode::children` on each node: the nodes of a
/// document, each value carried over as it is.
#[verifier::external_body]
fn document_nodes(doc: &kdl::KdlDocument) -> (nodes: Vec<DocNode>)
    ensures
        nodes_view(nodes@) == kdl_nodes(*doc),
{
    doc.nodes().iter().map(|n| DocNode {
        name: n.name().value().to_string(),
        entries: n.entries().iter().map(|e| match e.value() {
            kdl::KdlValue::String(s) => DocValue::Text(s.clone()),
            kdl::KdlValue::Integer(i) => DocValue::Integer(*i),
            kdl::KdlValue::Float(_) | kdl::KdlValue::Bool(_) | kdl::KdlValue::Null => DocValue::Other,
        }).collect(),
        children: n.children().map(document_nodes),
    }).collect()
}

/// The nodes of the document that `data` denotes.
pub fn read_document(data: &str) -> (r: Option<Vec<DocNode>>)
    ensures
        match r {
            Some(nodes) => kdl_parse(data@) == Some(nodes_view(nodes@)),
            None => kdl_parse(data@) is None,
        },
{
    match parse_kdl(data) {
        Some(doc) => Some(document_nodes(&doc)),
        None => None,
    }
}

} // verus!
