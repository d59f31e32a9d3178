//! XML elements as the conversion reads them, and the reading of an XML
//! text into them with `roxmltree`.
//!
//! `roxmltree` parses the text and lists the nodes of the document in
//! document order; each node is recorded with the positions of its
//! children in that list. The element tree is then built from the list.

use vstd::prelude::*;

verus! {

/// An attribute of an element.
#[derive(Debug)]
pub struct XmlAttribute {
    pub name: String,
    pub namespace: Option<String>,
    pub value: String,
}

/// An element, with what the conversion reads of it.
#[derive(Debug)]
pub struct XmlElement {
    /// The local name of the element.
    pub name: String,
    /// The namespace URI of the element.
    pub namespace: Option<String>,
    /// The text of the first child node, when that node is a text node.
    pub text: Option<String>,
    /// Whether the element has child nodes of any kind.
    pub has_children: bool,
    /// The attributes, in document order.
    pub attributes: Vec<XmlAttribute>,
    /// The child elements, in document order.
    pub children: Vec<XmlElement>,
}

/// A node of a parsed document, in the list of all its nodes.
#[derive(Debug)]
pub struct XmlNode {
    pub is_element: bool,
    pub name: String,
    pub namespace: Option<String>,
    pub text: Option<String>,
    pub has_children: bool,
    pub attributes: Vec<XmlAttribute>,
    /// The positions of the child nodes in the list of nodes.
    pub children: Vec<usize>,
}

/// The error that `roxmltree` reports for an XML text: its message and the
/// position (row and column, from 1) where it was found.
#[derive(Debug, PartialEq)]
pub struct XmlSyntaxError {
    pub message: String,
    pub row: u32,
    pub col: u32,
}

/// Why an XML text could not be read.
#[derive(Debug)]
pub enum XmlError {
    /// The text is not well-formed XML, or it holds a DTD that is not allowed.
    Syntax(XmlSyntaxError),
}

// ---------------------------------------------------------------------
// Models
// ---------------------------------------------------------------------

pub struct SpecSyntaxError {
    pub message: Seq<char>,
    pub row: u32,
    pub col: u32,
}

impl View for XmlSyntaxError {
    type V = SpecSyntaxError;

    open spec fn view(&self) -> SpecSyntaxError {
        SpecSyntaxError { message: self.message@, row: self.row, col: self.col }
    }
}

pub struct SpecAttr {
    pub name: Seq<char>,
    pub namespace: Option<Seq<char>>,
    pub value: Seq<char>,
}

pub struct SpecXml {
    pub name: Seq<char>,
    pub namespace: Option<Seq<char>>,
    pub text: Option<Seq<char>>,
    pub has_children: bool,
    pub attributes: Seq<SpecAttr>,
    pub children: Seq<SpecXml>,
}

pub struct SpecNode {
    pub is_element: bool,
    pub name: Seq<char>,
    pub namespace: Option<Seq<char>>,
    pub text: Option<Seq<char>>,
    pub has_children: bool,
    pub attributes: Seq<SpecAttr>,
    pub children: Seq<usize>,
}

pub open spec fn opt_view(o: Option<String>) -> Option<Seq<char>> {
    match o {
        Some(s) => Some(s@),
        None => None,
    }
}

impl View for XmlAttribute {
    type V = SpecAttr;

    open spec fn view(&self) -> SpecAttr {
        SpecAttr { name: self.name@, namespace: opt_view(self.namespace), value: self.value@ }
    }
}

pub open spec fn attrs_view(v: Seq<XmlAttribute>) -> Seq<SpecAttr> {
    Seq::new(v.len(), |i: int| v[i]@)
}

pub open spec fn xml_view(e: XmlElement) -> SpecXml
    decreases e,
{
    SpecXml {
        name: e.name@,
        namespace: opt_view(e.namespace),
        text: opt_view(e.text),
        has_children: e.has_children,
        attributes: attrs_view(e.attributes@),
        children: Seq::new(
            e.children.len() as nat,
            |i: int|
                if 0 <= i < e.children.len() {
                    xml_view(e.children@[i])
                } else {
                    arbitrary()
                },
        ),
    }
}

impl View for XmlElement {
    type V = SpecXml;

    open spec fn view(&self) -> SpecXml {
        xml_view(*self)
    }
}

pub open spec fn elements_view(v: Seq<XmlElement>) -> Seq<SpecXml> {
    Seq::new(v.len(), |i: int| v[i]@)
}

pub proof fn lemma_element_view(e: XmlElement)
    ensures
        e@.children == elements_view(e.children@),
        e@.name == e.name@,
        e@.namespace == opt_view(e.namespace),
        e@.text == opt_view(e.text),
        e@.has_children == e.has_children,
        e@.attributes == attrs_view(e.attributes@),
{
    assert(e@.children =~= elements_view(e.children@));
}

impl View for XmlNode {
    type V = SpecNode;

    open spec fn view(&self) -> SpecNode {
        SpecNode {
            is_element: self.is_element,
            name: self.name@,
            namespace: opt_view(self.namespace),
            text: opt_view(self.text),
            has_children: self.has_children,
            attributes: attrs_view(self.attributes@),
            children: self.children@,
        }
    }
}

pub open spec fn nodes_view(v: Seq<XmlNode>) -> Seq<SpecNode> {
    Seq::new(v.len(), |i: int| v[i]@)
}

/// The element at position `i` of the node list, with as children the
/// elements among the child positions that lie after `i` in the list.
pub open spec fn tree_at(nodes: Seq<SpecNode>, i: int) -> SpecXml
    decreases nodes.len() - i, nodes[i].children.len() + 1,
{
    let n = nodes[i];
    SpecXml {
        name: n.name,
        namespace: n.namespace,
        text: n.text,
        has_children: n.has_children,
        attributes: n.attributes,
        children: kids_upto(nodes, i, n.children.len() as int),
    }
}

/// The child elements of the node at `i` among its first `k` child positions.
pub open spec fn kids_upto(nodes: Seq<SpecNode>, i: int, k: int) -> Seq<SpecXml>
    decreases nodes.len() - i, k,
{
    if k <= 0 {
        Seq::empty()
    } else {
        let j = nodes[i].children[k - 1] as int;
        let rest = kids_upto(nodes, i, k - 1);
        if i < j < nodes.len() && nodes[j].is_element {
            rest.push(tree_at(nodes, j))
        } else {
            rest
        }
    }
}

/// The first child position of the first node at or after the `k`-th
/// that names an element: where `roxmltree` finds the root element.
pub open spec fn first_element_child(nodes: Seq<SpecNode>, k: int) -> Option<int>
    decreases nodes[0].children.len() - k,
{
    if nodes.len() == 0 || k < 0 || k >= nodes[0].children.len() {
        None
    } else {
        let j = nodes[0].children[k] as int;
        if 0 < j < nodes.len() && nodes[j].is_element {
            Some(j)
        } else {
            first_element_child(nodes, k + 1)
        }
    }
}

/// The element tree of a node list: the tree of its root element.
pub open spec fn document_tree(nodes: Seq<SpecNode>) -> Option<SpecXml> {
    match first_element_child(nodes, 0) {
        Some(r) => Some(tree_at(nodes, r)),
        None => None,
    }
}

// ---------------------------------------------------------------------
// roxmltree
// ---------------------------------------------------------------------

#[verifier::external_type_specification]
#[verifier::external_body]
pub struct ExRoxNode<'a, 'input: 'a>(roxmltree::Node<'a, 'input>);

#[verifier::external_type_specification]
#[verifier::external_body]
pub struct ExRoxAttribute<'a, 'input: 'a>(roxmltree::Attribute<'a, 'input>);

/// What `roxmltree` reads from `text`, with DTDs allowed or not: the node
/// list of the document, or the error it reports.
pub uninterp spec fn roxmltree_nodes(text: Seq<char>, allow_dtd: bool) -> Result<Seq<SpecNode>, SpecSyntaxError>;

/// Calls `roxmltree::Document::parse_with_options` with the default
/// options but `allow_dtd`, and lists the nodes of the document in the
/// order of `Document::descendants`, or gives the error's message
/// (`Display`) and position (`Error::pos`). Claimed: the outcome is a
/// function of the text and the flag, named `roxmltree_nodes`; and a parsed
/// document has an element among the children of its root node (the parse
/// fails with `Error::NoRootNode` otherwise), the list position of a node
/// being its `NodeId`.
#[verifier::external_body]
fn parse_document(xml: &str, allow_dtd: bool) -> (res: Result<Vec<XmlNode>, XmlSyntaxError>)
    ensures
        roxmltree_nodes(xml@, allow_dtd) == match res {
            Ok(v) => Ok(nodes_view(v@)),
            Err(e) => Err(e@),
        },
        res matches Ok(v) ==> document_tree(nodes_view(v@)) is Some,
{
    let options = roxmltree::ParsingOptions { allow_dtd, ..roxmltree::ParsingOptions::default() };
    match roxmltree::Document::parse_with_options(xml, options) {
        Ok(doc) => Ok(doc.descendants().map(|n| node_record(n)).collect()),
        Err(e) => Err(XmlSyntaxError { message: e.to_string(), row: e.pos().row, col: e.pos().col }),
    }
}

/// `Node::is_element`.
#[verifier::external_body]
fn node_is_element(n: roxmltree::Node<'_, '_>) -> bool {
    n.is_element()
}

/// The local name of `Node::tag_name`.
#[verifier::external_body]
fn node_tag_name(n: roxmltree::Node<'_, '_>) -> String {
    n.tag_name().name().to_owned()
}

/// The namespace of `Node::tag_name`.
#[verifier::external_body]
fn node_tag_namespace(n: roxmltree::Node<'_, '_>) -> Option<String> {
    n.tag_name().namespace().map(|s| s.to_owned())
}

/// `Node::text`.
#[verifier::external_body]
fn node_text(n: roxmltree::Node<'_, '_>) -> Option<String> {
    n.text().map(|s| s.to_owned())
}

/// `Node::has_children`.
#[verifier::external_body]
fn node_has_children(n: roxmltree::Node<'_, '_>) -> bool {
    n.has_children()
}

/// `Node::attributes`, each recorded by `attribute_record`.
#[verifier::external_body]
fn node_attributes(n: roxmltree::Node<'_, '_>) -> Vec<XmlAttribute> {
    n.attributes().map(|a| attribute_record(a)).collect()
}

/// `Node::children`, each recorded by its position.
#[verifier::external_body]
fn node_child_positions(n: roxmltree::Node<'_, '_>) -> Vec<usize> {
    n.children().map(|c| node_position(c)).collect()
}

/// `NodeId::get_usize` of `Node::id`.
#[verifier::external_body]
fn node_id(n: roxmltree::Node<'_, '_>) -> usize {
    n.id().get_usize()
}

/// `Attribute::name`.
#[verifier::external_body]
fn attribute_name(a: roxmltree::Attribute<'_, '_>) -> String {
    a.name().to_owned()
}

/// `Attribute::namespace`.
#[verifier::external_body]
fn attribute_namespace(a: roxmltree::Attribute<'_, '_>) -> Option<String> {
    a.namespace().map(|s| s.to_owned())
}

/// `Attribute::value`.
#[verifier::external_body]
fn attribute_value(a: roxmltree::Attribute<'_, '_>) -> String {
    a.value().to_owned()
}

fn node_position(n: roxmltree::Node<'_, '_>) -> usize {
    node_id(n)
}

fn attribute_record(a: roxmltree::Attribute<'_, '_>) -> XmlAttribute {
    XmlAttribute {
        name: attribute_name(a),
        namespace: attribute_namespace(a),
        value: attribute_value(a),
    }
}

fn node_record(n: roxmltree::Node<'_, '_>) -> XmlNode {
    XmlNode {
        is_element: node_is_element(n),
        name: node_tag_name(n),
        namespace: node_tag_namespace(n),
        text: node_text(n),
        has_children: node_has_children(n),
        attributes: node_attributes(n),
        children: node_child_positions(n),
    }
}

// ---------------------------------------------------------------------
// Building the element tree
// ---------------------------------------------------------------------

fn copy_opt_string(o: &Option<String>) -> (res: Option<String>)
    ensures
        opt_view(res) == opt_view(*o),
{
    match o {
        Some(s) => Some(s.clone()),
        None => None,
    }
}

fn copy_attributes(v: &Vec<XmlAttribute>) -> (res: Vec<XmlAttribute>)
    ensures
        attrs_view(res@) == attrs_view(v@),
{
    let mut out: Vec<XmlAttribute> = Vec::new();
    let mut i: usize = 0;
    while i < v.len()
        invariant
            i <= v.len(),
            out.len() == i,
            forall|j: int| 0 <= j < i ==> #[trigger] out@[j]@ == v@[j]@,
        decreases v.len() - i,
    {
        let a = XmlAttribute {
            name: v[i].name.clone(),
            namespace: copy_opt_string(&v[i].namespace),
            value: v[i].value.clone(),
        };
        out.push(a);
        i = i + 1;
    }
    assert(attrs_view(out@) =~= attrs_view(v@));
    out
}

/// The element at position `i` of the node list.
fn build_element(nodes: &Vec<XmlNode>, i: usize) -> (res: XmlElement)
    requires
        i < nodes.len(),
    ensures
        res@ == tree_at(nodes_view(nodes@), i as int),
    decreases nodes.len() - i, nodes@[i as int].children.len() + 1,
{
    let ghost nv = nodes_view(nodes@);
    let node = &nodes[i];
    let cl = node.children.len();
    let mut kids: Vec<XmlElement> = Vec::new();
    let mut k: usize = 0;
    while k < cl
        invariant
            i < nodes.len(),
            nv == nodes_view(nodes@),
            *node == nodes@[i as int],
            cl == node.children.len(),
            nv[i as int].children == node.children@,
            k <= cl,
            elements_view(kids@) == kids_upto(nv, i as int, k as int),
        decreases cl - k,
    {
        let j = node.children[k];
        let ghost before = kids@;
        if i < j && j < nodes.len() && nodes[j].is_element {
            let child = build_element(nodes, j);
            kids.push(child);
            assert(elements_view(kids@) =~= elements_view(before).push(tree_at(nv, j as int)));
        }
        k = k + 1;
    }
    let e = XmlElement {
        name: node.name.clone(),
        namespace: copy_opt_string(&node.namespace),
        text: copy_opt_string(&node.text),
        has_children: node.has_children,
        attributes: copy_attributes(&node.attributes),
        children: kids,
    };
    proof {
        lemma_element_view(e);
    }
    e
}

/// The position of the root element in the node list.
fn find_root_element(nodes: &Vec<XmlNode>) -> (res: Option<usize>)
    ensures
        match first_element_child(nodes_view(nodes@), 0) {
            Some(r) => res == Some(r as usize) && 0 < r < nodes.len(),
            None => res is None,
        },
{
    let ghost nv = nodes_view(nodes@);
    if nodes.len() == 0 {
        return None;
    }
    let root = &nodes[0];
    let mut k: usize = 0;
    while k < root.children.len()
        invariant
            nodes.len() > 0,
            nv == nodes_view(nodes@),
            *root == nodes@[0],
            nv[0].children == root.children@,
            k <= root.children.len(),
            first_element_child(nv, 0) == first_element_child(nv, k as int),
        decreases root.children.len() - k,
    {
        let j = root.children[k];
        if 0 < j && j < nodes.len() && nodes[j].is_element {
            return Some(j);
        }
        k = k + 1;
    }
    None
}

/// The element tree of a node list: the element at the first child position
/// of the first node that names an element, with its descendants.
pub fn document_element(nodes: &Vec<XmlNode>) -> (res: Option<XmlElement>)
    ensures
        match document_tree(nodes_view(nodes@)) {
            Some(t) => res matches Some(e) && e@ == t,
            None => res is None,
        },
{
    match find_root_element(nodes) {
        Some(r) => Some(build_element(nodes, r)),
        None => None,
    }
}

/// The element tree that `roxmltree` reads from `xml`, DTDs allowed or not.
pub fn parse_xml(xml: &str, allow_dtd: bool) -> (res: Result<XmlElement, XmlError>)
    ensures
        match roxmltree_nodes(xml@, allow_dtd) {
            Err(e) => res matches Err(XmlError::Syntax(s)) && s@ == e,
            Ok(nodes) => document_tree(nodes) is Some && (res matches Ok(e) && e@ == document_tree(
                nodes,
            )->0),
        },
{
    match parse_document(xml, allow_dtd) {
        Err(e) => Err(XmlError::Syntax(e)),
        Ok(nodes) => match document_element(&nodes) {
            Some(e) => Ok(e),
            None => unreached(),
        },
    }
}

} // verus!
