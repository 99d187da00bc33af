//! The parsed document, as the annotation engine reads it.
//!
//! Parsing, selecting and serialising are the work of `scraper`. Its tree is
//! read once into `DomNode`, a plain tree that the engine then walks.

use ego_tree::NodeRef;
use html5ever::{LocalName, Namespace, Prefix, QualName};
use scraper::{ElementRef, Html, Node, Selector};
use std::ops::Deref;
use vstd::prelude::*;

verus! {

/// One attribute of an element: its qualified name and its value.
#[derive(Debug, Clone, PartialEq, Eq)]
pub struct Attribute {
    /// The namespace prefix, as in `xlink:href`.
    pub prefix: Option<String>,
    /// The namespace, which is empty for the attributes of HTML.
    pub ns: String,
    /// The name within the namespace.
    pub local: String,
    /// The value.
    pub value: String,
}

/// An element's own data: its local name and its attributes, in order.
#[derive(Debug, Clone, PartialEq, Eq)]
pub struct Element {
    pub name: String,
    pub attrs: Vec<Attribute>,
}

/// What a node is, apart from its children.
#[derive(Debug, Clone, PartialEq, Eq)]
pub enum NodeData {
    Text(String),
    Element(Element),
    Other,
}

/// A node with everything below it.
#[derive(Debug)]
pub struct DomNode {
    pub data: NodeData,
    pub children: Vec<DomNode>,
}

/// An attribute, its texts taken by their characters.
pub struct AttributeView {
    pub prefix: Option<Seq<char>>,
    pub ns: Seq<char>,
    pub local: Seq<char>,
    pub value: Seq<char>,
}

/// An element's own data, its texts taken by their characters.
pub struct ElementView {
    pub name: Seq<char>,
    pub attrs: Seq<AttributeView>,
}

/// What a node is, its texts taken by their characters.
pub enum NodeDataView {
    Text(Seq<char>),
    Element(ElementView),
    Other,
}

/// A node with everything below it, its texts taken by their characters.
pub struct DomTree {
    pub data: NodeDataView,
    pub children: Seq<DomTree>,
}

impl View for Attribute {
    type V = AttributeView;

    open spec fn view(&self) -> AttributeView {
        AttributeView {
            prefix: match self.prefix {
                Some(p) => Some(p@),
                None => None,
            },
            ns: self.ns@,
            local: self.local@,
            value: self.value@,
        }
    }
}

impl View for Element {
    type V = ElementView;

    open spec fn view(&self) -> ElementView {
        ElementView { name: self.name@, attrs: self.attrs@.map_values(|a: Attribute| a@) }
    }
}

impl View for NodeData {
    type V = NodeDataView;

    open spec fn view(&self) -> NodeDataView {
        match self {
            NodeData::Text(text) => NodeDataView::Text(text@),
            NodeData::Element(element) => NodeDataView::Element(element@),
            NodeData::Other => NodeDataView::Other,
        }
    }
}

/// The tree that `node` stands for.
pub open spec fn tree_of(node: DomNode) -> DomTree
    decreases node,
{
    DomTree {
        data: node.data@,
        children: Seq::new(
            node.children@.len(),
            |i: int|
                if 0 <= i < node.children@.len() {
                    tree_of(node.children@[i])
                } else {
                    arbitrary()
                },
        ),
    }
}

impl View for DomNode {
    type V = DomTree;

    open spec fn view(&self) -> DomTree {
        tree_of(*self)
    }
}

/// The views of a node's children.
pub open spec fn forest(nodes: Seq<DomNode>) -> Seq<DomTree> {
    Seq::new(nodes.len(), |i: int| nodes[i]@)
}

/// The children of a node's view are the views of its children.
pub proof fn lemma_children(node: DomNode)
    ensures
        node@.data == node.data@,
        node@.children == forest(node.children@),
{
    assert(node@.children =~= forest(node.children@));
}

/// `scraper::Html`, a parsed document. Nothing is known of what is in it but
/// through the functions below.
#[verifier::external_type_specification]
#[verifier::external_body]
pub struct ExHtml(Html);

/// `scraper::Selector`, a parsed selector.
#[verifier::external_type_specification]
#[verifier::external_body]
pub struct ExSelector(Selector);

/// `scraper::Node`, what a node of a document holds.
#[verifier::external_type_specification]
#[verifier::external_body]
pub struct ExNode(Node);

/// `scraper::ElementRef`, a reference to an element of a document.
#[verifier::external_type_specification]
#[verifier::external_body]
pub struct ExElementRef<'a>(ElementRef<'a>);

/// `ego_tree::NodeRef`, a reference to a node of a tree.
#[verifier::external_type_specification]
#[verifier::external_body]
#[verifier::reject_recursive_types(T)]
pub struct ExNodeRef<'a, T: 'a>(NodeRef<'a, T>);

/// The document that `Html::parse_document` builds from `text`.
pub uninterp spec fn parsed_document(text: Seq<char>) -> Html;

/// The selector that `Selector::parse` reads from `text`, if it reads one.
pub uninterp spec fn parsed_selector(text: Seq<char>) -> Option<Selector>;

/// The first element that `Html::select` yields for `selector`.
pub uninterp spec fn first_selected(doc: Html, selector: Selector) -> Option<ElementRef<'static>>;

/// The elements that `ElementRef::select` yields for `selector`, in its order.
pub uninterp spec fn selected_within(scope: ElementRef<'_>, selector: Selector) -> Seq<
    ElementRef<'static>,
>;

/// What `ElementRef::html` writes for `element`.
pub uninterp spec fn outer_html(element: ElementRef<'_>) -> Seq<char>;

/// The node that `element` refers to.
pub uninterp spec fn node_of(element: ElementRef<'_>) -> NodeRef<'static, Node>;

/// What the tree holds at `node` and below it.
pub uninterp spec fn subtree(node: NodeRef<'_, Node>) -> DomTree;

/// What the `Debug` form of a `scraper` element with this name and these
/// attributes reads. The element keeps its attributes in the order in which
/// they were given.
pub uninterp spec fn open_tag_text(element: ElementView) -> Seq<char>;

/// `Html::parse_document`: the document depends on the text alone.
#[verifier::external_body]
pub(crate) fn parse_document(text: &str) -> (doc: Html)
    ensures
        doc == parsed_document(text@),
{
    Html::parse_document(text)
}

/// `Selector::parse`, its error dropped: whether a selector comes back, and
/// which, depends on the text alone.
#[verifier::external_body]
pub(crate) fn parse_selector(text: &str) -> (selector: Option<Selector>)
    ensures
        selector == parsed_selector(text@),
{
    Selector::parse(text).ok()
}

/// The first item of `Html::select`.
#[verifier::external_body]
pub(crate) fn first_match<'a>(doc: &'a Html, selector: &Selector) -> (found: Option<ElementRef<'a>>)
    ensures
        found == first_selected(*doc, *selector),
{
    doc.select(selector).next()
}

/// All items of `ElementRef::select`, in the order in which it yields them.
#[verifier::external_body]
pub(crate) fn matches_within<'a>(scope: &ElementRef<'a>, selector: &Selector) -> (found: Vec<
    ElementRef<'a>,
>)
    ensures
        found@ == selected_within(*scope, *selector),
{
    scope.select(selector).collect()
}

/// `ElementRef::html`: the element serialised with everything below it.
#[verifier::external_body]
pub(crate) fn serialize(element: &ElementRef<'_>) -> (html: String)
    ensures
        html@ == outer_html(*element),
{
    element.html()
}

/// The node behind an `ElementRef`, which always is an element.
#[verifier::external_body]
pub(crate) fn as_node<'a>(element: &ElementRef<'a>) -> (node: NodeRef<'a, Node>)
    ensures
        node == node_of(*element),
        subtree(node).data is Element,
{
    *element.deref()
}

/// `NodeRef::value`, turned into plain data: the text of a text node, the
/// local name and the attributes of an element.
#[verifier::external_body]
pub(crate) fn node_data(node: &NodeRef<'_, Node>) -> (data: NodeData)
    ensures
        data@ == subtree(*node).data,
{
    match node.value() {
        Node::Text(text) => NodeData::Text(text.text.to_string()),
        Node::Element(element) => NodeData::Element(Element {
            name: element.name().to_string(),
            attrs: element.attrs.iter().map(|(name, value)| Attribute {
                prefix: name.prefix.as_ref().map(|p| p.to_string()),
                ns: name.ns.to_string(),
                local: name.local.to_string(),
                value: value.to_string(),
            }).collect(),
        }),
        _ => NodeData::Other,
    }
}

/// `NodeRef::children`: the child nodes, first to last.
#[verifier::external_body]
pub(crate) fn child_nodes<'a>(node: &NodeRef<'a, Node>) -> (found: Vec<NodeRef<'a, Node>>)
    ensures
        found@.len() == subtree(*node).children.len(),
        forall|i: int|
            0 <= i < found@.len() ==> subtree(#[trigger] found@[i]) == subtree(*node).children[i],
{
    node.children().collect()
}

/// The `Debug` form of the `scraper` element that `Element::new` makes of
/// this name and these attributes.
#[verifier::external_body]
pub(crate) fn open_tag(element: &Element) -> (tag: String)
    ensures
        tag@ == open_tag_text(element@),
{
    let attrs = element.attrs.iter().map(|a| html5ever::Attribute {
        name: QualName::new(
            a.prefix.as_deref().map(Prefix::from),
            Namespace::from(a.ns.as_str()),
            LocalName::from(a.local.as_str()),
        ),
        value: a.value.as_str().into(),
    }).collect();
    let name = QualName::new(None, Namespace::from(""), LocalName::from(element.name.as_str()));
    format!("{:?}", scraper::node::Element::new(name, attrs))
}

/// Reads the tree at `node` and below it.
pub(crate) fn read_node(node: &NodeRef<'_, Node>) -> (tree: DomNode)
    ensures
        tree@ == subtree(*node),
    decreases subtree(*node),
{
    let data = node_data(node);
    let kids = child_nodes(node);
    let mut children: Vec<DomNode> = Vec::new();
    let mut i: usize = 0;
    while i < kids.len()
        invariant
            i <= kids.len(),
            kids@.len() == subtree(*node).children.len(),
            forall|j: int|
                0 <= j < kids@.len() ==> subtree(#[trigger] kids@[j]) == subtree(*node).children[j],
            children@.len() == i,
            forall|j: int| 0 <= j < i ==> (#[trigger] children@[j])@ == subtree(*node).children[j],
        decreases kids.len() - i,
    {
        let child = read_node(&kids[i]);
        children.push(child);
        i = i + 1;
    }
    let tree = DomNode { data, children };
    assert(tree@.children =~= subtree(*node).children);
    tree
}

} // verus!
