//! The annotation engine: which elements become slots, and how the
//! serialised document is patched to say so.

use crate::consts::{
    BODY_SELECTOR, IMAGE_KIND, IMAGE_SELECTOR, IMAGE_TITLE, LINE_BREAK, RESET_CSS, STYLE_CLOSE,
    STYLE_OPEN, TEMPLATE_ATTR, TEXT_KIND, TEXT_TITLE, TITLE_ATTR,
};
use scraper::ElementRef;
use crate::dom::{
    as_node, first_match, first_selected, matches_within, node_data, node_of, open_tag,
    open_tag_text, outer_html, parse_document, parse_selector, parsed_document, parsed_selector,
    read_node, selected_within, forest, lemma_children, serialize, subtree, Attribute, AttributeView, DomNode, DomTree,
    Element, ElementView, NodeData, NodeDataView,
};
use crate::errors::Fault;
use crate::text::{
    blank, first_index, is_blank, lemma_first_index, lemma_replaced_once, occurs_at, replace_all,
    replaced, same_text, split, split_on, white_space,
};
use vstd::prelude::*;

verus! {

/// The two kinds of editable region.
#[derive(Debug, Clone, Copy, PartialEq, Eq)]
pub enum SlotKind {
    Image,
    Text,
}

/// One replacement in the serialised document: what is searched, and what
/// takes its place.
pub type Patch = (Seq<char>, Seq<char>);

impl SlotKind {
    /// The value of the kind attribute.
    pub open spec fn kind_text(self) -> Seq<char> {
        match self {
            SlotKind::Image => IMAGE_KIND@,
            SlotKind::Text => TEXT_KIND@,
        }
    }

    /// The value of the label attribute.
    pub open spec fn title_text(self) -> Seq<char> {
        match self {
            SlotKind::Image => IMAGE_TITLE@,
            SlotKind::Text => TEXT_TITLE@,
        }
    }

    /// The value of the kind attribute.
    pub fn kind(&self) -> (s: &'static str)
        ensures
            s@ == self.kind_text(),
    {
        match self {
            SlotKind::Image => IMAGE_KIND,
            SlotKind::Text => TEXT_KIND,
        }
    }

    /// The value of the label attribute.
    pub fn title(&self) -> (s: &'static str)
        ensures
            s@ == self.title_text(),
    {
        match self {
            SlotKind::Image => IMAGE_TITLE,
            SlotKind::Text => TEXT_TITLE,
        }
    }
}

/// An attribute without namespace or prefix.
pub open spec fn plain_attr(attr: Seq<char>, value: Seq<char>) -> AttributeView {
    AttributeView { prefix: None, ns: Seq::empty(), local: attr, value }
}

/// `a` is the attribute that `plain_attr(attr, ..)` would replace.
pub open spec fn names(a: AttributeView, attr: Seq<char>) -> bool {
    a.prefix is None && a.ns.len() == 0 && a.local == attr
}

/// The position of the first attribute named `attr`, or the length of
/// `attrs` where there is none.
pub open spec fn first_named(attrs: Seq<AttributeView>, attr: Seq<char>) -> int
    decreases attrs.len(),
{
    if attrs.len() == 0 {
        0
    } else if names(attrs[0], attr) {
        0
    } else {
        1 + first_named(attrs.skip(1), attr)
    }
}

/// `attrs` after `attr` was set to `value`: an attribute of that name keeps
/// its place and takes the value, otherwise a new one is added at the end.
pub open spec fn with_attr(attrs: Seq<AttributeView>, attr: Seq<char>, value: Seq<char>) -> Seq<
    AttributeView,
> {
    let i = first_named(attrs, attr);
    if 0 <= i < attrs.len() {
        attrs.update(i, plain_attr(attr, value))
    } else {
        attrs.push(plain_attr(attr, value))
    }
}

/// `element` with the two marker attributes of a slot of this kind.
pub open spec fn marked(element: ElementView, kind: SlotKind) -> ElementView {
    ElementView {
        name: element.name,
        attrs: with_attr(
            with_attr(element.attrs, TEMPLATE_ATTR@, kind.kind_text()),
            TITLE_ATTR@,
            kind.title_text(),
        ),
    }
}

/// The patch that marks `element`: its opening tag as it is, and as it reads
/// with the marker attributes.
pub open spec fn slot_patch(element: ElementView, kind: SlotKind) -> Patch {
    (open_tag_text(element), open_tag_text(marked(element, kind)))
}

/// `html` after the patches were applied one after the other, each to the
/// whole of what the one before left.
pub open spec fn patched(html: Seq<char>, patches: Seq<Patch>) -> Seq<char>
    decreases patches.len(),
{
    if patches.len() == 0 {
        html
    } else {
        let last = patches.last();
        replaced(patched(html, patches.drop_last()), last.0, last.1)
    }
}

/// At least one line of `text` is not blank.
pub open spec fn has_visible_line(text: Seq<char>) -> bool {
    exists|k: int|
        0 <= k < split_on(text, '\n').len() && !blank(#[trigger] split_on(text, '\n')[k])
}

/// What one text node asks for: nothing where it has no visible line, a patch
/// of its parent element where it has one, and a fault where that parent is
/// missing or is no element.
pub open spec fn text_step(text: Seq<char>, parent: Option<NodeDataView>) -> (Seq<Patch>, Option<Fault>) {
    if !has_visible_line(text) {
        (Seq::empty(), None)
    } else {
        match parent {
            None => (Seq::empty(), Some(Fault::ParentMissing)),
            Some(NodeDataView::Element(element)) => (seq![slot_patch(element, SlotKind::Text)], None),
            Some(_) => (Seq::empty(), Some(Fault::ParentNotElement)),
        }
    }
}

/// The patches that the text nodes at `node` and below it ask for, in
/// document order, up to the first fault, and that fault.
pub open spec fn walk(node: DomTree, parent: Option<NodeDataView>) -> (Seq<Patch>, Option<Fault>)
    decreases node,
{
    match node.data {
        NodeDataView::Text(text) => text_step(text, parent),
        _ => walk_all(node.children, Some(node.data)),
    }
}

/// `walk` over siblings, first to last, stopping at the first fault.
pub open spec fn walk_all(nodes: Seq<DomTree>, parent: Option<NodeDataView>) -> (Seq<Patch>, Option<Fault>)
    decreases nodes,
{
    if nodes.len() == 0 {
        (Seq::empty(), None)
    } else {
        let before = walk_all(nodes.drop_last(), parent);
        if before.1 is Some {
            before
        } else {
            let here = walk(nodes.last(), parent);
            (before.0 + here.0, here.1)
        }
    }
}

/// `first_named` points at the first attribute of that name and nowhere
/// before it.
pub proof fn lemma_first_named(attrs: Seq<AttributeView>, attr: Seq<char>)
    ensures
        0 <= first_named(attrs, attr) <= attrs.len(),
        first_named(attrs, attr) < attrs.len() ==> names(attrs[first_named(attrs, attr)], attr),
        forall|j: int| 0 <= j < first_named(attrs, attr) ==> !names(attrs[j], attr),
    decreases attrs.len(),
{
    if attrs.len() > 0 && !names(attrs[0], attr) {
        let rest = attrs.skip(1);
        lemma_first_named(rest, attr);
        assert forall|j: int| 0 <= j < first_named(attrs, attr) implies !names(attrs[j], attr) by {
            if j > 0 {
                assert(rest[j - 1] == attrs[j]);
            }
        }
    }
}

/// A position that holds the name, with none before it, is the first.
pub proof fn lemma_first_named_is(attrs: Seq<AttributeView>, attr: Seq<char>, i: int)
    requires
        0 <= i <= attrs.len(),
        i < attrs.len() ==> names(attrs[i], attr),
        forall|j: int| 0 <= j < i ==> !names(attrs[j], attr),
    ensures
        first_named(attrs, attr) == i,
{
    lemma_first_named(attrs, attr);
    let k = first_named(attrs, attr);
    if k < i {
        assert(!names(attrs[k], attr));
    }
}

/// Applying patches one list after another is applying their concatenation.
pub proof fn lemma_patched_concat(html: Seq<char>, first: Seq<Patch>, second: Seq<Patch>)
    ensures
        patched(html, first + second) == patched(patched(html, first), second),
    decreases second.len(),
{
    if second.len() == 0 {
        assert(first + second == first);
    } else {
        lemma_patched_concat(html, first, second.drop_last());
        assert((first + second).drop_last() == first + second.drop_last());
        assert((first + second).last() == second.last());
    }
}

/// Builds the attribute `attr="value"`, without namespace or prefix.
pub fn attr_builder(attr: &str, value: &str) -> (a: Attribute)
    ensures
        a@ == plain_attr(attr@, value@),
{
    Attribute {
        prefix: None,
        ns: String::new(),
        local: String::from_str(attr),
        value: String::from_str(value),
    }
}

fn is_named(a: &Attribute, attr: &str) -> (b: bool)
    ensures
        b == names(a@, attr@),
{
    a.prefix.is_none() && a.ns.as_str().is_empty() && same_text(a.local.as_str(), attr)
}

/// Sets the attribute `attr` of `element` to `value`.
pub fn add_attr(element: &mut Element, attr: &str, value: &str)
    ensures
        final(element)@.name == old(element)@.name,
        final(element)@.attrs == with_attr(old(element)@.attrs, attr@, value@),
{
    let fresh = attr_builder(attr, value);
    let mut i: usize = 0;
    while i < element.attrs.len()
        invariant
            i <= element.attrs.len(),
            *element == *old(element),
            fresh@ == plain_attr(attr@, value@),
            forall|j: int| 0 <= j < i ==> !names(#[trigger] element@.attrs[j], attr@),
        decreases element.attrs.len() - i,
    {
        if is_named(&element.attrs[i], attr) {
            proof {
                lemma_first_named_is(element@.attrs, attr@, i as int);
            }
            element.attrs.set(i, fresh);
            assert(element@.attrs =~= old(element)@.attrs.update(i as int, fresh@));
            return ;
        }
        i = i + 1;
    }
    proof {
        lemma_first_named_is(element@.attrs, attr@, i as int);
    }
    element.attrs.push(fresh);
    assert(element@.attrs =~= old(element)@.attrs.push(fresh@));
}

/// A copy of `a`.
pub fn copy_attr(a: &Attribute) -> (c: Attribute)
    ensures
        c@ == a@,
{
    Attribute {
        prefix: match &a.prefix {
            Some(p) => Some(p.clone()),
            None => None,
        },
        ns: a.ns.clone(),
        local: a.local.clone(),
        value: a.value.clone(),
    }
}

/// A copy of `element`.
pub fn copy_element(element: &Element) -> (c: Element)
    ensures
        c@ == element@,
{
    let mut attrs: Vec<Attribute> = Vec::new();
    let mut i: usize = 0;
    while i < element.attrs.len()
        invariant
            i <= element.attrs.len(),
            attrs@.len() == i,
            forall|j: int| 0 <= j < i ==> (#[trigger] attrs@[j])@ == element.attrs@[j]@,
        decreases element.attrs.len() - i,
    {
        attrs.push(copy_attr(&element.attrs[i]));
        i = i + 1;
    }
    let c = Element { name: element.name.clone(), attrs };
    assert(c@.attrs =~= element@.attrs);
    c
}

/// `element` with the marker attributes of a slot of this kind.
pub fn mark(element: &Element, kind: SlotKind) -> (m: Element)
    ensures
        m@ == marked(element@, kind),
{
    let mut m = copy_element(element);
    add_attr(&mut m, TEMPLATE_ATTR, kind.kind());
    add_attr(&mut m, TITLE_ATTR, kind.title());
    m
}

/// Marks `element` as a slot in the serialised document: every occurrence of
/// its opening tag is replaced by the tag with the marker attributes.
pub fn annotate_element(element: &Element, kind: SlotKind, html: &mut String)
    ensures
        final(html)@ == replaced(
            old(html)@,
            slot_patch(element@, kind).0,
            slot_patch(element@, kind).1,
        ),
{
    let plain = open_tag(element);
    let with_marker = open_tag(&mark(element, kind));
    let next = replace_all(html.as_str(), plain.as_str(), with_marker.as_str());
    *html = next;
}

/// Marks an image element as an image slot.
pub fn style_process(img: &Element, html: &mut String)
    ensures
        final(html)@ == patched(old(html)@, seq![slot_patch(img@, SlotKind::Image)]),
{
    proof {
        let one = seq![slot_patch(img@, SlotKind::Image)];
        assert(one.drop_last() == Seq::<Patch>::empty());
        assert(patched(old(html)@, one.drop_last()) == old(html)@);
    }
    annotate_element(img, SlotKind::Image, html);
}

/// Whether a text node qualifies: split at newlines, at least one of its
/// lines is not blank.
pub fn vaild_text(text: &str) -> (valid: bool)
    ensures
        valid == has_visible_line(text@),
{
    let lines = split(text, '\n');
    let mut i: usize = 0;
    while i < lines.len()
        invariant
            i <= lines.len(),
            lines@.len() == split_on(text@, '\n').len(),
            forall|k: int| 0 <= k < lines@.len() ==> (#[trigger] lines@[k])@ == split_on(text@, '\n')[k],
            forall|k: int| 0 <= k < i ==> blank(#[trigger] split_on(text@, '\n')[k]),
        decreases lines.len() - i,
    {
        if !is_blank(lines[i].as_str()) {
            assert(!blank(split_on(text@, '\n')[i as int]));
            return true;
        }
        i = i + 1;
    }
    false
}

/// The view of an optional parent.
pub open spec fn parent_view(parent: Option<&NodeData>) -> Option<NodeDataView> {
    match parent {
        Some(data) => Some(data@),
        None => None,
    }
}

/// What a fault found on the way means for the caller.
pub open spec fn verdict(fault: Option<Fault>) -> Result<(), Fault> {
    match fault {
        Some(f) => Err(f),
        None => Ok(()),
    }
}

/// Walks `target` and everything below it in document order. For each text
/// node that qualifies, the parent element is marked as a text slot in
/// `html`. The walk ends at the first such node whose parent is missing or is
/// no element; what was patched until then stays.
pub fn traverse_node(target: &DomNode, parent: Option<&NodeData>, html: &mut String) -> (r: Result<(), Fault>)
    ensures
        final(html)@ == patched(old(html)@, walk(target@, parent_view(parent)).0),
        r == verdict(walk(target@, parent_view(parent)).1),
    decreases target,
{
    proof {
        lemma_children(*target);
    }
    match &target.data {
        NodeData::Text(text) => {
            assert(target@.data == NodeDataView::Text(text@));
            if vaild_text(text.as_str()) {
                match parent {
                    None => Err(Fault::ParentMissing),
                    Some(NodeData::Element(element)) => {
                        proof {
                            let one = seq![slot_patch(element@, SlotKind::Text)];
                            assert(one.drop_last() == Seq::<Patch>::empty());
                            assert(patched(old(html)@, one.drop_last()) == old(html)@);
                            assert(parent_view(parent) == Some(NodeDataView::Element(element@)));
                        }
                        annotate_element(element, SlotKind::Text, html);
                        Ok(())
                    },
                    Some(other) => {
                        assert(parent_view(parent) == Some(other@));
                        Err(Fault::ParentNotElement)
                    },
                }
            } else {
                Ok(())
            }
        },
        _ => {
            assert(parent_view(Some(&target.data)) == Some(target@.data));
            traverse_all(&target.children, Some(&target.data), html)
        },
    }
}

/// `traverse_node` over siblings, first to last, up to the first fault.
pub fn traverse_all(nodes: &Vec<DomNode>, parent: Option<&NodeData>, html: &mut String) -> (r: Result<(), Fault>)
    ensures
        final(html)@ == patched(old(html)@, walk_all(forest(nodes@), parent_view(parent)).0),
        r == verdict(walk_all(forest(nodes@), parent_view(parent)).1),
    decreases nodes,
{
    let ghost all = forest(nodes@);
    let ghost up = parent_view(parent);
    let mut i: usize = 0;
    assert(all.take(0) == Seq::<DomTree>::empty());
    while i < nodes.len()
        invariant
            i <= nodes.len(),
            all == forest(nodes@),
            up == parent_view(parent),
            walk_all(all.take(i as int), up).1 is None,
            html@ == patched(old(html)@, walk_all(all.take(i as int), up).0),
        decreases nodes.len() - i,
    {
        let ghost before = walk_all(all.take(i as int), up);
        let ghost here = walk(all[i as int], up);
        proof {
            assert(all.take(i + 1).drop_last() == all.take(i as int));
            assert(all.take(i + 1).last() == all[i as int]);
            assert(all[i as int] == nodes@[i as int]@);
            lemma_patched_concat(old(html)@, before.0, here.0);
        }
        let step = traverse_node(&nodes[i], parent, html);
        match step {
            Err(f) => {
                proof {
                    lemma_walk_all_stops(all, up, i + 1);
                }
                return Err(f);
            },
            Ok(()) => {},
        }
        i = i + 1;
    }
    assert(all.take(i as int) == all);
    Ok(())
}

/// Once a fault was found among the first `n` siblings, the rest adds nothing.
pub proof fn lemma_walk_all_stops(nodes: Seq<DomTree>, parent: Option<NodeDataView>, n: int)
    requires
        0 <= n <= nodes.len(),
        walk_all(nodes.take(n), parent).1 is Some,
    ensures
        walk_all(nodes, parent) == walk_all(nodes.take(n), parent),
    decreases nodes.len() - n,
{
    if n < nodes.len() {
        assert(nodes.take(n + 1).drop_last() == nodes.take(n));
        lemma_walk_all_stops(nodes, parent, n + 1);
    } else {
        assert(nodes.take(n) == nodes);
    }
}

/// The views of a list of elements.
pub open spec fn elements(images: Seq<Element>) -> Seq<ElementView> {
    Seq::new(images.len(), |i: int| images[i]@)
}

/// The patches of the image pass: one for each image element, in order.
pub open spec fn image_patches(images: Seq<ElementView>) -> Seq<Patch> {
    Seq::new(images.len(), |i: int| slot_patch(images[i], SlotKind::Image))
}

/// The annotated document: `html` after the image pass over `images` and the
/// text pass over the children of `body`, or the fault that ended the text
/// pass.
pub open spec fn annotated(html: Seq<char>, images: Seq<ElementView>, body: DomTree) -> Result<
    Seq<char>,
    Fault,
> {
    let found = walk_all(body.children, Some(body.data));
    match found.1 {
        Some(fault) => Err(fault),
        None => Ok(patched(patched(html, image_patches(images)), found.0)),
    }
}

/// `r` is `expected`, the text taken by its characters.
pub open spec fn agrees(r: Result<String, Fault>, expected: Result<Seq<char>, Fault>) -> bool {
    match r {
        Ok(text) => expected == Ok::<Seq<char>, Fault>(text@),
        Err(fault) => expected == Err::<Seq<char>, Fault>(fault),
    }
}

/// Annotates a serialised body, given its image elements and its tree.
///
/// The image pass comes first: each image element is marked as an image
/// slot. The text pass follows over the children of `body`: the parent of
/// each text node that qualifies is marked as a text slot. Each marking
/// replaces every occurrence of the element's opening tag in the document as
/// the markings before it left it.
pub fn annotate_document(html: &str, images: &Vec<Element>, body: &DomNode) -> (r: Result<
    String,
    Fault,
>)
    ensures
        agrees(r, annotated(html@, elements(images@), body@)),
{
    let mut out = String::from_str(html);
    let ghost patches = image_patches(elements(images@));
    let mut i: usize = 0;
    assert(patches.take(0) == Seq::<Patch>::empty());
    while i < images.len()
        invariant
            i <= images.len(),
            patches == image_patches(elements(images@)),
            out@ == patched(html@, patches.take(i as int)),
        decreases images.len() - i,
    {
        proof {
            let one = seq![slot_patch(images@[i as int]@, SlotKind::Image)];
            lemma_patched_concat(html@, patches.take(i as int), one);
            assert(patches.take(i as int) + one == patches.take(i + 1));
        }
        style_process(&images[i], &mut out);
        i = i + 1;
    }
    proof {
        assert(patches.take(i as int) == patches);
        lemma_children(*body);
    }
    match traverse_all(&body.children, Some(&body.data), &mut out) {
        Err(fault) => Err(fault),
        Ok(()) => Ok(out),
    }
}

/// The element that a node's data holds.
pub open spec fn element_of(data: NodeDataView) -> ElementView {
    match data {
        NodeDataView::Element(element) => element,
        _ => arbitrary(),
    }
}

/// The elements behind a list of element references.
pub open spec fn image_elements(found: Seq<ElementRef<'static>>) -> Seq<ElementView> {
    Seq::new(found.len(), |i: int| element_of(subtree(node_of(found[i])).data))
}

/// What `annotate_selected` makes of the document text `index`: the first
/// element that the parsed document yields for the selector `root` is
/// serialised and annotated, with the elements that it yields below it for
/// the selector `images` as the image slots. A selector that cannot be read,
/// and a document without such a first element, are faults.
pub open spec fn annotation_with(index: Seq<char>, root: Seq<char>, images: Seq<char>) -> Result<
    Seq<char>,
    Fault,
> {
    match parsed_selector(root) {
        None => Err(Fault::Selector),
        Some(root_selector) => match first_selected(parsed_document(index), root_selector) {
            None => Err(Fault::BodyMissing),
            Some(body) => match parsed_selector(images) {
                None => Err(Fault::Selector),
                Some(image_selector) => annotated(
                    outer_html(body),
                    image_elements(selected_within(body, image_selector)),
                    subtree(node_of(body)),
                ),
            },
        },
    }
}

/// What `annotate` makes of the document text `index`: the body is
/// annotated, with the `img` elements below it as the image slots.
pub open spec fn annotation(index: Seq<char>) -> Result<Seq<char>, Fault> {
    annotation_with(index, BODY_SELECTOR@, IMAGE_SELECTOR@)
}

/// Parses the document `index` and annotates its body.
pub fn annotate(index: &str) -> (r: Result<String, Fault>)
    ensures
        agrees(r, annotation(index@)),
{
    annotate_selected(index, BODY_SELECTOR, IMAGE_SELECTOR)
}

/// Parses the document `index` and annotates the first element that matches
/// the selector `root`, with the elements below it that match the selector
/// `images` as the image slots.
pub fn annotate_selected(index: &str, root: &str, images: &str) -> (r: Result<String, Fault>)
    ensures
        agrees(r, annotation_with(index@, root@, images@)),
{
    let doc = parse_document(index);
    let body_selector = match parse_selector(root) {
        Some(selector) => selector,
        None => { return Err(Fault::Selector); },
    };
    let body = match first_match(&doc, &body_selector) {
        Some(body) => body,
        None => { return Err(Fault::BodyMissing); },
    };
    let html = serialize(&body);
    let image_selector = match parse_selector(images) {
        Some(selector) => selector,
        None => { return Err(Fault::Selector); },
    };
    let found = matches_within(&body, &image_selector);
    let mut images: Vec<Element> = Vec::new();
    let mut i: usize = 0;
    while i < found.len()
        invariant
            i <= found.len(),
            images@.len() == i,
            forall|j: int|
                0 <= j < i ==> (#[trigger] images@[j])@ == image_elements(found@)[j],
        decreases found.len() - i,
    {
        let node = as_node(&found[i]);
        match node_data(&node) {
            NodeData::Element(element) => {
                images.push(element);
            },
            _ => {
                assert(false);
            },
        }
        i = i + 1;
    }
    assert(elements(images@) =~= image_elements(found@));
    let root = as_node(&body);
    let tree = read_node(&root);
    annotate_document(html.as_str(), &images, &tree)
}

/// A template: the style block, made of the template's own stylesheet and
/// the reset stylesheet, and below it the annotated body.
pub open spec fn styled(css: Seq<char>, html: Seq<char>) -> Seq<char> {
    STYLE_OPEN@ + css + LINE_BREAK@ + RESET_CSS@ + STYLE_CLOSE@ + LINE_BREAK@ + html
}

/// Puts the style block before the annotated body. Nothing is parsed or
/// merged: the texts are joined as they are.
pub fn inject_style(css: &str, html: &str) -> (out: String)
    ensures
        out@ == styled(css@, html@),
{
    let mut out = String::from_str(STYLE_OPEN);
    out.append(css);
    out.append(LINE_BREAK);
    out.append(RESET_CSS);
    out.append(STYLE_CLOSE);
    out.append(LINE_BREAK);
    out.append(html);
    out
}

/// `text` holds a character that is neither a line break nor white space.
pub open spec fn has_visible_char(text: Seq<char>) -> bool {
    exists|i: int| 0 <= i < text.len() && text[i] != '\n' && !white_space(#[trigger] text[i])
}

/// A text has a line that is not blank exactly where it holds a character
/// that is neither a line break nor white space. So a text node made of
/// white space and line breaks alone never qualifies, and its parent is not
/// marked on its account.
pub proof fn lemma_visible_line(text: Seq<char>)
    ensures
        has_visible_line(text) <==> has_visible_char(text),
    decreases text.len(),
{
    let lines = split_on(text, '\n');
    let i = first_index(text, '\n');
    lemma_first_index(text, '\n');
    if i < text.len() {
        let head = text.take(i);
        let rest = text.skip(i + 1);
        let tail = split_on(rest, '\n');
        lemma_visible_line(rest);
        assert(lines == seq![head] + tail);
        if has_visible_line(text) {
            let k = choose|k: int| 0 <= k < lines.len() && !blank(#[trigger] lines[k]);
            if k == 0 {
                assert(lines[0] == head);
                let j = choose|j: int| 0 <= j < head.len() && !white_space(#[trigger] head[j]);
                assert(head[j] == text[j]);
                assert(text[j] != '\n' && !white_space(text[j]));
            } else {
                assert(lines[k] == tail[k - 1]);
                assert(has_visible_line(rest));
                let j = choose|j: int|
                    0 <= j < rest.len() && rest[j] != '\n' && !white_space(#[trigger] rest[j]);
                assert(rest[j] == text[j + i + 1]);
                assert(text[j + i + 1] != '\n' && !white_space(text[j + i + 1]));
            }
        }
        if has_visible_char(text) {
            let p = choose|p: int|
                0 <= p < text.len() && text[p] != '\n' && !white_space(#[trigger] text[p]);
            if p < i {
                assert(head[p] == text[p]);
                assert(!blank(head));
                assert(lines[0] == head);
                assert(!blank(lines[0]));
            } else {
                assert(p > i);
                assert(rest[p - i - 1] == text[p]);
                assert(has_visible_char(rest));
                let k = choose|k: int| 0 <= k < tail.len() && !blank(#[trigger] tail[k]);
                assert(lines[k + 1] == tail[k]);
                assert(!blank(lines[k + 1]));
            }
        }
    } else {
        assert(lines == seq![text]);
        if has_visible_line(text) {
            let k = choose|k: int| 0 <= k < lines.len() && !blank(#[trigger] lines[k]);
            assert(lines[k] == text);
            let j = choose|j: int| 0 <= j < text.len() && !white_space(#[trigger] text[j]);
            assert(text[j] != '\n');
        }
        if has_visible_char(text) {
            assert(lines[0] == text);
            assert(!blank(lines[0]));
        }
    }
}

/// A text node made of white space and line breaks alone asks for nothing,
/// whatever its parent: the parent is not marked on its account, and there
/// is no fault.
pub proof fn lemma_blank_text_unmarked(node: DomTree, text: Seq<char>, parent: Option<NodeDataView>)
    requires
        node.data == NodeDataView::Text(text),
        forall|i: int| 0 <= i < text.len() ==> text[i] == '\n' || white_space(#[trigger] text[i]),
    ensures
        walk(node, parent) == (Seq::<Patch>::empty(), None::<Fault>),
{
    lemma_visible_line(text);
}

/// A text node with a character that is neither a line break nor white
/// space asks for its parent element to be marked as a text slot, once.
pub proof fn lemma_visible_text_marked(node: DomTree, text: Seq<char>, parent: ElementView)
    requires
        node.data == NodeDataView::Text(text),
        has_visible_char(text),
    ensures
        walk(node, Some(NodeDataView::Element(parent))) == (
            seq![slot_patch(parent, SlotKind::Text)],
            None::<Fault>,
        ),
{
    lemma_visible_line(text);
}

/// A text node with a character that is neither a line break nor white
/// space, whose parent's opening tag stands in the document at one position
/// only: the walk succeeds, and it changes that tag into the tag of a text
/// slot and nothing else.
pub proof fn lemma_visible_text_single(
    node: DomTree,
    text: Seq<char>,
    parent: ElementView,
    html: Seq<char>,
    at: int,
)
    requires
        node.data == NodeDataView::Text(text),
        has_visible_char(text),
        open_tag_text(parent).len() > 0,
        occurs_at(html, open_tag_text(parent), at),
        forall|i: int| occurs_at(html, open_tag_text(parent), i) ==> i == at,
    ensures
        walk(node, Some(NodeDataView::Element(parent))).1 is None,
        patched(html, walk(node, Some(NodeDataView::Element(parent))).0) == html.take(at)
            + open_tag_text(marked(parent, SlotKind::Text)) + html.skip(
            at + open_tag_text(parent).len(),
        ),
{
    lemma_visible_text_marked(node, text, parent);
    lemma_single_slot(html, parent, SlotKind::Text, at);
}

/// Setting an attribute leaves the others in their places, and afterwards
/// the attribute is there with its value.
pub proof fn lemma_with_attr(attrs: Seq<AttributeView>, attr: Seq<char>, value: Seq<char>)
    ensures
        attrs.len() <= with_attr(attrs, attr, value).len() <= attrs.len() + 1,
        0 <= first_named(attrs, attr) < with_attr(attrs, attr, value).len(),
        with_attr(attrs, attr, value)[first_named(attrs, attr)] == plain_attr(attr, value),
        forall|i: int|
            0 <= i < attrs.len() && i != first_named(attrs, attr) ==> with_attr(attrs, attr, value)[i]
                == #[trigger] attrs[i],
{
    lemma_first_named(attrs, attr);
}

/// Marking an element keeps its name and every attribute that is not one of
/// the two markers, each in its place, and leaves it with both markers: the
/// kind of the slot, and a label that is not empty.
pub proof fn lemma_marked(element: ElementView, kind: SlotKind)
    ensures
        marked(element, kind).name == element.name,
        marked(element, kind).attrs.len() >= element.attrs.len(),
        forall|i: int|
            0 <= i < element.attrs.len() && !names(element.attrs[i], TEMPLATE_ATTR@) && !names(
                element.attrs[i],
                TITLE_ATTR@,
            ) ==> marked(element, kind).attrs[i] == #[trigger] element.attrs[i],
        exists|i: int|
            0 <= i < marked(element, kind).attrs.len() && #[trigger] marked(element, kind).attrs[i]
                == plain_attr(TEMPLATE_ATTR@, kind.kind_text()),
        exists|i: int|
            0 <= i < marked(element, kind).attrs.len() && #[trigger] marked(element, kind).attrs[i]
                == plain_attr(TITLE_ATTR@, kind.title_text()),
        kind.title_text().len() > 0,
{
    reveal_strlit("data-template");
    reveal_strlit("data-title");
    reveal_strlit("图片");
    reveal_strlit("待替换");
    assert(TEMPLATE_ATTR@.len() != TITLE_ATTR@.len());
    let first = with_attr(element.attrs, TEMPLATE_ATTR@, kind.kind_text());
    let both = with_attr(first, TITLE_ATTR@, kind.title_text());
    assert(marked(element, kind).attrs == both);
    lemma_with_attr(element.attrs, TEMPLATE_ATTR@, kind.kind_text());
    lemma_with_attr(first, TITLE_ATTR@, kind.title_text());
    lemma_first_named(element.attrs, TEMPLATE_ATTR@);
    lemma_first_named(first, TITLE_ATTR@);
    let a = first_named(element.attrs, TEMPLATE_ATTR@);
    let b = first_named(first, TITLE_ATTR@);
    assert(first[a] == plain_attr(TEMPLATE_ATTR@, kind.kind_text()));
    assert(!names(first[a], TITLE_ATTR@));
    assert(a != b);
    assert(both[a] == first[a]);
    assert(both[b] == plain_attr(TITLE_ATTR@, kind.title_text()));
    assert forall|i: int|
        0 <= i < element.attrs.len() && !names(element.attrs[i], TEMPLATE_ATTR@) && !names(
            element.attrs[i],
            TITLE_ATTR@,
        ) implies both[i] == #[trigger] element.attrs[i] by {
        assert(i != a);
        assert(first[i] == element.attrs[i]);
        assert(i != b);
    }
}

/// Where the opening tag of an element stands in the document at one
/// position only, marking the element changes that tag and nothing else:
/// what is before it and what is behind it stay as they are.
pub proof fn lemma_single_slot(html: Seq<char>, element: ElementView, kind: SlotKind, at: int)
    requires
        open_tag_text(element).len() > 0,
        occurs_at(html, open_tag_text(element), at),
        forall|i: int| occurs_at(html, open_tag_text(element), i) ==> i == at,
    ensures
        patched(html, seq![slot_patch(element, kind)]) == html.take(at) + open_tag_text(
            marked(element, kind),
        ) + html.skip(at + open_tag_text(element).len()),
{
    let one = seq![slot_patch(element, kind)];
    assert(one.drop_last() == Seq::<Patch>::empty());
    assert(patched(html, one.drop_last()) == html);
    lemma_replaced_once(html, open_tag_text(element), open_tag_text(marked(element, kind)), at);
}

/// A document with one image, whose opening tag stands in it at one
/// position only, and without a text that qualifies: annotating it changes
/// that tag into the marked tag and nothing else.
pub proof fn lemma_single_image(html: Seq<char>, image: ElementView, body: DomTree, at: int)
    requires
        open_tag_text(image).len() > 0,
        occurs_at(html, open_tag_text(image), at),
        forall|i: int| occurs_at(html, open_tag_text(image), i) ==> i == at,
        walk_all(body.children, Some(body.data)) == (Seq::<Patch>::empty(), None::<Fault>),
    ensures
        annotated(html, seq![image], body) == Ok::<Seq<char>, Fault>(
            html.take(at) + open_tag_text(marked(image, SlotKind::Image)) + html.skip(
                at + open_tag_text(image).len(),
            ),
        ),
{
    lemma_single_slot(html, image, SlotKind::Image, at);
    assert(image_patches(seq![image]) =~= seq![slot_patch(image, SlotKind::Image)]);
}

} // verus!
