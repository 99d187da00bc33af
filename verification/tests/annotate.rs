use eris::annotate::{
    add_attr, annotate, annotate_document, annotate_selected, attr_builder, inject_style, mark,
    style_process, traverse_node, vaild_text, SlotKind,
};
use eris::consts::RESET_CSS;
use eris::dom::{Attribute, DomNode, Element, NodeData};
use eris::errors::Fault;

fn text(content: &str) -> DomNode {
    DomNode { data: NodeData::Text(content.to_string()), children: vec![] }
}

fn element(name: &str, attrs: &[(&str, &str)]) -> Element {
    Element {
        name: name.to_string(),
        attrs: attrs.iter().map(|(k, v)| attr_builder(k, v)).collect(),
    }
}

fn node(name: &str, attrs: &[(&str, &str)], children: Vec<DomNode>) -> DomNode {
    DomNode { data: NodeData::Element(element(name, attrs)), children }
}

#[test]
fn single_image_is_marked_and_the_rest_stays() {
    let out = annotate(
        "<html><head><title>t</title></head><body><div class=\"a\"><img src=\"x.png\"></div><span id=\"s\"></span></body></html>",
    )
    .unwrap();
    assert_eq!(
        out,
        "<body><div class=\"a\"><img src=\"x.png\" data-template=\"img\" data-title=\"图片\"></div><span id=\"s\"></span></body>"
    );
}

#[test]
fn image_keeps_its_attributes_in_order() {
    let out = annotate("<body><img src=\"x.png\" alt=\"a\" width=\"3\"></body>").unwrap();
    assert_eq!(
        out,
        "<body><img src=\"x.png\" alt=\"a\" width=\"3\" data-template=\"img\" data-title=\"图片\"></body>"
    );
}

#[test]
fn identical_images_are_all_marked() {
    let out = annotate("<body><img src=\"x.png\"><i></i><img src=\"x.png\"></body>").unwrap();
    assert_eq!(
        out,
        "<body><img src=\"x.png\" data-template=\"img\" data-title=\"图片\"><i></i><img src=\"x.png\" data-template=\"img\" data-title=\"图片\"></body>"
    );
}

#[test]
fn whitespace_text_does_not_mark_its_parent() {
    let out = annotate("<body><div> \n \t\n </div><p>x</p></body>").unwrap();
    assert_eq!(
        out,
        "<body><div> \n \t\n </div><p data-template=\"text\" data-title=\"待替换\">x</p></body>"
    );
}

#[test]
fn text_with_one_visible_line_marks_its_parent() {
    let out = annotate("<body><p>  \n人才发展\n  </p></body>").unwrap();
    assert_eq!(
        out,
        "<body><p data-template=\"text\" data-title=\"待替换\">  \n人才发展\n  </p></body>"
    );
}

#[test]
fn text_of_the_body_marks_the_body() {
    let out = annotate("<body>hello</body>").unwrap();
    assert_eq!(out, "<body data-template=\"text\" data-title=\"待替换\">hello</body>");
}

#[test]
fn image_in_a_text_container() {
    let out = annotate("<body><p>text<img src=\"a.png\"></p></body>").unwrap();
    assert_eq!(
        out,
        "<body><p data-template=\"text\" data-title=\"待替换\">text<img src=\"a.png\" data-template=\"img\" data-title=\"图片\"></p></body>"
    );
}

#[test]
fn nested_text_marks_the_nearest_element() {
    let out = annotate("<body><div><section><h1>Title</h1></section></div></body>").unwrap();
    assert_eq!(
        out,
        "<body><div><section><h1 data-template=\"text\" data-title=\"待替换\">Title</h1></section></div></body>"
    );
}

#[test]
fn document_without_slots_is_serialised_as_it_is() {
    let out = annotate("<body><div id=\"a\"><br></div></body>").unwrap();
    assert_eq!(out, "<body><div id=\"a\"><br></div></body>");
}

#[test]
fn document_without_body_tag_gets_one() {
    let out = annotate("<p>x</p>").unwrap();
    assert_eq!(out, "<body><p data-template=\"text\" data-title=\"待替换\">x</p></body>");
}

#[test]
fn comments_are_passed_over() {
    let out = annotate("<!DOCTYPE html><html><body><!-- note --><p>a &amp; b</p></body></html>").unwrap();
    assert_eq!(
        out,
        "<body><!-- note --><p data-template=\"text\" data-title=\"待替换\">a &amp; b</p></body>"
    );
}

#[test]
fn tag_that_is_written_otherwise_in_the_document_is_not_found() {
    let out = annotate("<body><img src='q\"x'><img src=\"a&amp;b\"></body>").unwrap();
    assert_eq!(out, "<body><img src=\"q&quot;x\"><img src=\"a&amp;b\"></body>");
}

#[test]
fn every_paragraph_of_the_same_tag_is_marked_once() {
    let out = annotate("<body><p>a</p><p>b</p><p class=\"c\"> </p></body>").unwrap();
    assert_eq!(
        out,
        "<body><p data-template=\"text\" data-title=\"待替换\">a</p><p data-template=\"text\" data-title=\"待替换\">b</p><p class=\"c\"> </p></body>"
    );
}

#[test]
fn selector_that_cannot_be_read() {
    assert_eq!(annotate_selected("<body></body>", "((", "img"), Err(Fault::Selector));
    assert_eq!(annotate_selected("<body></body>", "body", "> >"), Err(Fault::Selector));
    assert_eq!(annotate_selected("<body></body>", "", "img"), Err(Fault::Selector));
}

#[test]
fn document_without_the_element_to_annotate() {
    assert_eq!(annotate_selected("<body><p>x</p></body>", "table", "img"), Err(Fault::BodyMissing));
    assert_eq!(annotate_selected("", "main", "img"), Err(Fault::BodyMissing));
}

#[test]
fn other_selectors_choose_other_slots() {
    let doc = "<body><h1>t</h1><main id=\"m\"><p>x</p><img src=\"a\"><svg><image href=\"b\"></image></svg></main></body>";
    assert_eq!(
        annotate_selected(doc, "main", "image"),
        Ok("<main id=\"m\"><p data-template=\"text\" data-title=\"待替换\">x</p><img src=\"a\"><svg><image href=\"b\" data-template=\"img\" data-title=\"图片\"></image></svg></main>".to_string())
    );
    assert_eq!(annotate_selected(doc, "body", "img"), annotate(doc));
}

#[test]
fn valid_text_rule() {
    assert!(vaild_text("人才发展"));
    assert!(vaild_text("  \n人才发展\n  "));
    assert!(vaild_text("a\n\nb"));
    assert!(vaild_text("\n\n x"));
    assert!(!vaild_text(""));
    assert!(!vaild_text("   "));
    assert!(!vaild_text("\n"));
    assert!(!vaild_text(" \n\t\n \r\n"));
    assert!(!vaild_text("\u{3000}\n\u{a0}"));
}

#[test]
fn add_attr_appends_a_new_attribute() {
    let mut e = element("img", &[("src", "x.png")]);
    add_attr(&mut e, "data-template", "img");
    assert_eq!(e, element("img", &[("src", "x.png"), ("data-template", "img")]));
}

#[test]
fn add_attr_replaces_in_place() {
    let mut e = element("img", &[("data-title", "old"), ("src", "x.png")]);
    add_attr(&mut e, "data-title", "new");
    assert_eq!(e, element("img", &[("data-title", "new"), ("src", "x.png")]));
}

#[test]
fn add_attr_keeps_a_namespaced_attribute_of_the_same_local_name() {
    let foreign = Attribute {
        prefix: Some("xlink".to_string()),
        ns: "http://www.w3.org/1999/xlink".to_string(),
        local: "href".to_string(),
        value: "a".to_string(),
    };
    let mut e = Element { name: "use".to_string(), attrs: vec![foreign.clone()] };
    add_attr(&mut e, "href", "b");
    assert_eq!(e.attrs, vec![foreign, attr_builder("href", "b")]);
}

#[test]
fn attr_builder_has_no_namespace() {
    assert_eq!(
        attr_builder("data-template", "img"),
        Attribute {
            prefix: None,
            ns: String::new(),
            local: "data-template".to_string(),
            value: "img".to_string()
        }
    );
}

#[test]
fn mark_adds_both_markers() {
    let e = element("p", &[("class", "c")]);
    assert_eq!(
        mark(&e, SlotKind::Text),
        element("p", &[("class", "c"), ("data-template", "text"), ("data-title", "待替换")])
    );
    assert_eq!(
        mark(&e, SlotKind::Image),
        element("p", &[("class", "c"), ("data-template", "img"), ("data-title", "图片")])
    );
    assert_eq!(SlotKind::Image.kind(), "img");
    assert_eq!(SlotKind::Text.kind(), "text");
    assert!(!SlotKind::Image.title().is_empty());
    assert!(!SlotKind::Text.title().is_empty());
}

#[test]
fn style_process_patches_every_occurrence() {
    let mut html = "<a><img src=\"x.png\"><img src=\"y.png\"><img src=\"x.png\"></a>".to_string();
    style_process(&element("img", &[("src", "x.png")]), &mut html);
    assert_eq!(
        html,
        "<a><img src=\"x.png\" data-template=\"img\" data-title=\"图片\"><img src=\"y.png\"><img src=\"x.png\" data-template=\"img\" data-title=\"图片\"></a>"
    );
}

#[test]
fn style_process_leaves_a_document_without_the_tag() {
    let mut html = "<a><img src=\"y.png\"></a>".to_string();
    style_process(&element("img", &[("src", "x.png")]), &mut html);
    assert_eq!(html, "<a><img src=\"y.png\"></a>");
}

#[test]
fn traverse_marks_the_parent_of_each_qualifying_text() {
    let tree = node(
        "div",
        &[],
        vec![node("p", &[("id", "1")], vec![text("a")]), text(" \n "), node("b", &[], vec![text("c")])],
    );
    let body = NodeData::Element(element("body", &[]));
    let mut html = "<div><p id=\"1\">a</p> \n <b>c</b></div>".to_string();
    assert_eq!(traverse_node(&tree, Some(&body), &mut html), Ok(()));
    assert_eq!(
        html,
        "<div><p id=\"1\" data-template=\"text\" data-title=\"待替换\">a</p> \n <b data-template=\"text\" data-title=\"待替换\">c</b></div>"
    );
}

#[test]
fn traverse_fails_without_parent() {
    let mut html = "x".to_string();
    assert_eq!(traverse_node(&text("x"), None, &mut html), Err(Fault::ParentMissing));
    assert_eq!(html, "x");
}

#[test]
fn traverse_passes_blank_text_without_parent() {
    let mut html = " ".to_string();
    assert_eq!(traverse_node(&text(" "), None, &mut html), Ok(()));
}

#[test]
fn traverse_fails_where_the_parent_is_no_element() {
    let tree = DomNode { data: NodeData::Other, children: vec![text("x")] };
    let mut html = "x".to_string();
    assert_eq!(traverse_node(&tree, None, &mut html), Err(Fault::ParentNotElement));
}

#[test]
fn traverse_keeps_what_was_patched_before_a_fault() {
    let tree = node(
        "div",
        &[],
        vec![
            node("p", &[], vec![text("a")]),
            DomNode { data: NodeData::Other, children: vec![text("x")] },
            node("b", &[], vec![text("c")]),
        ],
    );
    let mut html = "<div><p>a</p>x<b>c</b></div>".to_string();
    assert_eq!(traverse_node(&tree, None, &mut html), Err(Fault::ParentNotElement));
    assert_eq!(html, "<div><p data-template=\"text\" data-title=\"待替换\">a</p>x<b>c</b></div>");
}

#[test]
fn traverse_does_not_look_below_a_text_node() {
    let odd = DomNode { data: NodeData::Text(" ".to_string()), children: vec![text("x")] };
    let mut html = "x".to_string();
    assert_eq!(traverse_node(&odd, None, &mut html), Ok(()));
    assert_eq!(html, "x");
}

#[test]
fn annotate_document_runs_the_image_pass_first() {
    let body = node("body", &[], vec![node("p", &[], vec![text("t"), node("img", &[("src", "a")], vec![])])]);
    let images = vec![element("img", &[("src", "a")])];
    let out = annotate_document("<body><p>t<img src=\"a\"></p></body>", &images, &body);
    assert_eq!(
        out,
        Ok("<body><p data-template=\"text\" data-title=\"待替换\">t<img src=\"a\" data-template=\"img\" data-title=\"图片\"></p></body>".to_string())
    );
}

#[test]
fn annotate_document_reports_the_fault_of_the_text_pass() {
    let body = DomNode { data: NodeData::Other, children: vec![text("t")] };
    assert_eq!(annotate_document("t", &vec![], &body), Err(Fault::ParentNotElement));
}

#[test]
fn attribute_values_are_written_as_debug_text() {
    let mut html = "<a title=\"x\\\"y\">".to_string();
    style_process(&element("a", &[("title", "x\"y")]), &mut html);
    assert_eq!(html, "<a title=\"x\\\"y\" data-template=\"img\" data-title=\"图片\">");
}

#[test]
fn style_block_comes_first() {
    assert_eq!(
        inject_style("p { color: red; }", "<body></body>"),
        format!("<style>p {{ color: red; }}\n{}</style>\n<body></body>", RESET_CSS)
    );
    assert_eq!(inject_style("", ""), format!("<style>\n{}</style>\n", RESET_CSS));
}
