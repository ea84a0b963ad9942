use genine::dom::Node;
use genine::dom::create_parse_tree;
use genine::dom::elem;
use genine::dom::text;
use genine::dom::try_create_parse_tree;
use genine::tokenizer::Attribute;

fn attr(name: &str, value: &str) -> Attribute {
    Attribute::new(name.to_string(), value.to_string())
}

fn el(name: &str, attrs: Vec<Attribute>, children: Vec<Node>) -> Node {
    elem(name.to_string(), attrs, children)
}

fn txt(content: &str) -> Node {
    text(content.to_string())
}

#[test]
fn single_element_with_text() {
    let tree = create_parse_tree("<p>hi</p>".to_string());
    assert_eq!(tree, el("p", vec![], vec![txt("hi")]));
}

#[test]
fn nested_elements_with_attribute() {
    let tree = create_parse_tree("<div id=\"a\"><span>x</span></div>".to_string());
    assert_eq!(
        tree,
        el(
            "div",
            vec![attr("id", "a")],
            vec![el("span", vec![], vec![txt("x")])]
        )
    );
}

#[test]
fn sibling_subtrees_attached_to_root() {
    let tree = create_parse_tree("<a><b>x</b><c>y</c></a>".to_string());
    assert_eq!(
        tree,
        el(
            "a",
            vec![],
            vec![
                el("b", vec![], vec![txt("x")]),
                el("c", vec![], vec![txt("y")]),
            ]
        )
    );
}

#[test]
fn first_top_level_node_ends_processing() {
    let tree = create_parse_tree("<a>x</a><b>y</b>".to_string());
    assert_eq!(tree, el("a", vec![], vec![txt("x")]));
}

#[test]
fn text_root_returned_at_once() {
    let tree = create_parse_tree("hi".to_string());
    assert_eq!(tree, txt("hi"));
}

#[test]
fn mismatched_closing_name_accepted() {
    let tree = create_parse_tree("<a>x</b>".to_string());
    assert_eq!(tree, el("a", vec![], vec![txt("x")]));
}

#[test]
fn try_create_parse_tree_unclosed_element_fails() {
    assert_eq!(try_create_parse_tree("<p>"), None);
}

#[test]
fn try_create_parse_tree_closing_with_nothing_open_fails() {
    assert_eq!(try_create_parse_tree("</p>"), None);
}

#[test]
fn try_create_parse_tree_empty_input_fails() {
    assert_eq!(try_create_parse_tree(""), None);
}

#[test]
fn clone_is_deep_and_equal() {
    let tree = create_parse_tree("<div id=\"a\"><span>x</span>y</div>".to_string());
    let copy = tree.clone();
    assert_eq!(copy, tree);
    assert_eq!(
        copy,
        el(
            "div",
            vec![attr("id", "a")],
            vec![el("span", vec![], vec![txt("x")]), txt("y")]
        )
    );
}

#[test]
fn text_node_has_no_children() {
    let leaf = txt("hi");
    assert!(leaf.children().is_empty());
    let tree = create_parse_tree("<a>x</a>".to_string());
    assert!(tree.children()[0].is_text());
    assert!(tree.children()[0].children().is_empty());
}

#[test]
fn node_accessors() {
    let tree = create_parse_tree("<div id=\"a\">hi</div>".to_string());
    assert!(!tree.is_text());
    assert_eq!(tree.tag_name().unwrap().as_str(), "div");
    assert_eq!(tree.attributes().unwrap(), &vec![attr("id", "a")]);
    assert_eq!(tree.text_content(), None);
    let children = tree.children();
    assert_eq!(children.len(), 1);
    assert!(children[0].is_text());
    assert_eq!(children[0].text_content().unwrap().as_str(), "hi");
    assert_eq!(children[0].tag_name(), None);
    assert_eq!(children[0].attributes(), None);
    assert!(children[0].children().is_empty());
}
