//! The tree builder: consumes the tokenizer's output and reduces it to a
//! single rooted [`Node`] tree with an explicit stack of in-progress
//! element nodes.
//!
//! The reduction is modelled by [`build_spec`]; a spec result of `None`
//! marks an input on which the builder has no defined result (a closing tag
//! with nothing open, or a token sequence exhausted before any top-level
//! node completes). [`try_create_parse_tree`] is total and reports that
//! case as `None`; [`create_parse_tree`] excludes it by `requires`.

use vstd::prelude::*;

use crate::tokenizer::Attribute;
use crate::tokenizer::AttrVal;
use crate::tokenizer::Token;
use crate::tokenizer::TokenVal;
use crate::tokenizer::attrs_view;
use crate::tokenizer::spec_tokenize;
use crate::tokenizer::tokens_view;
use crate::tokenizer::try_tokenize;

verus! {

/// An element (tag name, attributes, ordered children) or a text leaf in
/// the built document tree. A text leaf never has children.
#[derive(Debug, PartialEq)]
pub struct Node {
    children: Vec<Node>,
    node_type: NodeType,
}

#[derive(Debug, PartialEq)]
enum NodeType {
    Text(String),
    Element(ElementData),
}

#[derive(Debug, Clone, PartialEq)]
struct ElementData {
    tag_name: String,
    attributes: Vec<Attribute>,
}

/// The mathematical value of a [`Node`]: a strict tree of elements and text
/// leaves.
#[verifier::ext_equal]
pub enum NodeVal {
    Text(Seq<char>),
    Element { tag_name: Seq<char>, attributes: Seq<AttrVal>, children: Seq<NodeVal> },
}

/// The mathematical value of a [`Node`]; a text leaf's child slot is never
/// read, so a text node's value carries no children.
pub closed spec fn node_val(n: Node) -> NodeVal
    decreases n,
{
    match n.node_type {
        NodeType::Text(content) => NodeVal::Text(content@),
        NodeType::Element(data) => NodeVal::Element {
            tag_name: data.tag_name@,
            attributes: attrs_view(data.attributes@),
            children: Seq::new(
                n.children@.len(),
                |i: int|
                    if 0 <= i < n.children@.len() {
                        node_val(n.children@[i])
                    } else {
                        NodeVal::Text(Seq::empty())
                    },
            ),
        },
    }
}

/// The values of a sequence of nodes.
pub open spec fn nodes_val(s: Seq<Node>) -> Seq<NodeVal> {
    s.map_values(|n: Node| node_val(n))
}

impl View for Node {
    type V = NodeVal;

    open spec fn view(&self) -> NodeVal {
        node_val(*self)
    }
}

impl Node {
    /// A text leaf never has children: the child slot of a `Text` node is
    /// always empty. Every constructor establishes this and every method
    /// preserves it.
    #[verifier::type_invariant]
    spec fn text_is_leaf(self) -> bool {
        self.node_type is Text ==> self.children@.len() == 0
    }

    /// How many children the node holds; on a text leaf this is zero.
    pub closed spec fn spec_num_children(self) -> nat {
        self.children@.len()
    }

    /// Whether this node is a text leaf.
    pub fn is_text(&self) -> (b: bool)
        ensures
            b == (self@ is Text),
    {
        matches!(self.node_type, NodeType::Text(_))
    }

    /// The content of a text leaf; `None` on an element.
    pub fn text_content(&self) -> (r: Option<&String>)
        ensures
            match r {
                Option::Some(s) => self@ is Text && s@ == self@->Text_0,
                Option::None => !(self@ is Text),
            },
    {
        match &self.node_type {
            NodeType::Text(content) => Some(content),
            NodeType::Element(_) => None,
        }
    }

    /// The tag name of an element; `None` on a text leaf.
    pub fn tag_name(&self) -> (r: Option<&String>)
        ensures
            match r {
                Option::Some(s) => self@ is Element && s@ == self@->Element_tag_name,
                Option::None => !(self@ is Element),
            },
    {
        match &self.node_type {
            NodeType::Text(_) => None,
            NodeType::Element(data) => Some(&data.tag_name),
        }
    }

    /// The attributes of an element; `None` on a text leaf.
    pub fn attributes(&self) -> (r: Option<&Vec<Attribute>>)
        ensures
            match r {
                Option::Some(v) => self@ is Element && attrs_view(v@) == self@->Element_attributes,
                Option::None => !(self@ is Element),
            },
    {
        match &self.node_type {
            NodeType::Text(_) => None,
            NodeType::Element(data) => Some(&data.attributes),
        }
    }

    /// The node's ordered children. A text leaf has none.
    pub fn children(&self) -> (r: &Vec<Node>)
        ensures
            self@ is Element ==> nodes_val(r@) == self@->Element_children,
            r@.len() == self.spec_num_children(),
            self@ is Text ==> r@.len() == 0,
    {
        proof {
            use_type_invariant(&*self);
            if self@ is Text && self.node_type is Element {
                assert(self@ is Element);
                assert(false);
            }
        }
        &self.children
    }
}

/// `child` appended to an element's child sequence; a text leaf is left
/// unchanged (its child slot is never read).
pub open spec fn add_child(parent: NodeVal, child: NodeVal) -> NodeVal {
    match parent {
        NodeVal::Element { tag_name, attributes, children } => NodeVal::Element {
            tag_name,
            attributes,
            children: children.push(child),
        },
        NodeVal::Text(content) => NodeVal::Text(content),
    }
}

/// The stack-based reduction of a token sequence. `Start` and `End` are
/// no-ops; an opening tag pushes a new childless element; a closing tag or
/// a text run completes the top node and attaches it to its parent — or,
/// with no parent left, is returned at once as the final result, even if
/// tokens remain. `None` marks the fatal cases: a closing tag with nothing
/// open, and a sequence exhausted before any such return.
pub open spec fn build_spec(ts: Seq<TokenVal>, stack: Seq<NodeVal>) -> Option<NodeVal>
    decreases ts.len(),
{
    if ts.len() == 0 {
        None
    } else {
        match ts[0] {
            TokenVal::Start => build_spec(ts.drop_first(), stack),
            TokenVal::End => build_spec(ts.drop_first(), stack),
            TokenVal::OpeningTag(name, attrs) => build_spec(
                ts.drop_first(),
                stack.push(
                    NodeVal::Element { tag_name: name, attributes: attrs, children: Seq::empty() },
                ),
            ),
            TokenVal::ClosingTag(name) => {
                if stack.len() == 0 {
                    None
                } else if stack.len() == 1 {
                    Some(stack.last())
                } else {
                    build_spec(
                        ts.drop_first(),
                        stack.drop_last().drop_last().push(
                            add_child(stack[stack.len() - 2], stack.last()),
                        ),
                    )
                }
            },
            TokenVal::Text(content) => {
                if stack.len() == 0 {
                    Some(NodeVal::Text(content))
                } else {
                    build_spec(
                        ts.drop_first(),
                        stack.drop_last().push(add_child(stack.last(), NodeVal::Text(content))),
                    )
                }
            },
        }
    }
}

/// What building a tree from `s` yields: the tokenizer's output reduced
/// from an empty stack. `None` marks an input on which the tokenizer or the
/// builder has no defined result.
pub open spec fn spec_create_parse_tree(s: Seq<char>) -> Option<NodeVal> {
    match spec_tokenize(s) {
        Option::None => None,
        Option::Some(ts) => build_spec(ts, Seq::empty()),
    }
}

/// A childless text leaf: its child sequence is empty.
pub fn text(data: String) -> (n: Node)
    ensures
        n@ == NodeVal::Text(data@),
        n.spec_num_children() == 0,
{
    Node { children: Vec::new(), node_type: NodeType::Text(data) }
}

/// An element node with the given tag name, attributes and children.
pub fn elem(name: String, attrs: Vec<Attribute>, children: Vec<Node>) -> (n: Node)
    ensures
        n@ == (NodeVal::Element {
            tag_name: name@,
            attributes: attrs_view(attrs@),
            children: nodes_val(children@),
        }),
        n.spec_num_children() == children@.len(),
{
    let n = Node {
        children,
        node_type: NodeType::Element(ElementData { tag_name: name, attributes: attrs }),
    };
    proof {
        assert(node_val(n)->Element_children =~= nodes_val(n.children@));
    }
    n
}

impl Clone for Node {
    /// A deep copy with the same mathematical value.
    fn clone(&self) -> (res: Node)
        ensures
            res@ == self@,
        decreases self,
    {
        proof {
            use_type_invariant(&*self);
        }
        let n = self.children.len();
        let mut children: Vec<Node> = Vec::new();
        let mut i: usize = 0;
        while i < n
            invariant
                i <= n,
                n == self.children@.len(),
                children@.len() == i,
                forall|j: int|
                    0 <= j < i ==> #[trigger] node_val(children@[j]) == node_val(
                        self.children@[j],
                    ),
            decreases n - i,
        {
            let c = self.children[i].clone();
            children.push(c);
            i = i + 1;
        }
        match &self.node_type {
            NodeType::Text(content) => {
                let res = Node { children, node_type: NodeType::Text(content.clone()) };
                proof {
                    assert(res@ == self@);
                }
                res
            },
            NodeType::Element(data) => {
                let cloned_attrs = data.attributes.clone();
                proof {
                    assert(attrs_view(cloned_attrs@) =~= attrs_view(data.attributes@));
                }
                let res = Node {
                    children,
                    node_type: NodeType::Element(
                        ElementData { tag_name: data.tag_name.clone(), attributes: cloned_attrs },
                    ),
                };
                proof {
                    assert forall|j: int| 0 <= j < n as int implies node_val(res)->Element_children[j]
                        == node_val(*self)->Element_children[j] by {
                        assert(node_val(children@[j]) == node_val(self.children@[j]));
                    }
                    assert(node_val(res)->Element_children =~= node_val(*self)->Element_children);
                    assert(res@ == self@);
                }
                res
            },
        }
    }
}

/// `child` appended to `parent`'s child sequence, as [`add_child`] states
/// at the value level. Asks for an element, so a text leaf stays childless.
fn attach_child(parent: Node, child: Node) -> (r: Node)
    requires
        parent@ is Element,
    ensures
        r@ == add_child(parent@, child@),
{
    let ghost p0 = parent;
    let Node { children: mut cs, node_type } = parent;
    proof {
        if p0.node_type is Text {
            assert(node_val(p0) is Text);
            assert(false);
        }
    }
    cs.push(child);
    let r = Node { children: cs, node_type };
    proof {
        lemma_node_val_push_child(p0, child, r);
    }
    r
}

/// Appending a child at the representation level matches [`add_child`] at
/// the value level.
proof fn lemma_node_val_push_child(p: Node, c: Node, q: Node)
    requires
        q.node_type == p.node_type,
        q.children@ == p.children@.push(c),
    ensures
        node_val(q) == add_child(node_val(p), node_val(c)),
{
    match p.node_type {
        NodeType::Text(_) => {
        },
        NodeType::Element(_) => {
            assert(node_val(q)->Element_children =~= node_val(p)->Element_children.push(
                node_val(c),
            ));
        },
    }
}

/// Total tree building: `None` exactly on the inputs whose tokenizing or
/// reduction has no defined result.
pub fn try_create_parse_tree(html: &str) -> (r: Option<Node>)
    ensures
        match r {
            Option::Some(n) => spec_create_parse_tree(html@) == Some(n@),
            Option::None => spec_create_parse_tree(html@) is None,
        },
{
    let mut toks = match try_tokenize(html) {
        Option::None => {
            return None;
        },
        Option::Some(t) => t,
    };
    let ghost full = tokens_view(toks@);
    let mut stack: Vec<Node> = Vec::new();
    proof {
        assert(nodes_val(stack@) =~= Seq::<NodeVal>::empty());
    }
    while toks.len() > 0
        invariant
            spec_tokenize(html@) == Some(full),
            build_spec(tokens_view(toks@), nodes_val(stack@)) == build_spec(full, Seq::empty()),
            forall|j: int|
                0 <= j < stack@.len() ==> (#[trigger] node_val(stack@[j])) is Element,
        decreases toks@.len(),
    {
        let ghost ts = tokens_view(toks@);
        let ghost st = nodes_val(stack@);
        let token = toks.remove(0);
        proof {
            assert(tokens_view(toks@) =~= ts.drop_first());
            assert(token@ == ts[0]);
        }
        match token {
            Token::Start => {},
            Token::End => {},
            Token::OpeningTag(tag_name, attr) => {
                let ghost gname = tag_name@;
                let ghost gattrs = attrs_view(attr@);
                let node = elem(tag_name, attr, Vec::new());
                proof {
                    assert(nodes_val(Seq::<Node>::empty()) =~= Seq::<NodeVal>::empty());
                    assert(node_val(node) == (NodeVal::Element {
                        tag_name: gname,
                        attributes: gattrs,
                        children: Seq::empty(),
                    }));
                }
                stack.push(node);
                proof {
                    assert(nodes_val(stack@) =~= st.push(node_val(node)));
                }
            },
            Token::ClosingTag(_) => {
                if stack.len() == 0 {
                    return None;
                }
                let node = stack.pop().unwrap();
                if stack.len() == 0 {
                    proof {
                        assert(st.len() == 1 && st.last() == node_val(node));
                    }
                    return Some(node);
                }
                let parent = stack.pop().unwrap();
                proof {
                    assert(node_val(parent) is Element);
                }
                let parent = attach_child(parent, node);
                stack.push(parent);
                proof {
                    assert(nodes_val(stack@) =~= st.drop_last().drop_last().push(
                        add_child(st[st.len() - 2], st.last()),
                    ));
                }
            },
            Token::Text(txt) => {
                let node = text(txt);
                if stack.len() == 0 {
                    return Some(node);
                }
                let parent = stack.pop().unwrap();
                proof {
                    assert(node_val(parent) is Element);
                }
                let parent = attach_child(parent, node);
                stack.push(parent);
                proof {
                    assert(nodes_val(stack@) =~= st.drop_last().push(
                        add_child(st.last(), node_val(node)),
                    ));
                }
            },
        }
    }
    proof {
        assert(tokens_view(toks@).len() == 0);
    }
    None
}

/// The token sequence a tree lays out: a text leaf's single `Text` token;
/// an element's opening tag, its children's sequences in order, and a
/// matching closing tag. Flattening a tree this way is the inverse of
/// building, as [`lemma_build_reproduces_node`] states.
pub open spec fn node_tokens(n: NodeVal) -> Seq<TokenVal>
    decreases n,
{
    match n {
        NodeVal::Text(content) => seq![TokenVal::Text(content)],
        NodeVal::Element { tag_name, attributes, children } => seq![
            TokenVal::OpeningTag(tag_name, attributes),
        ] + children_tokens(children) + seq![TokenVal::ClosingTag(tag_name)],
    }
}

/// The concatenated token sequences of a forest, in order.
pub open spec fn children_tokens(cs: Seq<NodeVal>) -> Seq<TokenVal>
    decreases cs,
{
    if cs.len() == 0 {
        Seq::empty()
    } else {
        node_tokens(cs[0]) + children_tokens(cs.drop_first())
    }
}

/// Each node of `cs`, in order, appended to an element's child sequence.
pub open spec fn add_children(parent: NodeVal, cs: Seq<NodeVal>) -> NodeVal
    decreases cs.len(),
{
    if cs.len() == 0 {
        parent
    } else {
        add_children(add_child(parent, cs[0]), cs.drop_first())
    }
}

proof fn lemma_add_children_element(
    tag: Seq<char>,
    attrs: Seq<AttrVal>,
    pre: Seq<NodeVal>,
    cs: Seq<NodeVal>,
)
    ensures
        add_children(NodeVal::Element { tag_name: tag, attributes: attrs, children: pre }, cs)
            == (NodeVal::Element { tag_name: tag, attributes: attrs, children: pre + cs }),
    decreases cs.len(),
{
    if cs.len() == 0 {
        assert(pre + cs =~= pre);
    } else {
        lemma_add_children_element(tag, attrs, pre.push(cs[0]), cs.drop_first());
        assert(pre.push(cs[0]) + cs.drop_first() =~= pre + cs);
    }
}

/// Reducing the tokens of one complete node: with an empty stack the node
/// itself is returned at once, whatever tokens follow; with a parent open,
/// the node is attached to the top of the stack and the reduction goes on.
pub proof fn lemma_build_node(n: NodeVal, rest: Seq<TokenVal>, stack: Seq<NodeVal>)
    ensures
        stack.len() == 0 ==> build_spec(node_tokens(n) + rest, stack) == Some(n),
        stack.len() > 0 ==> build_spec(node_tokens(n) + rest, stack) == build_spec(
            rest,
            stack.drop_last().push(add_child(stack.last(), n)),
        ),
    decreases n,
{
    match n {
        NodeVal::Text(content) => {
            let ts = node_tokens(n) + rest;
            assert(ts[0] == TokenVal::Text(content));
            assert(ts.drop_first() =~= rest);
        },
        NodeVal::Element { tag_name, attributes, children } => {
            let ts = node_tokens(n) + rest;
            assert(ts[0] == TokenVal::OpeningTag(tag_name, attributes));
            let open_node = NodeVal::Element {
                tag_name,
                attributes,
                children: Seq::empty(),
            };
            let stack1 = stack.push(open_node);
            let close_rest = seq![TokenVal::ClosingTag(tag_name)] + rest;
            assert(ts.drop_first() =~= children_tokens(children) + close_rest);
            lemma_build_children(children, close_rest, stack1);
            lemma_add_children_element(tag_name, attributes, Seq::empty(), children);
            assert(Seq::<NodeVal>::empty() + children =~= children);
            let stack2 = stack1.drop_last().push(add_children(open_node, children));
            assert(stack2 =~= stack.push(n));
            assert(close_rest[0] == TokenVal::ClosingTag(tag_name));
            assert(close_rest.drop_first() =~= rest);
            if stack.len() == 0 {
                assert(stack2.len() == 1);
                assert(build_spec(close_rest, stack2) == Some(n));
            } else {
                assert(stack2.drop_last().drop_last() =~= stack.drop_last());
                assert(stack2[stack2.len() - 2] == stack.last());
                assert(build_spec(close_rest, stack2) == build_spec(
                    rest,
                    stack.drop_last().push(add_child(stack.last(), n)),
                ));
            }
        },
    }
}

/// Reducing the concatenated tokens of a forest attaches each of its nodes,
/// in order, to the element on top of the stack.
pub proof fn lemma_build_children(cs: Seq<NodeVal>, rest: Seq<TokenVal>, stack: Seq<NodeVal>)
    requires
        stack.len() > 0,
    ensures
        build_spec(children_tokens(cs) + rest, stack) == build_spec(
            rest,
            stack.drop_last().push(add_children(stack.last(), cs)),
        ),
    decreases cs,
{
    if cs.len() == 0 {
        assert(children_tokens(cs) + rest =~= rest);
        assert(stack.drop_last().push(stack.last()) =~= stack);
    } else {
        assert(children_tokens(cs) + rest =~= node_tokens(cs[0]) + (children_tokens(
            cs.drop_first(),
        ) + rest));
        lemma_build_node(cs[0], children_tokens(cs.drop_first()) + rest, stack);
        let stack1 = stack.drop_last().push(add_child(stack.last(), cs[0]));
        lemma_build_children(cs.drop_first(), rest, stack1);
        assert(stack1.drop_last() =~= stack.drop_last());
    }
}

/// The round trip at the token level: a token sequence that begins with
/// `Start` and lays out one complete node rebuilds exactly that node,
/// whatever tokens follow — so flattening the built tree back to tag-name
/// and text labels reproduces the nesting it was built from.
pub proof fn lemma_build_reproduces_node(n: NodeVal, rest: Seq<TokenVal>)
    ensures
        build_spec(seq![TokenVal::Start] + node_tokens(n) + rest, Seq::empty()) == Some(n),
{
    let ts = seq![TokenVal::Start] + node_tokens(n) + rest;
    assert(ts[0] == TokenVal::Start);
    assert(ts.drop_first() =~= node_tokens(n) + rest);
    lemma_build_node(n, rest, Seq::empty());
}

/// Well-formed markup rebuilds its own structure: on any input whose token
/// sequence lays out one complete node, building yields exactly that node.
pub proof fn lemma_round_trip(s: Seq<char>, n: NodeVal, rest: Seq<TokenVal>)
    requires
        spec_tokenize(s) == Some(seq![TokenVal::Start] + node_tokens(n) + rest),
    ensures
        spec_create_parse_tree(s) == Some(n),
{
    lemma_build_reproduces_node(n, rest);
}

/// Builds the document tree for `html`, as [`spec_create_parse_tree`]
/// states: the first top-level node completed by the reduction. The inputs
/// on which the tokenizer or the builder has no defined result are excluded
/// by `requires`.
pub fn create_parse_tree(html: String) -> (n: Node)
    requires
        spec_create_parse_tree(html@) is Some,
    ensures
        Some(n@) == spec_create_parse_tree(html@),
{
    try_create_parse_tree(html.as_str()).unwrap()
}

} // verus!
