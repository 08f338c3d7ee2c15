use vstd::prelude::*;
use crate::parse::kind::NodeKind;

verus! {

/// A node of the parsed document. A `Tag` holds its name in `imm_s`, its
/// attributes in `params` (one `Parameters` node whose children are
/// `Parameter` nodes, each with an `Identifier` as `lhs` and a `VString` as
/// `rhs`) and its content in `children`. A `SoloTag` has a name and
/// attributes only; text, comment and doctype nodes hold their text in `imm_s`.
#[derive(Debug)]
pub struct Node {
    pub kind: NodeKind,
    pub imm_s: String,
    pub lhs: Option<Box<Node>>,
    pub rhs: Option<Box<Node>>,
    pub children: Option<Vec<Option<Box<Node>>>>,
    pub params: Option<Box<Node>>,
}

/// The content of a document node as mathematical values.
pub enum Tree {
    Tag { name: Seq<char>, params: Seq<(Seq<char>, Seq<char>)>, children: Seq<Tree> },
    Solo { name: Seq<char>, params: Seq<(Seq<char>, Seq<char>)> },
    Comment { text: Seq<char> },
    Doctype { value: Seq<char> },
    Text { text: Seq<char> },
    /// A node that does not stand in a document on its own (an attribute part).
    Other,
}

/// The text of an optional leaf node; empty when there is none.
pub open spec fn leaf_text(n: Option<Box<Node>>) -> Seq<char> {
    match n {
        Some(b) => b.imm_s@,
        None => Seq::empty(),
    }
}

/// The key and value of one attribute entry.
pub open spec fn param_pair(p: Option<Box<Node>>) -> (Seq<char>, Seq<char>) {
    match p {
        Some(b) => (leaf_text(b.lhs), leaf_text(b.rhs)),
        None => (Seq::empty(), Seq::empty()),
    }
}

/// The key and value of each attribute entry.
pub open spec fn pairs_of(s: Seq<Option<Box<Node>>>) -> Seq<(Seq<char>, Seq<char>)> {
    s.map_values(|p: Option<Box<Node>>| param_pair(p))
}

/// The attributes held by the `params` field of a tag.
pub open spec fn params_of(params: Option<Box<Node>>) -> Seq<(Seq<char>, Seq<char>)> {
    match params {
        Some(b) => match b.children {
            Some(v) => pairs_of(v@),
            None => Seq::empty(),
        },
        None => Seq::empty(),
    }
}

/// The trees of a sequence of optional nodes, absent entries left out.
pub open spec fn forest_of(s: Seq<Option<Box<Node>>>) -> Seq<Tree>
    decreases s, 0nat,
{
    if s.len() == 0 {
        Seq::empty()
    } else {
        proof {
            broadcast use vstd::seq::axiom_seq_subrange_decreases;
            broadcast use vstd::seq::axiom_seq_index_decreases;
            assert(decreases_to!(s => s.subrange(0, s.len() - 1)));
            assert(decreases_to!(s => s[s.len() - 1]));
        }
        forest_of(s.subrange(0, s.len() - 1)) + match s[s.len() - 1] {
            Some(b) => seq![tree_of(*b)],
            None => Seq::empty(),
        }
    }
}

/// The children of a node as trees.
pub open spec fn children_of(c: Option<Vec<Option<Box<Node>>>>) -> Seq<Tree>
    decreases c, 1nat,
{
    match c {
        Some(v) => {
            proof {
                broadcast use vstd::std_specs::vec::axiom_vec_decreases_to_view;
                assert(decreases_to!(v => v@));
            }
            forest_of(v@)
        },
        None => Seq::empty(),
    }
}

/// What a node stands for in the document.
pub open spec fn tree_of(n: Node) -> Tree
    decreases n, 2nat,
{
    match n.kind {
        NodeKind::Tag => Tree::Tag {
            name: n.imm_s@,
            params: params_of(n.params),
            children: children_of(n.children),
        },
        NodeKind::SoloTag => Tree::Solo { name: n.imm_s@, params: params_of(n.params) },
        NodeKind::CommentTag => Tree::Comment { text: n.imm_s@ },
        NodeKind::DoctypeTag => Tree::Doctype { value: n.imm_s@ },
        NodeKind::Text => Tree::Text { text: n.imm_s@ },
        _ => Tree::Other,
    }
}

/// A node of kind `k` that holds only its text.
pub open spec fn is_leaf(n: Node, k: NodeKind) -> bool {
    &&& n.kind == k
    &&& n.lhs is None
    &&& n.rhs is None
    &&& n.children is None
    &&& n.params is None
}

pub open spec fn leaf_of_kind(o: Option<Box<Node>>, k: NodeKind) -> bool {
    match o {
        Some(b) => is_leaf(*b, k),
        None => false,
    }
}

/// One attribute: a `Parameter` node with an `Identifier` key and a
/// `VString` value.
pub open spec fn param_shaped(o: Option<Box<Node>>) -> bool {
    match o {
        Some(b) => {
            &&& b.kind == NodeKind::Parameter
            &&& leaf_of_kind(b.lhs, NodeKind::Identifier)
            &&& leaf_of_kind(b.rhs, NodeKind::VString)
            &&& b.children is None
            &&& b.params is None
        },
        None => false,
    }
}

/// The `params` field of a tag: absent when there are no attributes, else
/// one `Parameters` node holding at least one attribute.
pub open spec fn params_shaped(p: Option<Box<Node>>) -> bool {
    match p {
        None => true,
        Some(b) => {
            &&& b.kind == NodeKind::Parameters
            &&& b.lhs is None
            &&& b.rhs is None
            &&& b.params is None
            &&& match b.children {
                Some(v) => v@.len() > 0 && forall|k: int| 0 <= k < v@.len() ==> #[trigger] param_shaped(v@[k]),
                None => false,
            }
        },
    }
}

/// Every entry is present and well shaped.
pub open spec fn forest_shaped(s: Seq<Option<Box<Node>>>) -> bool
    decreases s, 0nat,
{
    if s.len() == 0 {
        true
    } else {
        proof {
            broadcast use vstd::seq::axiom_seq_subrange_decreases;
            broadcast use vstd::seq::axiom_seq_index_decreases;
            assert(decreases_to!(s => s.subrange(0, s.len() - 1)));
            assert(decreases_to!(s => s[s.len() - 1]));
        }
        forest_shaped(s.subrange(0, s.len() - 1)) && match s[s.len() - 1] {
            Some(b) => shaped(*b),
            None => false,
        }
    }
}

/// The children of a tag: absent when there are none, else a non-empty
/// sequence of well-shaped nodes.
pub open spec fn children_shaped(c: Option<Vec<Option<Box<Node>>>>) -> bool
    decreases c, 1nat,
{
    match c {
        Some(v) => {
            proof {
                broadcast use vstd::std_specs::vec::axiom_vec_decreases_to_view;
                assert(decreases_to!(v => v@));
            }
            v@.len() > 0 && forest_shaped(v@)
        },
        None => true,
    }
}

/// A document node as parsing builds it: a tag with well-shaped attributes
/// and children, a self-closing tag without children, or a comment,
/// doctype or text node that holds only its text.
pub open spec fn shaped(n: Node) -> bool
    decreases n, 2nat,
{
    &&& n.lhs is None
    &&& n.rhs is None
    &&& match n.kind {
        NodeKind::Tag => params_shaped(n.params) && children_shaped(n.children),
        NodeKind::SoloTag => params_shaped(n.params) && n.children is None,
        NodeKind::CommentTag | NodeKind::DoctypeTag | NodeKind::Text => n.children is None && n.params is None,
        _ => false,
    }
}

impl Node {
    pub fn new(
        kind: NodeKind,
        lhs: Option<Box<Node>>,
        rhs: Option<Box<Node>>,
        children: Option<Vec<Option<Box<Node>>>>,
        params: Option<Box<Node>>,
        s: String,
    ) -> (r: Node)
        ensures
            r == (Node { kind, imm_s: s, lhs, rhs, children, params }),
    {
        Node { kind, imm_s: s, lhs, rhs, children, params }
    }
}

} // verus!
