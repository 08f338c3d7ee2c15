use vstd::prelude::*;
use crate::format::config::Config;
use crate::text::push_char;
use crate::parse::kind::NodeKind;
use crate::parse::node::{children_of, forest_of, leaf_text, pairs_of, param_pair, params_of, tree_of, Node, Tree};

verus! {

/// `key="value"`
pub open spec fn param_text(p: (Seq<char>, Seq<char>)) -> Seq<char> {
    p.0 + "=\""@ + p.1 + "\""@
}

/// Each attribute, in order, preceded by one space.
pub open spec fn params_text(ps: Seq<(Seq<char>, Seq<char>)>) -> Seq<char>
    decreases ps.len(),
{
    if ps.len() == 0 {
        Seq::empty()
    } else {
        params_text(ps.drop_last()) + " "@ + param_text(ps.last())
    }
}

pub open spec fn open_line(name: Seq<char>, ps: Seq<(Seq<char>, Seq<char>)>) -> Seq<char> {
    "<"@ + name + params_text(ps) + ">"@
}

pub open spec fn solo_line(name: Seq<char>, ps: Seq<(Seq<char>, Seq<char>)>) -> Seq<char> {
    "<"@ + name + params_text(ps) + "/>"@
}

pub open spec fn close_line(name: Seq<char>) -> Seq<char> {
    "</"@ + name + ">"@
}

pub open spec fn spaces(n: nat) -> Seq<char> {
    Seq::new(n, |k: int| ' ')
}

/// The lines of a block, each indented by `n` more spaces.
pub open spec fn indent_block(lines: Seq<Seq<char>>, n: nat) -> Seq<Seq<char>> {
    lines.map_values(|l: Seq<char>| spaces(n) + l)
}

/// The lines of one node. A tag gives its opening line, the lines of its
/// children indented by one more level, and its closing line at the depth
/// of its opening line; every other node gives one line.
pub open spec fn tree_lines(t: Tree, w: nat) -> Seq<Seq<char>>
    decreases t, 1nat,
{
    match t {
        Tree::Text { text } => seq![text],
        Tree::Comment { text } => seq!["<!--"@ + text + "-->"@],
        Tree::Doctype { value } => seq!["<!doctype "@ + value + ">"@],
        Tree::Solo { name, params } => seq![solo_line(name, params)],
        Tree::Tag { name, params, children } => seq![open_line(name, params)] + indent_block(render(children, w), w)
            + seq![close_line(name)],
        Tree::Other => Seq::empty(),
    }
}

/// The rendered lines of a sequence of siblings, in document order.
pub open spec fn render(f: Seq<Tree>, w: nat) -> Seq<Seq<char>>
    decreases f, 0nat,
{
    if f.len() == 0 {
        Seq::empty()
    } else {
        proof {
            broadcast use vstd::seq::axiom_seq_subrange_decreases;
            broadcast use vstd::seq::axiom_seq_index_decreases;
            assert(decreases_to!(f => f.subrange(0, f.len() - 1)));
            assert(decreases_to!(f => f[f.len() - 1]));
        }
        render(f.subrange(0, f.len() - 1), w) + tree_lines(f[f.len() - 1], w)
    }
}

/// A tag renders as its opening line, then each line of its children one
/// level deeper, then its closing line at the depth of its opening line.
pub proof fn lemma_tag_renders_nested(
    name: Seq<char>,
    ps: Seq<(Seq<char>, Seq<char>)>,
    cs: Seq<Tree>,
    w: nat,
)
    ensures
        render(seq![Tree::Tag { name, params: ps, children: cs }], w) == seq![open_line(name, ps)]
            + indent_block(render(cs, w), w) + seq![close_line(name)],
{
    let f = seq![Tree::Tag { name, params: ps, children: cs }];
    assert(f.subrange(0, 0) =~= Seq::<Tree>::empty());
    assert(render(f.subrange(0, 0), w) == Seq::<Seq<char>>::empty());
    assert(f[0] == Tree::Tag { name, params: ps, children: cs });
    assert(render(f, w) == render(f.subrange(0, 0), w) + tree_lines(f[0], w));
    assert(Seq::<Seq<char>>::empty() + tree_lines(f[0], w) =~= tree_lines(f[0], w));
}

/// Siblings render one after another, in document order: the lines of two
/// sequences of nodes are the lines of the first followed by those of the
/// second.
pub proof fn lemma_siblings_render_in_order(f1: Seq<Tree>, f2: Seq<Tree>, w: nat)
    ensures
        render(f1 + f2, w) == render(f1, w) + render(f2, w),
    decreases f2.len(),
{
    if f2.len() == 0 {
        assert(f1 + f2 =~= f1);
        assert(render(f1, w) + Seq::<Seq<char>>::empty() =~= render(f1, w));
    } else {
        let g = f2.subrange(0, f2.len() - 1);
        lemma_siblings_render_in_order(f1, g, w);
        let all = f1 + f2;
        assert(all.subrange(0, all.len() - 1) =~= f1 + g);
        assert(all[all.len() - 1] == f2[f2.len() - 1]);
        assert(render(f1, w) + render(g, w) + tree_lines(f2[f2.len() - 1], w) =~= render(f1, w) + (render(g, w)
            + tree_lines(f2[f2.len() - 1], w)));
    }
}

/// Lines joined, each ended by a newline.
pub open spec fn joined(ls: Seq<Seq<char>>) -> Seq<char>
    decreases ls.len(),
{
    if ls.len() == 0 {
        Seq::empty()
    } else {
        joined(ls.drop_last()) + ls.last() + "\n"@
    }
}

/// The text that a document renders to, with `w` spaces per level.
pub open spec fn render_text(f: Seq<Tree>, w: nat) -> Seq<char> {
    joined(render(f, w))
}

pub open spec fn strings_view(v: Seq<String>) -> Seq<Seq<char>> {
    v.map_values(|s: String| s@)
}

proof fn lemma_strings_push(v: Seq<String>, x: String)
    ensures
        strings_view(v.push(x)) == strings_view(v).push(x@),
{
    assert(strings_view(v.push(x)) =~= strings_view(v).push(x@));
}

/// Renders a document tree as indented text.
pub struct Formatter {
    config: Config,
}

impl Formatter {
    /// Spaces per nesting level.
    pub closed spec fn width(&self) -> nat {
        self.config.ident as nat
    }

    pub fn new(config: Config) -> (r: Formatter)
        ensures
            r.width() == config.ident,
    {
        Formatter { config }
    }

    fn leaf(node: &Option<Box<Node>>) -> (r: String)
        ensures
            r@ == leaf_text(*node),
    {
        match node {
            Some(b) => b.imm_s.clone(),
            None => String::new(),
        }
    }

    fn str_parameter(&self, node: &Option<Box<Node>>) -> (r: String)
        ensures
            r@ == param_text(param_pair(*node)),
    {
        let (mut s, value) = match node {
            Some(b) => (Self::leaf(&b.lhs), Self::leaf(&b.rhs)),
            None => (String::new(), String::new()),
        };
        s.append("=\"");
        s.append(value.as_str());
        s.append("\"");
        s
    }

    fn str_parameters(&self, params: &Option<Box<Node>>) -> (r: String)
        ensures
            r@ == params_text(params_of(*params)),
    {
        let mut s = String::new();
        match params {
            Some(b) => match &b.children {
                Some(v) => {
                    let mut k: usize = 0;
                    while k < v.len()
                        invariant
                            0 <= k <= v@.len(),
                            s@ == params_text(pairs_of(v@.subrange(0, k as int))),
                        decreases v@.len() - k,
                    {
                        proof {
                            let now = pairs_of(v@.subrange(0, k as int + 1));
                            assert(now.drop_last() =~= pairs_of(v@.subrange(0, k as int)));
                        }
                        s.append(" ");
                        let one = self.str_parameter(&v[k]);
                        s.append(one.as_str());
                        k = k + 1;
                    }
                    proof {
                        assert(v@.subrange(0, v@.len() as int) =~= v@);
                    }
                },
                None => {},
            },
            None => {},
        }
        s
    }

    fn str_solo_tag(&self, node: &Node) -> (r: String)
        ensures
            r@ == solo_line(node.imm_s@, params_of(node.params)),
    {
        let mut s = String::from_str("<");
        s.append(node.imm_s.as_str());
        let ps = self.str_parameters(&node.params);
        s.append(ps.as_str());
        s.append("/>");
        s
    }

    fn str_tag(&self, node: &Node) -> (r: String)
        ensures
            r@ == open_line(node.imm_s@, params_of(node.params)),
    {
        let mut s = String::from_str("<");
        s.append(node.imm_s.as_str());
        let ps = self.str_parameters(&node.params);
        s.append(ps.as_str());
        s.append(">");
        s
    }

    /// The indentation of one level.
    fn indent_unit(&self) -> (r: String)
        ensures
            r@ == spaces(self.width()),
    {
        let w = self.config.ident;
        let mut s = String::new();
        let mut j: usize = 0;
        while j < w
            invariant
                0 <= j <= w,
                w == self.width(),
                s@ == spaces(j as nat),
            decreases w - j,
        {
            push_char(&mut s, ' ');
            assert(s@ =~= spaces(j as nat + 1));
            j = j + 1;
        }
        s
    }

    /// The lines that a sequence of sibling nodes renders to.
    fn format_lines(&self, nodes: &Vec<Option<Box<Node>>>) -> (r: Vec<String>)
        ensures
            strings_view(r@) == render(forest_of(nodes@), self.width()),
        decreases nodes@,
    {
        let ghost w = self.width();
        let unit = self.indent_unit();
        let mut lines: Vec<String> = Vec::new();
        let mut k: usize = 0;
        while k < nodes.len()
            invariant
                0 <= k <= nodes@.len(),
                w == self.width(),
                unit@ == spaces(w),
                strings_view(lines@) == render(forest_of(nodes@.subrange(0, k as int)), w),
            decreases nodes@.len() - k,
        {
            let ghost f0 = forest_of(nodes@.subrange(0, k as int));
            let ghost lines0 = strings_view(lines@);
            proof {
                let s1 = nodes@.subrange(0, k as int + 1);
                assert(s1.subrange(0, s1.len() - 1) =~= nodes@.subrange(0, k as int));
            }
            match &nodes[k] {
                None => {
                    proof {
                        assert(forest_of(nodes@.subrange(0, k as int + 1)) =~= f0);
                    }
                },
                Some(b) => {
                    let ghost t = tree_of(**b);
                    let ghost f1 = forest_of(nodes@.subrange(0, k as int + 1));
                    proof {
                        assert(f1 =~= f0.push(t));
                        assert(f1.subrange(0, f1.len() - 1) =~= f0);
                        assert(render(f1, w) == render(f0, w) + tree_lines(t, w));
                    }
                    if b.kind == NodeKind::Tag {
                        let open = self.str_tag(b);
                        proof {
                            lemma_strings_push(lines@, open);
                        }
                        lines.push(open);
                        let ghost after_open = strings_view(lines@);
                        let ghost inner_view = render(children_of(b.children), w);
                        match &b.children {
                            Some(v) => {
                                proof {
                                    broadcast use vstd::seq::axiom_seq_index_decreases;
                                    broadcast use vstd::std_specs::vec::axiom_vec_decreases_to_view;
                                    assert(decreases_to!(nodes@ => nodes@[k as int]));
                                    assert(decreases_to!(v => v@));
                                }
                                let inner = self.format_lines(v);
                                let ghost si = strings_view(inner@);
                                let mut m: usize = 0;
                                while m < inner.len()
                                    invariant
                                        0 <= m <= inner@.len(),
                                        unit@ == spaces(w),
                                        si == strings_view(inner@),
                                        strings_view(lines@) == after_open + indent_block(si.subrange(0, m as int), w),
                                    decreases inner@.len() - m,
                                {
                                    let mut line = unit.clone();
                                    line.append(inner[m].as_str());
                                    proof {
                                        lemma_strings_push(lines@, line);
                                        assert(indent_block(si.subrange(0, m as int + 1), w) =~= indent_block(
                                            si.subrange(0, m as int),
                                            w,
                                        ).push(spaces(w) + si[m as int]));
                                        assert(after_open + indent_block(si.subrange(0, m as int + 1), w) =~= (after_open
                                            + indent_block(si.subrange(0, m as int), w)).push(line@));
                                    }
                                    lines.push(line);
                                    m = m + 1;
                                }
                                proof {
                                    assert(si.subrange(0, si.len() as int) =~= inner_view);
                                }
                            },
                            None => {
                                proof {
                                    assert(indent_block(inner_view, w) =~= Seq::<Seq<char>>::empty());
                                    assert(after_open + indent_block(inner_view, w) =~= after_open);
                                }
                            },
                        }
                        let mut close = String::from_str("</");
                        close.append(b.imm_s.as_str());
                        close.append(">");
                        proof {
                            lemma_strings_push(lines@, close);
                        }
                        lines.push(close);
                        proof {
                            assert(strings_view(lines@) =~= lines0 + tree_lines(t, w));
                        }
                    } else {
                        let mut line = String::new();
                        let mut has_line = true;
                        if b.kind == NodeKind::Text {
                            line = b.imm_s.clone();
                        } else if b.kind == NodeKind::CommentTag {
                            line = String::from_str("<!--");
                            line.append(b.imm_s.as_str());
                            line.append("-->");
                        } else if b.kind == NodeKind::DoctypeTag {
                            line = String::from_str("<!doctype ");
                            line.append(b.imm_s.as_str());
                            line.append(">");
                        } else if b.kind == NodeKind::SoloTag {
                            line = self.str_solo_tag(b);
                        } else {
                            has_line = false;
                        }
                        if has_line {
                            proof {
                                lemma_strings_push(lines@, line);
                                assert(tree_lines(t, w) =~= seq![line@]);
                            }
                            lines.push(line);
                            proof {
                                assert(strings_view(lines@) =~= lines0 + tree_lines(t, w));
                            }
                        } else {
                            proof {
                                assert(lines0 + tree_lines(t, w) =~= lines0);
                            }
                        }
                    }
                },
            }
            k = k + 1;
        }
        proof {
            assert(nodes@.subrange(0, nodes@.len() as int) =~= nodes@);
        }
        lines
    }

    /// Renders sibling nodes as text: one construct per line, each line
    /// ended by a newline and indented by the width per nesting level.
    pub fn format(&self, nodes: Vec<Option<Box<Node>>>) -> (r: String)
        ensures
            r@ == render_text(forest_of(nodes@), self.width()),
    {
        let lines = self.format_lines(&nodes);
        let ghost ls = strings_view(lines@);
        let mut result = String::new();
        let mut k: usize = 0;
        while k < lines.len()
            invariant
                0 <= k <= lines@.len(),
                ls == strings_view(lines@),
                result@ == joined(ls.subrange(0, k as int)),
            decreases lines@.len() - k,
        {
            result.append(lines[k].as_str());
            result.append("\n");
            proof {
                let s1 = ls.subrange(0, k as int + 1);
                assert(s1.drop_last() =~= ls.subrange(0, k as int));
                assert(s1.last() == lines@[k as int]@);
                assert(joined(s1) == joined(s1.drop_last()) + s1.last() + "\n"@);
            }
            k = k + 1;
        }
        proof {
            assert(ls.subrange(0, ls.len() as int) =~= ls);
        }
        result
    }
}

} // verus!
