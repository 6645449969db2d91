//! A small XML element tree, built from a flat stream of tokens.
use vstd::prelude::*;

verus! {

/// One token of an XML document: an opening tag, a closing tag or a piece of character data.
/// Tag names are local names (any namespace prefix removed).
pub enum XmlToken {
    Open(String),
    Close(String),
    Text(String),
}

/// The mathematical value of an [`XmlToken`].
pub enum TokenView {
    Open(Seq<char>),
    Close(Seq<char>),
    Text(Seq<char>),
}

impl View for XmlToken {
    type V = TokenView;

    open spec fn view(&self) -> TokenView {
        match self {
            XmlToken::Open(n) => TokenView::Open(n@),
            XmlToken::Close(n) => TokenView::Close(n@),
            XmlToken::Text(t) => TokenView::Text(t@),
        }
    }
}

pub open spec fn tokens_view(ts: Seq<XmlToken>) -> Seq<TokenView> {
    ts.map_values(|t: XmlToken| t@)
}

/// A node of an XML tree: an element with its children, or character data.
pub enum XmlNode {
    Element { name: String, children: Vec<XmlNode> },
    Text(String),
}

/// The mathematical value of an [`XmlNode`].
pub enum NodeView {
    Element(Seq<char>, Seq<NodeView>),
    Text(Seq<char>),
}

pub open spec fn node_view(n: XmlNode) -> NodeView
    decreases n,
{
    match n {
        XmlNode::Element { name, children } => NodeView::Element(name@, nodes_view(children@)),
        XmlNode::Text(t) => NodeView::Text(t@),
    }
}

pub open spec fn nodes_view(ns: Seq<XmlNode>) -> Seq<NodeView>
    decreases ns,
{
    Seq::new(
        ns.len(),
        |i: int|
            if 0 <= i < ns.len() {
                node_view(ns[i])
            } else {
                NodeView::Text(Seq::empty())
            },
    )
}

/// The tokens that spell out one node.
pub open spec fn node_tokens(n: NodeView) -> Seq<TokenView>
    decreases n,
{
    match n {
        NodeView::Element(name, kids) => seq![TokenView::Open(name)] + nodes_tokens(kids) + seq![
            TokenView::Close(name),
        ],
        NodeView::Text(t) => seq![TokenView::Text(t)],
    }
}

/// The tokens that spell out a sequence of sibling nodes, one after the other.
pub open spec fn nodes_tokens(ns: Seq<NodeView>) -> Seq<TokenView>
    decreases ns,
{
    if ns.len() == 0 {
        Seq::empty()
    } else {
        node_tokens(ns[0]) + nodes_tokens(ns.subrange(1, ns.len() as int))
    }
}

/// Position `end` ends a run of siblings: the tokens are used up, or a closing tag follows.
pub open spec fn stops_at(tv: Seq<TokenView>, end: int) -> bool {
    end == tv.len() || (0 <= end < tv.len() && tv[end] is Close)
}

/// `ns` are the siblings spelled out by `tv[pos..end]`, and nothing more can follow them.
pub open spec fn siblings_at(tv: Seq<TokenView>, pos: int, end: int, ns: Seq<NodeView>) -> bool {
    &&& 0 <= pos <= end <= tv.len()
    &&& tv.subrange(pos, end) == nodes_tokens(ns)
    &&& stops_at(tv, end)
}

proof fn lemma_node_tokens_nonempty(n: NodeView)
    ensures
        node_tokens(n).len() >= 1,
        n is Text ==> node_tokens(n)[0] == TokenView::Text(n->Text_0),
        n is Element ==> node_tokens(n)[0] == TokenView::Open(n->Element_0),
{
}

/// A witness for the siblings at `pos` that is not empty tells what the first token is, and
/// gives witnesses for what follows it.
proof fn lemma_siblings_split(tv: Seq<TokenView>, pos: int, end: int, ns: Seq<NodeView>)
    requires
        siblings_at(tv, pos, end, ns),
        pos < tv.len(),
        !(tv[pos] is Close),
    ensures
        ns.len() > 0,
        ns[0] is Text ==> tv[pos] == TokenView::Text(ns[0]->Text_0) && siblings_at(
            tv,
            pos + 1,
            end,
            ns.subrange(1, ns.len() as int),
        ),
        ns[0] is Element ==> {
            let k = pos + 1 + nodes_tokens(ns[0]->Element_1).len();
            &&& tv[pos] == TokenView::Open(ns[0]->Element_0)
            &&& k < end
            &&& tv[k] == TokenView::Close(ns[0]->Element_0)
            &&& siblings_at(tv, pos + 1, k, ns[0]->Element_1)
            &&& siblings_at(tv, k + 1, end, ns.subrange(1, ns.len() as int))
        },
{
    if ns.len() == 0 {
        assert(tv.subrange(pos, end).len() == 0);
        assert(end == pos);
    }
    let first = ns[0];
    let rest = ns.subrange(1, ns.len() as int);
    lemma_node_tokens_nonempty(first);
    let ft = node_tokens(first);
    let sub = tv.subrange(pos, end);
    assert(sub == ft + nodes_tokens(rest));
    assert(sub[0] == tv[pos]);
    assert(tv.subrange(pos + ft.len(), end) =~= nodes_tokens(rest)) by {
        assert forall|j: int| 0 <= j < nodes_tokens(rest).len() implies tv.subrange(
            pos + ft.len(),
            end,
        )[j] == nodes_tokens(rest)[j] by {
            assert(sub[ft.len() + j] == nodes_tokens(rest)[j]);
        }
    }
    match first {
        NodeView::Text(t) => {},
        NodeView::Element(name, kids) => {
            let kt = nodes_tokens(kids);
            let k = pos + 1 + kt.len();
            assert(ft == seq![TokenView::Open(name)] + kt + seq![TokenView::Close(name)]);
            assert(sub[1 + kt.len() as int] == ft[1 + kt.len() as int]);
            assert(tv.subrange(pos + 1, k) =~= kt) by {
                assert forall|j: int| 0 <= j < kt.len() implies tv.subrange(pos + 1, k)[j]
                    == kt[j] by {
                    assert(sub[1 + j] == ft[1 + j]);
                }
            }
        },
    }
}

/// Reads the siblings that start at `pos`, up to the end of the tokens or the first closing tag
/// that does not belong to one of them. Fails where an element is not closed by its own name.
fn parse_siblings(tokens: &Vec<XmlToken>, pos: usize) -> (r: Option<(Vec<XmlNode>, usize)>)
    requires
        pos <= tokens.len(),
    ensures
        r matches Some((ns, end)) ==> siblings_at(
            tokens_view(tokens@),
            pos as int,
            end as int,
            nodes_view(ns@),
        ),
        forall|ns: Seq<NodeView>, end: int|
            #![trigger siblings_at(tokens_view(tokens@), pos as int, end, ns)]
            siblings_at(tokens_view(tokens@), pos as int, end, ns) ==> (r matches Some((
                rn,
                re,
            )) && re == end && nodes_view(rn@) == ns),
    decreases tokens.len() - pos,
{
    let ghost tv = tokens_view(tokens@);
    assert(tv.len() == tokens.len());
    assert(tv.subrange(pos as int, pos as int) =~= nodes_tokens(Seq::<NodeView>::empty()));
    if pos == tokens.len() {
        proof {
            assert(siblings_at(tv, pos as int, pos as int, Seq::empty()));
            assert forall|ns: Seq<NodeView>, end: int|
                siblings_at(tv, pos as int, end, ns) implies end == pos && ns.len() == 0 by {
                if ns.len() > 0 {
                    lemma_node_tokens_nonempty(ns[0]);
                }
            }
        }
        let v: Vec<XmlNode> = Vec::new();
        assert(nodes_view(v@) =~= Seq::<NodeView>::empty());
        return Some((v, pos));
    }
    assert(tv[pos as int] == tokens@[pos as int]@);
    match &tokens[pos] {
        XmlToken::Close(_) => {
            let v: Vec<XmlNode> = Vec::new();
            proof {
                assert(nodes_view(v@) =~= Seq::<NodeView>::empty());
                assert(siblings_at(tv, pos as int, pos as int, Seq::empty()));
                assert forall|ns: Seq<NodeView>, end: int|
                    siblings_at(tv, pos as int, end, ns) implies end == pos && ns.len() == 0 by {
                    if ns.len() > 0 {
                        lemma_node_tokens_nonempty(ns[0]);
                        assert(tv.subrange(pos as int, end)[0] == tv[pos as int]);
                    }
                }
            }
            Some((v, pos))
        },
        XmlToken::Text(t) => {
            let rest = parse_siblings(tokens, pos + 1);
            match rest {
                None => {
                    proof {
                        assert forall|ns: Seq<NodeView>, end: int|
                            !siblings_at(tv, pos as int, end, ns) by {
                            if siblings_at(tv, pos as int, end, ns) {
                                lemma_siblings_split(tv, pos as int, end, ns);
                                lemma_node_tokens_nonempty(ns[0]);
                            }
                        }
                    }
                    None
                },
                Some((mut ns, end)) => {
                    let ghost old_ns = ns@;
                    let node = XmlNode::Text(t.clone());
                    ns.insert(0, node);
                    proof {
                        let nv = nodes_view(ns@);
                        assert(nv =~= seq![node_view(node)] + nodes_view(old_ns));
                        assert(nv.subrange(1, nv.len() as int) =~= nodes_view(old_ns));
                        assert(tv.subrange(pos as int, end as int) =~= seq![tv[pos as int]]
                            + tv.subrange(pos + 1, end as int));
                        assert(nodes_tokens(nv) =~= node_tokens(nv[0]) + nodes_tokens(
                            nodes_view(old_ns),
                        ));
                        assert(siblings_at(tv, pos as int, end as int, nv));
                        assert forall|ws: Seq<NodeView>, e: int|
                            siblings_at(tv, pos as int, e, ws) implies e == end && nv == ws by {
                            lemma_siblings_split(tv, pos as int, e, ws);
                            assert(siblings_at(
                                tv,
                                pos + 1,
                                e,
                                ws.subrange(1, ws.len() as int),
                            ));
                            assert(nv =~= ws);
                        }
                    }
                    Some((ns, end))
                },
            }
        },
        XmlToken::Open(name) => {
            let kids = parse_siblings(tokens, pos + 1);
            match kids {
                None => {
                    proof {
                        assert forall|ns: Seq<NodeView>, end: int|
                            !siblings_at(tv, pos as int, end, ns) by {
                            if siblings_at(tv, pos as int, end, ns) {
                                lemma_siblings_split(tv, pos as int, end, ns);
                                let k = pos + 1 + nodes_tokens(ns[0]->Element_1).len();
                                assert(siblings_at(tv, pos + 1, k, ns[0]->Element_1));
                            }
                        }
                    }
                    None
                },
                Some((kids, k)) => {
                    let closed = k < tokens.len() && match &tokens[k] {
                        XmlToken::Close(n2) => *n2 == *name,
                        _ => false,
                    };
                    if !closed {
                        proof {
                            assert forall|ns: Seq<NodeView>, end: int|
                                !siblings_at(tv, pos as int, end, ns) by {
                                if siblings_at(tv, pos as int, end, ns) {
                                    lemma_siblings_split(tv, pos as int, end, ns);
                                    let k2 = pos + 1 + nodes_tokens(ns[0]->Element_1).len();
                                    assert(siblings_at(tv, pos + 1, k2, ns[0]->Element_1));
                                    assert(tv[k as int] == tokens@[k as int]@);
                                }
                            }
                        }
                        return None;
                    }
                    let rest = parse_siblings(tokens, k + 1);
                    match rest {
                        None => {
                            proof {
                                assert forall|ns: Seq<NodeView>, end: int|
                                    !siblings_at(tv, pos as int, end, ns) by {
                                    if siblings_at(tv, pos as int, end, ns) {
                                        lemma_siblings_split(tv, pos as int, end, ns);
                                        let k2 = pos + 1 + nodes_tokens(ns[0]->Element_1).len();
                                        assert(siblings_at(tv, pos + 1, k2, ns[0]->Element_1));
                                        assert(siblings_at(
                                            tv,
                                            k + 1,
                                            end,
                                            ns.subrange(1, ns.len() as int),
                                        ));
                                    }
                                }
                            }
                            None
                        },
                        Some((mut ns, end)) => {
                            let ghost old_ns = ns@;
                            let ghost kv = nodes_view(kids@);
                            let node = XmlNode::Element { name: name.clone(), children: kids };
                            ns.insert(0, node);
                            proof {
                                assert(tv[k as int] == tokens@[k as int]@);
                                let nv = nodes_view(ns@);
                                assert(node_view(node) == NodeView::Element(name@, kv));
                                assert(nv =~= seq![node_view(node)] + nodes_view(old_ns));
                                assert(nv.subrange(1, nv.len() as int) =~= nodes_view(old_ns));
                                assert(tv.subrange(pos as int, end as int) =~= seq![
                                    tv[pos as int],
                                ] + tv.subrange(pos + 1, k as int) + seq![tv[k as int]]
                                    + tv.subrange(k + 1, end as int));
                                assert(nodes_tokens(nv) =~= node_tokens(nv[0]) + nodes_tokens(
                                    nodes_view(old_ns),
                                ));
                                assert(node_tokens(nv[0]) =~= seq![tv[pos as int]]
                                    + tv.subrange(pos + 1, k as int) + seq![tv[k as int]]);
                                assert(siblings_at(tv, pos as int, end as int, nv));
                                assert forall|ws: Seq<NodeView>, e: int|
                                    siblings_at(tv, pos as int, e, ws) implies e == end && nv
                                    == ws by {
                                    lemma_siblings_split(tv, pos as int, e, ws);
                                    let k2 = pos + 1 + nodes_tokens(ws[0]->Element_1).len();
                                    assert(siblings_at(tv, pos + 1, k2, ws[0]->Element_1));
                                    assert(siblings_at(
                                        tv,
                                        k + 1,
                                        e,
                                        ws.subrange(1, ws.len() as int),
                                    ));
                                    assert(nv =~= ws);
                                }
                            }
                            Some((ns, end))
                        },
                    }
                },
            }
        },
    }
}


/// `n` is an element whose tokens are exactly `tv`.
pub open spec fn is_document(tv: Seq<TokenView>, n: NodeView) -> bool {
    n is Element && node_tokens(n) == tv
}

/// Builds the tree of a whole document: the tokens must spell out exactly one element.
pub fn parse_document(tokens: &Vec<XmlToken>) -> (r: Option<XmlNode>)
    ensures
        r matches Some(n) ==> is_document(tokens_view(tokens@), node_view(n)),
        forall|n: NodeView|
            #![trigger is_document(tokens_view(tokens@), n)]
            is_document(tokens_view(tokens@), n) ==> (r matches Some(x) && node_view(x) == n),
{
    let ghost tv = tokens_view(tokens@);
    assert(tv.len() == tokens.len());
    assert(tv.subrange(0, tv.len() as int) =~= tv);
    assert forall|n: NodeView| is_document(tv, n) implies siblings_at(
        tv,
        0,
        tv.len() as int,
        seq![n],
    ) by {
        assert(seq![n].subrange(1, 1) =~= Seq::<NodeView>::empty());
        assert(nodes_tokens(Seq::<NodeView>::empty()) == Seq::<TokenView>::empty());
        assert(nodes_tokens(seq![n]) =~= node_tokens(n) + Seq::<TokenView>::empty());
        assert(nodes_tokens(seq![n]) =~= node_tokens(n));
    }
    match parse_siblings(tokens, 0) {
        None => None,
        Some((mut ns, end)) => {
            if end != tokens.len() || ns.len() != 1 {
                return None;
            }
            let ghost nv = nodes_view(ns@);
            let n = ns.remove(0);
            proof {
                assert(nv[0] == node_view(n));
                assert(nv.subrange(1, 1) =~= Seq::<NodeView>::empty());
                assert(nodes_tokens(Seq::<NodeView>::empty()) == Seq::<TokenView>::empty());
                assert(nodes_tokens(nv) =~= node_tokens(nv[0]) + Seq::<TokenView>::empty());
                assert(nodes_tokens(nv) =~= node_tokens(nv[0]));
            }
            match n {
                XmlNode::Element { .. } => Some(n),
                XmlNode::Text(_) => None,
            }
        },
    }
}

} // verus!
