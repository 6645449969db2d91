//! Decoding of a multistatus document, and of property values whose shape is not known in advance.
use quick_xml::Error as XmlError;
use vstd::prelude::*;
use crate::webdav_types::{
    lemma_key_index, unique_names,
    entries_view, key_index, lemma_key_index_prefix, values_view, MultiStatus,
    PropEntry, PropStat, PropStatView, PropTree, PropValue, Response, ResponseView, Status,
};
use crate::xml::{
    is_document, node_view, nodes_view, parse_document, tokens_view, NodeView, XmlNode, XmlToken,
};

verus! {

/// Why a response body could not be decoded.
#[derive(Debug)]
pub enum DecodeError {
    /// The XML reader rejected the text.
    Syntax(XmlError),
    /// The text is not exactly one element with properly nested children.
    NotATree,
    /// The document is not a multistatus: its root, an `href`, a `status` or a `prop` is
    /// missing, or one of them holds what it may not.
    Shape,
}

pub open spec fn has_element(cs: Seq<NodeView>) -> bool {
    exists|i: int| 0 <= i < cs.len() && #[trigger] cs[i] is Element
}

pub open spec fn has_text(cs: Seq<NodeView>) -> bool {
    exists|i: int| 0 <= i < cs.len() && #[trigger] cs[i] is Text
}

/// All character data among `cs`, joined in order.
pub open spec fn text_of(cs: Seq<NodeView>) -> Seq<char>
    decreases cs.len(),
{
    if cs.len() == 0 {
        Seq::empty()
    } else {
        text_of(cs.drop_last()) + match cs.last() {
            NodeView::Text(t) => t,
            NodeView::Element(_, _) => Seq::empty(),
        }
    }
}

/// The last piece of character data among `cs`.
pub open spec fn last_text(cs: Seq<NodeView>) -> Seq<char>
    decreases cs.len(),
{
    if cs.len() == 0 {
        Seq::empty()
    } else {
        match cs.last() {
            NodeView::Text(t) => t,
            NodeView::Element(_, _) => last_text(cs.drop_last()),
        }
    }
}

/// The value that an element with content `cs` stands for: nothing at all is `Empty`; character
/// data alone is `Text`; child elements are grouped by name, except that stray character data
/// among them makes the value its last piece of text.
pub open spec fn content_value(cs: Seq<NodeView>) -> PropTree
    decreases cs, 1int,
{
    if cs.len() == 0 {
        PropTree::Empty
    } else if !has_element(cs) {
        PropTree::Text(text_of(cs))
    } else if has_text(cs) {
        PropTree::Text(last_text(cs))
    } else {
        PropTree::Xml(group(cs))
    }
}

/// An element with no content at all is `Empty`.
pub proof fn lemma_empty_content()
    ensures
        content_value(Seq::<NodeView>::empty()) == PropTree::Empty,
{
}

/// An element that holds only the character data `t` is `Text(t)`.
pub proof fn lemma_text_content(t: Seq<char>)
    ensures
        content_value(seq![NodeView::Text(t)]) == PropTree::Text(t),
{
    let cs = seq![NodeView::Text(t)];
    assert(!has_element(cs));
    assert(cs.drop_last() =~= Seq::<NodeView>::empty());
    assert(text_of(cs) =~= text_of(Seq::<NodeView>::empty()) + t);
}

/// An element that holds two children of the same name, and nothing else, is one entry of that
/// name with the two values in order.
pub proof fn lemma_repeated_children(n: Seq<char>, a: Seq<NodeView>, b: Seq<NodeView>)
    ensures
        content_value(seq![NodeView::Element(n, a), NodeView::Element(n, b)]) == PropTree::Xml(
            seq![(n, seq![content_value(a), content_value(b)])],
        ),
{
    let cs = seq![NodeView::Element(n, a), NodeView::Element(n, b)];
    assert(cs[0] is Element);
    assert(!has_text(cs)) by {
        assert forall|i: int| 0 <= i < cs.len() implies !(#[trigger] cs[i] is Text) by {}
    }
    let first = cs.drop_last();
    assert(first =~= seq![NodeView::Element(n, a)]);
    assert(first.drop_last() =~= Seq::<NodeView>::empty());
    let g1 = group(first);
    assert(first.last() == NodeView::Element(n, a));
    assert(group(Seq::<NodeView>::empty()) == Seq::<(Seq<char>, Seq<PropTree>)>::empty());
    assert(g1 == add_entry(Seq::empty(), n, content_value(a)));
    assert(key_index(Seq::<(Seq<char>, Seq<PropTree>)>::empty(), n) == -1);
    assert(g1 =~= seq![(n, seq![content_value(a)])]);
    let small = seq![(n, seq![content_value(a)])];
    assert(small.drop_last() =~= Seq::<(Seq<char>, Seq<PropTree>)>::empty());
    assert(key_index(small, n) == 0);
    assert(group(cs) == add_entry(g1, n, content_value(b)));
    assert(seq![content_value(a)].push(content_value(b)) =~= seq![content_value(a), content_value(b)]);
    assert(group(cs) =~= seq![(n, seq![content_value(a), content_value(b)])]);
}

/// Adds `v` under name `k`: to the entry of that name where there is one, else as a new entry.
pub open spec fn add_entry(
    g: Seq<(Seq<char>, Seq<PropTree>)>,
    k: Seq<char>,
    v: PropTree,
) -> Seq<(Seq<char>, Seq<PropTree>)> {
    let i = key_index(g, k);
    if i < 0 {
        g.push((k, seq![v]))
    } else {
        g.update(i, (k, g[i].1.push(v)))
    }
}

/// The child elements among `cs`, grouped by name in order of first appearance, each with the
/// values of its elements in document order. Character data is left out.
pub open spec fn group(cs: Seq<NodeView>) -> Seq<(Seq<char>, Seq<PropTree>)>
    decreases cs, 0int,
{
    if cs.len() == 0 {
        Seq::empty()
    } else {
        match cs.last() {
            NodeView::Text(_) => group(cs.drop_last()),
            NodeView::Element(name, kids) => add_entry(
                group(cs.drop_last()),
                name,
                content_value(kids),
            ),
        }
    }
}


/// Adding a value keeps names unique.
pub proof fn lemma_add_entry_unique(g: Seq<(Seq<char>, Seq<PropTree>)>, k: Seq<char>, v: PropTree)
    requires
        unique_names(g),
    ensures
        unique_names(add_entry(g, k, v)),
{
    lemma_key_index(g, k);
    let r = add_entry(g, k, v);
    assert forall|i: int, j: int| 0 <= i < j < r.len() implies #[trigger] r[i].0 != #[trigger] r[j].0 by {
        if key_index(g, k) >= 0 {
            assert(r[i].0 == g[i].0 && r[j].0 == g[j].0);
        } else if j == g.len() {
            assert(r[i].0 == g[i].0);
        } else {
            assert(r[i].0 == g[i].0 && r[j].0 == g[j].0);
        }
    }
}

/// Grouping gives each name once.
pub proof fn lemma_group_unique(cs: Seq<NodeView>)
    ensures
        unique_names(group(cs)),
    decreases cs.len(),
{
    if cs.len() > 0 {
        lemma_group_unique(cs.drop_last());
        if let NodeView::Element(name, kids) = cs.last() {
            lemma_add_entry_unique(group(cs.drop_last()), name, content_value(kids));
        }
    }
}

/// Joins all character data among the nodes.
fn join_text(cs: &Vec<XmlNode>) -> (r: String)
    ensures
        r@ == text_of(nodes_view(cs@)),
{
    let ghost nv = nodes_view(cs@);
    let mut out = String::new();
    let mut i: usize = 0;
    while i < cs.len()
        invariant
            nv == nodes_view(cs@),
            i <= cs.len(),
            out@ == text_of(nv.subrange(0, i as int)),
        decreases cs.len() - i,
    {
        assert(nv.subrange(0, i + 1).drop_last() =~= nv.subrange(0, i as int));
        match &cs[i] {
            XmlNode::Text(t) => {
                out.append(t.as_str());
            },
            XmlNode::Element { .. } => {
                assert(out@ =~= out@ + Seq::<char>::empty());
            },
        }
        i = i + 1;
    }
    assert(nv.subrange(0, i as int) =~= nv);
    out
}

/// The last piece of character data among the nodes.
fn last_text_of(cs: &Vec<XmlNode>) -> (r: String)
    ensures
        r@ == last_text(nodes_view(cs@)),
{
    let ghost nv = nodes_view(cs@);
    let mut out = String::new();
    let mut i: usize = 0;
    while i < cs.len()
        invariant
            nv == nodes_view(cs@),
            i <= cs.len(),
            out@ == last_text(nv.subrange(0, i as int)),
        decreases cs.len() - i,
    {
        assert(nv.subrange(0, i + 1).drop_last() =~= nv.subrange(0, i as int));
        match &cs[i] {
            XmlNode::Text(t) => {
                out = t.clone();
            },
            XmlNode::Element { .. } => {},
        }
        i = i + 1;
    }
    assert(nv.subrange(0, i as int) =~= nv);
    out
}

/// Adds `v` under name `k`, keeping names unique and values in order.
fn add_value(g: &mut Vec<PropEntry>, k: &String, v: PropValue)
    ensures
        entries_view(final(g)@) == add_entry(entries_view(old(g)@), k@, v@),
{
    let ghost gv = entries_view(g@);
    let mut j: usize = 0;
    while j < g.len()
        invariant
            gv == entries_view(g@),
            g@ == old(g)@,
            j <= g.len(),
            key_index(gv.subrange(0, j as int), k@) == -1,
        decreases g.len() - j,
    {
        assert(gv.subrange(0, j + 1).drop_last() =~= gv.subrange(0, j as int));
        assert(gv[j as int].0 == g@[j as int].name@);
        if g[j].name == *k {
            assert(key_index(gv.subrange(0, j + 1), k@) == j);
            proof {
                lemma_key_index_prefix(gv, j + 1, k@);
            }
            let ghost old_vals = g@[j as int].values@;
            let ghost vv = v@;
            assert(key_index(gv, k@) == j);
            assert(gv[j as int].1 == values_view(old_vals));
            let mut e = g.remove(j);
            e.values.push(v);
            g.insert(j, e);
            proof {
                assert(e.values@ == old_vals.push(v));
                assert(values_view(old_vals.push(v)) =~= values_view(old_vals).push(vv));
                assert(entries_view(g@) =~= gv.update(j as int, (k@, gv[j as int].1.push(vv))));
                assert(add_entry(gv, k@, vv) == gv.update(j as int, (k@, gv[j as int].1.push(vv))));
            }
            return;
        }
        j = j + 1;
    }
    assert(gv.subrange(0, j as int) =~= gv);
    let mut values: Vec<PropValue> = Vec::new();
    values.push(v);
    let ghost vals = values@;
    g.push(PropEntry { name: k.clone(), values });
    proof {
        assert(values_view(vals) =~= seq![v@]);
        assert(entries_view(g@) =~= gv.push((k@, seq![v@])));
    }
}

/// Decodes the content of one element into a property value, from the shape that it has.
pub fn decode_content(cs: &Vec<XmlNode>) -> (r: PropValue)
    ensures
        r@ == content_value(nodes_view(cs@)),
        r@ matches PropTree::Xml(es) ==> unique_names(es),
    decreases cs@, 1int,
{
    let ghost nv = nodes_view(cs@);
    if cs.len() == 0 {
        return PropValue::Empty;
    }
    let mut has_el = false;
    let mut has_tx = false;
    let mut i: usize = 0;
    while i < cs.len()
        invariant
            nv == nodes_view(cs@),
            i <= cs.len(),
            has_el == (exists|j: int| 0 <= j < i && #[trigger] nv[j] is Element),
            has_tx == (exists|j: int| 0 <= j < i && #[trigger] nv[j] is Text),
        decreases cs.len() - i,
    {
        match &cs[i] {
            XmlNode::Element { .. } => {
                has_el = true;
            },
            XmlNode::Text(_) => {
                has_tx = true;
            },
        }
        assert(nv[i as int] is Element <==> cs@[i as int] is Element);
        i = i + 1;
    }
    if !has_el {
        PropValue::Text(join_text(cs))
    } else if has_tx {
        PropValue::Text(last_text_of(cs))
    } else {
        PropValue::Xml(group_children(cs))
    }
}

/// Groups the child elements among the nodes by name, decoding the value of each.
pub fn group_children(cs: &Vec<XmlNode>) -> (r: Vec<PropEntry>)
    ensures
        entries_view(r@) == group(nodes_view(cs@)),
        unique_names(entries_view(r@)),
    decreases cs@, 0int,
{
    proof {
        lemma_group_unique(nodes_view(cs@));
    }
    let ghost nv = nodes_view(cs@);
    let mut g: Vec<PropEntry> = Vec::new();
    let mut i: usize = 0;
    assert(entries_view(g@) =~= group(nv.subrange(0, 0)));
    while i < cs.len()
        invariant
            nv == nodes_view(cs@),
            i <= cs.len(),
            entries_view(g@) == group(nv.subrange(0, i as int)),
        decreases cs.len() - i,
    {
        assert(nv.subrange(0, i + 1).drop_last() =~= nv.subrange(0, i as int));
        match &cs[i] {
            XmlNode::Text(_) => {},
            XmlNode::Element { name, children } => {
                assert(decreases_to!(cs@ => cs@[i as int]));
                let v = decode_content(children);
                add_value(&mut g, name, v);
            },
        }
        i = i + 1;
    }
    assert(nv.subrange(0, i as int) =~= nv);
    g
}


/// The content of the first child element named `name`.
pub open spec fn first_named(cs: Seq<NodeView>, name: Seq<char>) -> Option<Seq<NodeView>>
    decreases cs.len(),
{
    if cs.len() == 0 {
        None
    } else {
        let p = first_named(cs.drop_last(), name);
        if p is Some {
            p
        } else {
            match cs.last() {
                NodeView::Element(n, kids) => if n == name {
                    Some(kids)
                } else {
                    None
                },
                NodeView::Text(_) => None,
            }
        }
    }
}

/// The text of the first child element named `name`, where that element holds no elements.
pub open spec fn text_field(cs: Seq<NodeView>, name: Seq<char>) -> Option<Seq<char>> {
    match first_named(cs, name) {
        Some(kids) => if has_element(kids) {
            None
        } else {
            Some(text_of(kids))
        },
        None => None,
    }
}

/// A `propstat` block: it needs a textual `status` and a `prop` element.
pub open spec fn propstat_of(cs: Seq<NodeView>) -> Option<PropStatView> {
    match (text_field(cs, "status"@), first_named(cs, "prop"@)) {
        (Some(s), Some(p)) => Some(PropStatView { status: s, prop: group(p) }),
        _ => None,
    }
}

/// All `propstat` blocks among `cs`, in order; none if one of them is malformed.
pub open spec fn propstats_of(cs: Seq<NodeView>) -> Option<Seq<PropStatView>>
    decreases cs.len(),
{
    if cs.len() == 0 {
        Some(Seq::empty())
    } else {
        let acc = propstats_of(cs.drop_last());
        match cs.last() {
            NodeView::Element(n, kids) => if n == "propstat"@ {
                match (acc, propstat_of(kids)) {
                    (Some(a), Some(p)) => Some(a.push(p)),
                    _ => None,
                }
            } else {
                acc
            },
            NodeView::Text(_) => acc,
        }
    }
}

/// A `response` entry: it needs a textual `href`; its `propstat` blocks may be absent.
pub open spec fn response_of(cs: Seq<NodeView>) -> Option<ResponseView> {
    match (text_field(cs, "href"@), propstats_of(cs)) {
        (Some(h), Some(ps)) => Some(ResponseView { href: h, propstat: ps }),
        _ => None,
    }
}

/// All `response` entries among `cs`, in order; none if one of them is malformed.
pub open spec fn responses_of(cs: Seq<NodeView>) -> Option<Seq<ResponseView>>
    decreases cs.len(),
{
    if cs.len() == 0 {
        Some(Seq::empty())
    } else {
        let acc = responses_of(cs.drop_last());
        match cs.last() {
            NodeView::Element(n, kids) => if n == "response"@ {
                match (acc, response_of(kids)) {
                    (Some(a), Some(r)) => Some(a.push(r)),
                    _ => None,
                }
            } else {
                acc
            },
            NodeView::Text(_) => acc,
        }
    }
}

/// The responses of a document whose root is a `multistatus` element.
pub open spec fn multistatus_of(root: NodeView) -> Option<Seq<ResponseView>> {
    match root {
        NodeView::Element(n, cs) => if n == "multistatus"@ {
            responses_of(cs)
        } else {
            None
        },
        NodeView::Text(_) => None,
    }
}

/// Whether one of the nodes is an element.
fn has_child_element(cs: &Vec<XmlNode>) -> (r: bool)
    ensures
        r == has_element(nodes_view(cs@)),
{
    let ghost nv = nodes_view(cs@);
    let mut i: usize = 0;
    while i < cs.len()
        invariant
            nv == nodes_view(cs@),
            i <= cs.len(),
            forall|j: int| 0 <= j < i ==> !(#[trigger] nv[j] is Element),
        decreases cs.len() - i,
    {
        assert(nv[i as int] is Element <==> cs@[i as int] is Element);
        if let XmlNode::Element { .. } = &cs[i] {
            return true;
        }
        i = i + 1;
    }
    false
}

/// The content of the first child element named `name`.
fn find_named<'a>(cs: &'a Vec<XmlNode>, name: &str) -> (r: Option<&'a Vec<XmlNode>>)
    ensures
        match first_named(nodes_view(cs@), name@) {
            Some(kids) => r matches Some(k) && nodes_view(k@) == kids,
            None => r is None,
        },
{
    let ghost nv = nodes_view(cs@);
    let mut i: usize = 0;
    while i < cs.len()
        invariant
            nv == nodes_view(cs@),
            i <= cs.len(),
            first_named(nv.subrange(0, i as int), name@) is None,
        decreases cs.len() - i,
    {
        assert(nv.subrange(0, i + 1).drop_last() =~= nv.subrange(0, i as int));
        if let XmlNode::Element { name: n, children } = &cs[i] {
            if crate::text::same_text(n.as_str(), name) {
                proof {
                    lemma_first_named_prefix(nv, i + 1, name@);
                }
                return Some(children);
            }
        }
        i = i + 1;
    }
    assert(nv.subrange(0, i as int) =~= nv);
    None
}

/// A match found in a prefix is the first match in the whole sequence.
proof fn lemma_first_named_prefix(cs: Seq<NodeView>, n: int, name: Seq<char>)
    requires
        0 <= n <= cs.len(),
        first_named(cs.subrange(0, n), name) is Some,
    ensures
        first_named(cs, name) == first_named(cs.subrange(0, n), name),
    decreases cs.len() - n,
{
    if n < cs.len() {
        assert(cs.subrange(0, n + 1).drop_last() =~= cs.subrange(0, n));
        lemma_first_named_prefix(cs, n + 1, name);
    } else {
        assert(cs.subrange(0, n) =~= cs);
    }
}

/// The text of the first child element named `name`.
fn find_text(cs: &Vec<XmlNode>, name: &str) -> (r: Option<String>)
    ensures
        match text_field(nodes_view(cs@), name@) {
            Some(t) => r matches Some(s) && s@ == t,
            None => r is None,
        },
{
    match find_named(cs, name) {
        None => None,
        Some(kids) => if has_child_element(kids) {
            None
        } else {
            Some(join_text(kids))
        },
    }
}

/// Decodes the content of a `propstat` element.
fn decode_propstat(cs: &Vec<XmlNode>) -> (r: Option<PropStat>)
    ensures
        match propstat_of(nodes_view(cs@)) {
            Some(p) => r matches Some(x) && x@ == p,
            None => r is None,
        },
{
    let status = find_text(cs, "status");
    let prop = find_named(cs, "prop");
    match (status, prop) {
        (Some(s), Some(p)) => Some(PropStat { status: Status(s), prop: group_children(p) }),
        _ => None,
    }
}

/// Decodes the content of a `response` element.
fn decode_response(cs: &Vec<XmlNode>) -> (r: Option<Response>)
    ensures
        match response_of(nodes_view(cs@)) {
            Some(v) => r matches Some(x) && x@ == v,
            None => r is None,
        },
{
    let ghost nv = nodes_view(cs@);
    let v0: Vec<PropStat> = Vec::new();
    assert(v0@.map_values(|p: PropStat| p@) =~= Seq::<PropStatView>::empty());
    assert(nv.subrange(0, 0) =~= Seq::<NodeView>::empty());
    let mut acc: Option<Vec<PropStat>> = Some(v0);
    let mut i: usize = 0;
    while i < cs.len()
        invariant
            nv == nodes_view(cs@),
            i <= cs.len(),
            match propstats_of(nv.subrange(0, i as int)) {
                Some(ps) => acc matches Some(a) && a@.map_values(|p: PropStat| p@) == ps,
                None => acc is None,
            },
        decreases cs.len() - i,
    {
        assert(nv.subrange(0, i + 1).drop_last() =~= nv.subrange(0, i as int));
        if let XmlNode::Element { name, children } = &cs[i] {
            if crate::text::same_text(name.as_str(), "propstat") {
                let p = decode_propstat(children);
                acc = match (acc, p) {
                    (Some(mut a), Some(p)) => {
                        let ghost before = a@;
                        a.push(p);
                        assert(a@.map_values(|p: PropStat| p@) =~= before.map_values(
                            |p: PropStat| p@,
                        ).push(p@));
                        Some(a)
                    },
                    _ => None,
                };
            }
        }
        i = i + 1;
    }
    assert(nv.subrange(0, i as int) =~= nv);
    let href = find_text(cs, "href");
    match (href, acc) {
        (Some(h), Some(a)) => Some(Response { href: h, propstat: a }),
        _ => None,
    }
}

/// Decodes a whole multistatus document from its root element.
pub fn decode_multistatus(root: &XmlNode) -> (r: Option<MultiStatus>)
    ensures
        match multistatus_of(node_view(*root)) {
            Some(v) => r matches Some(m) && m@ == v,
            None => r is None,
        },
{
    match root {
        XmlNode::Text(_) => None,
        XmlNode::Element { name, children } => {
            if !crate::text::same_text(name.as_str(), "multistatus") {
                return None;
            }
            let cs = children;
            let ghost nv = nodes_view(cs@);
            let v0: Vec<Response> = Vec::new();
            assert(v0@.map_values(|r: Response| r@) =~= Seq::<ResponseView>::empty());
            assert(nv.subrange(0, 0) =~= Seq::<NodeView>::empty());
            let mut acc: Option<Vec<Response>> = Some(v0);
            let mut i: usize = 0;
            while i < cs.len()
                invariant
                    nv == nodes_view(cs@),
                    i <= cs.len(),
                    match responses_of(nv.subrange(0, i as int)) {
                        Some(rs) => acc matches Some(a) && a@.map_values(|r: Response| r@) == rs,
                        None => acc is None,
                    },
                decreases cs.len() - i,
            {
                assert(nv.subrange(0, i + 1).drop_last() =~= nv.subrange(0, i as int));
                if let XmlNode::Element { name, children } = &cs[i] {
                    if crate::text::same_text(name.as_str(), "response") {
                        let x = decode_response(children);
                        acc = match (acc, x) {
                            (Some(mut a), Some(x)) => {
                                let ghost before = a@;
                                a.push(x);
                                assert(a@.map_values(|r: Response| r@) =~= before.map_values(
                                    |r: Response| r@,
                                ).push(x@));
                                Some(a)
                            },
                            _ => None,
                        };
                    }
                }
                i = i + 1;
            }
            assert(nv.subrange(0, i as int) =~= nv);
            match acc {
                Some(a) => Some(MultiStatus { responses: a }),
                None => None,
            }
        },
    }
}


/// Decodes a multistatus document from its tokens.
pub fn decode_tokens(tokens: &Vec<XmlToken>) -> (r: Result<MultiStatus, DecodeError>)
    ensures
        (forall|n: NodeView| !is_document(tokens_view(tokens@), n)) ==> (r matches Err(
            DecodeError::NotATree,
        )),
        forall|n: NodeView|
            #![trigger is_document(tokens_view(tokens@), n)]
            is_document(tokens_view(tokens@), n) ==> match multistatus_of(n) {
                Some(v) => r matches Ok(m) && m@ == v,
                None => r matches Err(DecodeError::Shape),
            },
{
    match parse_document(tokens) {
        None => Err(DecodeError::NotATree),
        Some(root) => match decode_multistatus(&root) {
            Some(m) => Ok(m),
            None => Err(DecodeError::Shape),
        },
    }
}

/// Decodes the content of the one element that the tokens spell out as a property value.
pub fn decode_value_tokens(tokens: &Vec<XmlToken>) -> (r: Result<PropValue, DecodeError>)
    ensures
        (forall|n: NodeView| !is_document(tokens_view(tokens@), n)) ==> (r matches Err(
            DecodeError::NotATree,
        )),
        forall|n: NodeView|
            #![trigger is_document(tokens_view(tokens@), n)]
            is_document(tokens_view(tokens@), n) ==> (r matches Ok(v) && v@ == content_value(
                n->Element_1,
            )),
{
    match parse_document(tokens) {
        Some(XmlNode::Element { children, .. }) => Ok(decode_content(&children)),
        _ => Err(DecodeError::NotATree),
    }
}

} // verus!
