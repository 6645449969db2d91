//! The decoded form of a WebDAV multistatus response.
use vstd::prelude::*;

verus! {

/// A property value whose shape is taken from the XML that the server sent.
#[derive(Debug, PartialEq, Eq)]
pub enum PropValue {
    /// The element was present with no content.
    Empty,
    /// The element held character data only.
    Text(String),
    /// The element held child elements, grouped by name in order of first appearance.
    Xml(Vec<PropEntry>),
}

/// All values that children with one name held, in document order.
#[derive(Debug, PartialEq, Eq)]
pub struct PropEntry {
    pub name: String,
    pub values: Vec<PropValue>,
}

/// The mathematical value of a [`PropValue`].
pub enum PropTree {
    Empty,
    Text(Seq<char>),
    Xml(Seq<(Seq<char>, Seq<PropTree>)>),
}

pub open spec fn value_view(v: PropValue) -> PropTree
    decreases v,
{
    match v {
        PropValue::Empty => PropTree::Empty,
        PropValue::Text(s) => PropTree::Text(s@),
        PropValue::Xml(es) => PropTree::Xml(entries_view(es@)),
    }
}

pub open spec fn values_view(vs: Seq<PropValue>) -> Seq<PropTree>
    decreases vs,
{
    Seq::new(
        vs.len(),
        |i: int|
            if 0 <= i < vs.len() {
                value_view(vs[i])
            } else {
                PropTree::Empty
            },
    )
}

pub open spec fn entries_view(es: Seq<PropEntry>) -> Seq<(Seq<char>, Seq<PropTree>)>
    decreases es,
{
    Seq::new(
        es.len(),
        |i: int|
            if 0 <= i < es.len() {
                (es[i].name@, values_view(es[i].values@))
            } else {
                (Seq::empty(), Seq::empty())
            },
    )
}

impl View for PropValue {
    type V = PropTree;

    open spec fn view(&self) -> PropTree {
        value_view(*self)
    }
}

impl PropValue {
    /// The text, where the value is text only.
    pub fn as_text(&self) -> (r: Option<&String>)
        ensures
            match self {
                PropValue::Text(t) => r matches Some(x) && x@ == t@,
                _ => r is None,
            },
    {
        match self {
            PropValue::Text(t) => Some(t),
            _ => None,
        }
    }

    /// The child elements grouped by name, where the value has any.
    pub fn as_xml(&self) -> (r: Option<&Vec<PropEntry>>)
        ensures
            match self {
                PropValue::Xml(es) => r matches Some(x) && x@ == es@,
                _ => r is None,
            },
    {
        match self {
            PropValue::Xml(es) => Some(es),
            _ => None,
        }
    }
}

/// The raw status line of a `propstat` block, such as `HTTP/1.1 200 OK`.
#[derive(Clone, Debug, PartialEq, Eq)]
pub struct Status(pub String);

/// The text holds a space directly followed by the digit `2`.
pub open spec fn has_space_two(s: Seq<char>) -> bool {
    exists|i: int| 0 <= i && i + 1 < s.len() && #[trigger] s[i] == ' ' && s[i + 1] == '2'
}

impl Status {
    /// A loose test for a 2xx status: the line holds `" 2"` anywhere.
    pub fn is_successful(&self) -> (r: bool)
        ensures
            r == has_space_two(self.0@),
    {
        let s = self.0.as_str();
        let n = s.unicode_len();
        if n < 2 {
            return false;
        }
        let mut i: usize = 0;
        while i < n - 1
            invariant
                n >= 2,
                i < n,
                n == s@.len(),
                s@ == self.0@,
                forall|j: int| 0 <= j < i ==> !(#[trigger] s@[j] == ' ' && s@[j + 1] == '2'),
            decreases n - i,
        {
            if s.get_char(i) == ' ' && s.get_char(i + 1) == '2' {
                return true;
            }
            i = i + 1;
        }
        false
    }
}

/// One `propstat` block: a status and the properties reported under it.
#[derive(Debug, PartialEq, Eq)]
pub struct PropStat {
    pub status: Status,
    /// Property values by local name; a name that occurs several times keeps all its values.
    pub prop: Vec<PropEntry>,
}

pub struct PropStatView {
    pub status: Seq<char>,
    pub prop: Seq<(Seq<char>, Seq<PropTree>)>,
}

impl View for PropStat {
    type V = PropStatView;

    open spec fn view(&self) -> PropStatView {
        PropStatView { status: self.status.0@, prop: entries_view(self.prop@) }
    }
}

/// No two entries share a name: each name stands for all the values given under it.
pub open spec fn unique_names(g: Seq<(Seq<char>, Seq<PropTree>)>) -> bool {
    forall|i: int, j: int| 0 <= i < j < g.len() ==> #[trigger] g[i].0 != #[trigger] g[j].0
}

/// Index of the first entry named `k`, or -1 where there is none.
pub open spec fn key_index(g: Seq<(Seq<char>, Seq<PropTree>)>, k: Seq<char>) -> int
    decreases g.len(),
{
    if g.len() == 0 {
        -1
    } else {
        let j = key_index(g.drop_last(), k);
        if j >= 0 {
            j
        } else if g.last().0 == k {
            g.len() - 1
        } else {
            -1
        }
    }
}

/// The first value under name `name`.
pub open spec fn prop_get(g: Seq<(Seq<char>, Seq<PropTree>)>, name: Seq<char>) -> Option<PropTree> {
    let i = key_index(g, name);
    if i >= 0 && g[i].1.len() > 0 {
        Some(g[i].1[0])
    } else {
        None
    }
}

/// The entry named `name`.
pub fn find_entry<'a>(es: &'a Vec<PropEntry>, name: &str) -> (r: Option<&'a PropEntry>)
    ensures
        ({
            let g = entries_view(es@);
            let i = key_index(g, name@);
            &&& i < 0 ==> r is None
            &&& i >= 0 ==> (r matches Some(e) && e.name@ == name@ && values_view(e.values@)
                == g[i].1)
        }),
{
    let ghost g = entries_view(es@);
    let mut j: usize = 0;
    while j < es.len()
        invariant
            g == entries_view(es@),
            j <= es.len(),
            key_index(g.subrange(0, j as int), name@) == -1,
        decreases es.len() - j,
    {
        let e = &es[j];
        proof {
            assert(g.subrange(0, j + 1).drop_last() =~= g.subrange(0, j as int));
            assert(g[j as int].0 == e.name@);
        }
        if crate::text::same_text(e.name.as_str(), name) {
            assert(key_index(g.subrange(0, j + 1), name@) == j);
            proof {
                lemma_key_index_prefix(g, j + 1, name@);
            }
            return Some(e);
        }
        j = j + 1;
    }
    assert(g.subrange(0, j as int) =~= g);
    None
}

impl PropStat {
    /// The first value reported for the property with local name `name`.
    pub fn get(&self, name: &str) -> (r: Option<&PropValue>)
        ensures
            match prop_get(entries_view(self.prop@), name@) {
                Some(t) => r matches Some(v) && v@ == t,
                None => r is None,
            },
    {
        match find_entry(&self.prop, name) {
            None => None,
            Some(e) => {
                if e.values.len() == 0 {
                    None
                } else {
                    assert(values_view(e.values@)[0] == e.values@[0]@);
                    Some(&e.values[0])
                }
            },
        }
    }
}

/// `key_index` finds an entry of that name exactly when there is one.
pub proof fn lemma_key_index(g: Seq<(Seq<char>, Seq<PropTree>)>, k: Seq<char>)
    ensures
        -1 <= key_index(g, k) < g.len(),
        key_index(g, k) >= 0 ==> g[key_index(g, k)].0 == k,
        key_index(g, k) < 0 ==> forall|i: int| 0 <= i < g.len() ==> #[trigger] g[i].0 != k,
    decreases g.len(),
{
    if g.len() > 0 {
        lemma_key_index(g.drop_last(), k);
        assert forall|i: int| 0 <= i < g.len() - 1 implies #[trigger] g[i] == g.drop_last()[i] by {}
    }
}

/// A first match in a prefix stays the first match in the whole sequence.
pub proof fn lemma_key_index_prefix(g: Seq<(Seq<char>, Seq<PropTree>)>, n: int, k: Seq<char>)
    requires
        0 <= n <= g.len(),
        key_index(g.subrange(0, n), k) >= 0,
    ensures
        key_index(g, k) == key_index(g.subrange(0, n), k),
    decreases g.len() - n,
{
    if n < g.len() {
        assert(g.subrange(0, n + 1).drop_last() =~= g.subrange(0, n));
        lemma_key_index_prefix(g, n + 1, k);
    } else {
        assert(g.subrange(0, n) =~= g);
    }
}

/// One `response` entry: the resource and its `propstat` blocks in document order.
#[derive(Debug, PartialEq, Eq)]
pub struct Response {
    pub href: String,
    pub propstat: Vec<PropStat>,
}

pub struct ResponseView {
    pub href: Seq<char>,
    pub propstat: Seq<PropStatView>,
}

impl View for Response {
    type V = ResponseView;

    open spec fn view(&self) -> ResponseView {
        ResponseView { href: self.href@, propstat: self.propstat@.map_values(|p: PropStat| p@) }
    }
}

/// The decoded result of one PROPFIND call.
#[derive(Debug, PartialEq, Eq)]
pub struct MultiStatus {
    pub responses: Vec<Response>,
}

impl View for MultiStatus {
    type V = Seq<ResponseView>;

    open spec fn view(&self) -> Seq<ResponseView> {
        self.responses@.map_values(|r: Response| r@)
    }
}

} // verus!
