//! XML documents read as trees (with roxmltree), flattened into a list of
//! nodes in document order, and the lookups the control plane makes in them.

use vstd::prelude::*;

use crate::text::{str_eq, trim, trim_spec};

verus! {

broadcast use vstd::seq_lib::group_seq_properties;

/// One node of a parsed document.
#[derive(Debug)]
pub struct XmlNode {
    /// The node's id in its document.
    pub id: usize,
    /// The id of its parent, if it has one.
    pub parent: Option<usize>,
    /// The id of its last descendant (its own id when it has none): its
    /// descendants are the nodes whose ids run from its own to this one.
    pub last: usize,
    /// Whether it is an element.
    pub is_element: bool,
    /// Its local name (empty for nodes without a name).
    pub name: String,
    /// Its namespace URI, if it has one.
    pub namespace: Option<String>,
    /// Its text: for an element, that of its first child when that child is
    /// text; for a text or comment node, its own text.
    pub text: Option<String>,
}

/// The abstract content of a node.
pub struct NodeView {
    pub id: nat,
    pub parent: Option<nat>,
    pub last: nat,
    pub is_element: bool,
    pub name: Seq<char>,
    pub namespace: Option<Seq<char>>,
    pub text: Option<Seq<char>>,
}

/// The view of an optional string.
pub open spec fn opt_view(o: Option<String>) -> Option<Seq<char>> {
    match o {
        Some(s) => Some(s@),
        None => None,
    }
}

impl View for XmlNode {
    type V = NodeView;

    open spec fn view(&self) -> NodeView {
        NodeView {
            id: self.id as nat,
            parent: match self.parent {
                Some(p) => Some(p as nat),
                None => None,
            },
            last: self.last as nat,
            is_element: self.is_element,
            name: self.name@,
            namespace: opt_view(self.namespace),
            text: opt_view(self.text),
        }
    }
}

/// The views of a list of nodes.
pub open spec fn nodes_view(v: Seq<XmlNode>) -> Seq<NodeView> {
    v.map_values(|n: XmlNode| n@)
}

/// The nodes roxmltree reads from a document, in document order starting
/// with the root, or its error message.
pub uninterp spec fn document_nodes(xml: Seq<char>) -> Result<Seq<NodeView>, Seq<char>>;

/// Parse a document with `roxmltree::Document::parse` and list its nodes
/// (`descendants` of the root) with their ids, parents, last descendants,
/// names, namespaces and texts. The contract names the result: it depends on the text alone.
#[verifier::external_body]
pub(crate) fn parse_document(xml: &str) -> (r: Result<Vec<XmlNode>, String>)
    ensures
        match r {
            Ok(v) => document_nodes(xml@) == Ok::<Seq<NodeView>, Seq<char>>(nodes_view(v@)),
            Err(e) => document_nodes(xml@) == Err::<Seq<NodeView>, Seq<char>>(e@),
        },
{
    let doc = roxmltree::Document::parse(xml).map_err(|e| e.to_string())?;
    Ok(doc.descendants().map(|n| XmlNode {
        id: n.id().get_usize(),
        parent: n.parent().map(|p| p.id().get_usize()),
        last: n.descendants().last().map_or(0, |d| d.id().get_usize()),
        is_element: n.is_element(),
        name: n.tag_name().name().to_owned(),
        namespace: n.tag_name().namespace().map(str::to_owned),
        text: n.text().map(str::to_owned),
    }).collect())
}

/// Whether node `i` is an element with this local name.
pub open spec fn is_named(nodes: Seq<NodeView>, i: int, name: Seq<char>) -> bool {
    nodes[i].is_element && nodes[i].name == name
}

/// The first element in document order with this local name.
pub open spec fn first_named(nodes: Seq<NodeView>, name: Seq<char>) -> Option<int> {
    if exists|i: int| 0 <= i < nodes.len() && is_named(nodes, i, name) {
        Some(
            choose|i: int|
                0 <= i < nodes.len() && is_named(nodes, i, name) && forall|j: int|
                    0 <= j < i ==> !is_named(nodes, j, name),
        )
    } else {
        None
    }
}

proof fn lemma_first_named(nodes: Seq<NodeView>, name: Seq<char>, i: int)
    requires
        0 <= i < nodes.len(),
        is_named(nodes, i, name),
        forall|j: int| 0 <= j < i ==> !is_named(nodes, j, name),
    ensures
        first_named(nodes, name) == Some(i),
{
    let k = choose|k: int|
        0 <= k < nodes.len() && is_named(nodes, k, name) && forall|j: int|
            0 <= j < k ==> !is_named(nodes, j, name);
    if k < i {
        assert(!is_named(nodes, k, name));
    }
    if i < k {
        assert(!is_named(nodes, i, name));
    }
}

/// Find the first element with a local name, in document order.
pub fn find_named(nodes: &Vec<XmlNode>, name: &str) -> (r: Option<usize>)
    ensures
        match r {
            Some(i) => i < nodes@.len() && first_named(nodes_view(nodes@), name@) == Some(i as int),
            None => first_named(nodes_view(nodes@), name@) is None,
        },
{
    let ghost v = nodes_view(nodes@);
    let mut i: usize = 0;
    while i < nodes.len()
        invariant
            i <= nodes@.len(),
            v == nodes_view(nodes@),
            forall|j: int| 0 <= j < i ==> !is_named(v, j, name@),
        decreases nodes.len() - i,
    {
        if nodes[i].is_element && str_eq(nodes[i].name.as_str(), name) {
            proof {
                lemma_first_named(v, name@, i as int);
            }
            return Some(i);
        }
        i = i + 1;
    }
    None
}

/// Whether node `j` is an element child of the node with id `parent`.
pub open spec fn is_child_element(nodes: Seq<NodeView>, j: int, parent: nat) -> bool {
    nodes[j].is_element && nodes[j].parent == Some(parent)
}

/// The element children of the node with id `parent`, by position, in
/// document order.
pub open spec fn child_elements(nodes: Seq<NodeView>, parent: nat) -> Seq<int> {
    Seq::new(nodes.len(), |j: int| j).filter(|j: int| is_child_element(nodes, j, parent))
}

/// The positions of the element children of the node with id `parent`.
pub fn children_of_node(nodes: &Vec<XmlNode>, parent: usize) -> (r: Vec<usize>)
    ensures
        r@.map_values(|j: usize| j as int) == child_elements(nodes_view(nodes@), parent as nat),
        forall|a: int| 0 <= a < r@.len() ==> #[trigger] r@[a] < nodes@.len(),
{
    let ghost v = nodes_view(nodes@);
    let ghost all = Seq::new(v.len(), |j: int| j);
    let mut r: Vec<usize> = Vec::new();
    let mut i: usize = 0;
    while i < nodes.len()
        invariant
            i <= nodes@.len(),
            v == nodes_view(nodes@),
            all == Seq::new(v.len(), |j: int| j),
            r@.map_values(|j: usize| j as int) == all.take(i as int).filter(
                |j: int| is_child_element(v, j, parent as nat),
            ),
            forall|a: int| 0 <= a < r@.len() ==> #[trigger] r@[a] < i,
        decreases nodes.len() - i,
    {
        let ghost prev = r@.map_values(|j: usize| j as int);
        proof {
            reveal(Seq::filter);
            assert(all.take(i + 1).drop_last() =~= all.take(i as int));
            assert(all.take(i + 1).last() == i as int);
        }
        let is_child = match nodes[i].parent {
            Some(p) => nodes[i].is_element && p == parent,
            None => false,
        };
        if is_child {
            r.push(i);
            assert(r@.map_values(|j: usize| j as int) =~= prev.push(i as int));
        }
        i = i + 1;
    }
    assert(all.take(all.len() as int) =~= all);
    r
}

/// Whether node `j` is an element child of the node with id `parent`,
/// named `name`, in namespace `ns` or in none.
pub open spec fn is_child_in(nodes: Seq<NodeView>, j: int, parent: nat, ns: Seq<char>, name: Seq<char>) -> bool {
    &&& nodes[j].is_element
    &&& nodes[j].parent == Some(parent)
    &&& nodes[j].name == name
    &&& (nodes[j].namespace == Some(ns) || nodes[j].namespace is None)
}

/// The trimmed text of the first such child, when it has text.
pub open spec fn child_text_in_spec(nodes: Seq<NodeView>, parent: nat, ns: Seq<char>, name: Seq<char>) -> Option<Seq<char>> {
    if exists|j: int| 0 <= j < nodes.len() && is_child_in(nodes, j, parent, ns, name) {
        let j = choose|j: int|
            0 <= j < nodes.len() && is_child_in(nodes, j, parent, ns, name) && forall|k: int|
                0 <= k < j ==> !is_child_in(nodes, k, parent, ns, name);
        match nodes[j].text {
            Some(t) => Some(trim_spec(t)),
            None => None,
        }
    } else {
        None
    }
}

proof fn lemma_first_child_in(nodes: Seq<NodeView>, parent: nat, ns: Seq<char>, name: Seq<char>, j: int)
    requires
        0 <= j < nodes.len(),
        is_child_in(nodes, j, parent, ns, name),
        forall|k: int| 0 <= k < j ==> !is_child_in(nodes, k, parent, ns, name),
    ensures
        child_text_in_spec(nodes, parent, ns, name) == match nodes[j].text {
            Some(t) => Some(trim_spec(t)),
            None => None::<Seq<char>>,
        },
{
    let w = choose|w: int|
        0 <= w < nodes.len() && is_child_in(nodes, w, parent, ns, name) && forall|k: int|
            0 <= k < w ==> !is_child_in(nodes, k, parent, ns, name);
    if w < j {
        assert(!is_child_in(nodes, w, parent, ns, name));
    }
    if j < w {
        assert(!is_child_in(nodes, j, parent, ns, name));
    }
}

/// The trimmed text of an element's first child with this name, in this
/// namespace or in none.
pub fn child_text_in(nodes: &Vec<XmlNode>, parent: usize, ns: &str, name: &str) -> (r: Option<String>)
    ensures
        opt_view(r) == child_text_in_spec(nodes_view(nodes@), parent as nat, ns@, name@),
{
    let ghost v = nodes_view(nodes@);
    let mut j: usize = 0;
    while j < nodes.len()
        invariant
            j <= nodes@.len(),
            v == nodes_view(nodes@),
            forall|k: int| 0 <= k < j ==> !is_child_in(v, k, parent as nat, ns@, name@),
        decreases nodes.len() - j,
    {
        let n = &nodes[j];
        let in_ns = match &n.namespace {
            Some(x) => str_eq(x.as_str(), ns),
            None => true,
        };
        let parent_ok = match n.parent {
            Some(p) => p == parent,
            None => false,
        };
        if n.is_element && parent_ok && str_eq(n.name.as_str(), name) && in_ns {
            proof {
                lemma_first_child_in(v, parent as nat, ns@, name@, j as int);
            }
            return match &n.text {
                Some(t) => Some(trim(t.as_str())),
                None => None,
            };
        }
        j = j + 1;
    }
    None
}

/// Whether node `j` is an element named `name` whose id lies in
/// `lo..=hi`, in namespace `ns` when one is asked for.
pub open spec fn is_named_within(nodes: Seq<NodeView>, j: int, lo: nat, hi: nat, ns: Option<Seq<char>>, name: Seq<char>) -> bool {
    &&& nodes[j].is_element
    &&& nodes[j].name == name
    &&& lo <= nodes[j].id <= hi
    &&& (ns is None || nodes[j].namespace == ns)
}

/// The positions of those nodes, in document order.
pub open spec fn named_within(nodes: Seq<NodeView>, lo: nat, hi: nat, ns: Option<Seq<char>>, name: Seq<char>) -> Seq<int> {
    Seq::new(nodes.len(), |j: int| j).filter(|j: int| is_named_within(nodes, j, lo, hi, ns, name))
}

/// The positions of the elements named `name` whose ids lie in `lo..=hi`
/// (the descendants of a node, or the whole document), in namespace `ns`
/// when one is given.
pub fn find_named_within(nodes: &Vec<XmlNode>, lo: usize, hi: usize, ns: Option<&str>, name: &str) -> (r: Vec<usize>)
    ensures
        r@.map_values(|j: usize| j as int) == named_within(nodes_view(nodes@), lo as nat, hi as nat, opt_str_view(ns), name@),
        forall|a: int| 0 <= a < r@.len() ==> #[trigger] r@[a] < nodes@.len(),
{
    let ghost v = nodes_view(nodes@);
    let ghost all = Seq::new(v.len(), |j: int| j);
    let ghost nsv = opt_str_view(ns);
    let mut r: Vec<usize> = Vec::new();
    let mut i: usize = 0;
    while i < nodes.len()
        invariant
            i <= nodes@.len(),
            v == nodes_view(nodes@),
            nsv == opt_str_view(ns),
            all == Seq::new(v.len(), |j: int| j),
            r@.map_values(|j: usize| j as int) == all.take(i as int).filter(
                |j: int| is_named_within(v, j, lo as nat, hi as nat, nsv, name@),
            ),
            forall|a: int| 0 <= a < r@.len() ==> #[trigger] r@[a] < i,
        decreases nodes.len() - i,
    {
        let ghost prev = r@.map_values(|j: usize| j as int);
        proof {
            reveal(Seq::filter);
            assert(all.take(i + 1).drop_last() =~= all.take(i as int));
            assert(all.take(i + 1).last() == i as int);
        }
        let n = &nodes[i];
        let ns_ok = match ns {
            Some(x) => match &n.namespace {
                Some(y) => str_eq(y.as_str(), x),
                None => false,
            },
            None => true,
        };
        if n.is_element && str_eq(n.name.as_str(), name) && lo <= n.id && n.id <= hi && ns_ok {
            r.push(i);
            assert(r@.map_values(|j: usize| j as int) =~= prev.push(i as int));
        }
        i = i + 1;
    }
    assert(all.take(all.len() as int) =~= all);
    r
}

/// The view of an optional string slice.
pub open spec fn opt_str_view(o: Option<&str>) -> Option<Seq<char>> {
    match o {
        Some(s) => Some(s@),
        None => None,
    }
}

} // verus!
