//! The document tree: a `Document` holds an optional XML declaration and a
//! root `Node`; a `Node` is a closed tagged union over the six node kinds.
//! The tree is built bottom-up during a single parse call and returned as an
//! immutable value.

use crate::ord_map::OrdMap;
use vstd::prelude::*;

verus! {

/// An element or attribute name split into an optional namespace prefix and
/// the local part.
#[derive(Debug, Clone)]
pub struct Name {
    pub namespace: Option<String>,
    pub name: String,
}

/// A processing instruction `<?target key="value" ...?>`: the target and its
/// ordered key/value data.
#[derive(Debug, Clone)]
pub struct PIData {
    pub target: String,
    pub instructions: OrdMap,
}

/// One element: optional namespace prefix, local name, attributes, and the
/// ordered child nodes.
#[derive(Debug)]
pub struct ElementData {
    pub namespace: Option<String>,
    pub name: String,
    pub attributes: OrdMap,
    pub nodes: Vec<Node>,
}

/// One node of the tree.
#[derive(Debug)]
pub enum Node {
    /// `<element>`
    Element(ElementData),
    /// Raw character data between tags, kept verbatim.
    Text(String),
    /// `<![CDATA[...]]>` — recognised as a kind; content capture is a
    /// placeholder.
    CData(String),
    /// `<!-- comment -->` — unsupported: encountering one is a parse error.
    Comment(String),
    /// `<?target ...?>`
    ProcessingInstruction(PIData),
    /// `<!DOCTYPE ...>` kept as a raw blob.
    DocType(String),
}

/// An ordered run of nodes.
#[derive(Debug)]
pub struct Nodes(pub Vec<Node>);

impl Nodes {
    /// Whether this run is shorter than the other.
    pub fn size_le(&self, other: &Nodes) -> (r: bool)
        ensures
            r == (self.0@.len() < other.0@.len()),
    {
        self.0.len() < other.0.len()
    }

    /// Whether this run is longer than the other.
    pub fn size_gt(&self, other: &Nodes) -> (r: bool)
        ensures
            r == (self.0@.len() > other.0@.len()),
    {
        self.0.len() > other.0.len()
    }
}

/// The XML version named by a declaration.
#[derive(Debug, Clone, Copy, PartialEq, Eq, Structural)]
pub enum Version {
    One,
    OneDotOne,
}

/// The character encoding named by a declaration.
#[derive(Debug, Clone, Copy, PartialEq, Eq, Structural)]
pub enum Encoding {
    Utf8,
}

/// The XML declaration: `version` and `encoding`, each optional.
#[derive(Debug, Clone, Copy, PartialEq, Eq, Structural)]
pub struct Declaration {
    pub version: Option<Version>,
    pub encoding: Option<Encoding>,
}

/// A parsed document: the optional declaration and the root node, which a
/// successful parse always makes an `Element`.
#[derive(Debug)]
pub struct Document {
    pub declaration: Option<Declaration>,
    pub root: Node,
}

impl Default for ElementData {
    /// An element with no namespace, empty name, no attributes, no children.
    fn default() -> (r: ElementData)
        ensures
            r.namespace is None,
            r.name@ == Seq::<char>::empty(),
            r.attributes@ == Seq::<(Seq<char>, Seq<char>)>::empty(),
            r.nodes@ == Seq::<Node>::empty(),
    {
        let r = ElementData {
            namespace: None,
            name: String::new(),
            attributes: crate::ord_map::OrdMap::new(),
            nodes: Vec::new(),
        };
        r
    }
}

impl Default for Node {
    /// An empty element node.
    fn default() -> (r: Node)
        ensures
            r matches Node::Element(e) && e.namespace is None && e.name@ == Seq::<char>::empty()
                && e.attributes@ == Seq::<(Seq<char>, Seq<char>)>::empty() && e.nodes@
                == Seq::<Node>::empty(),
    {
        Node::Element(ElementData::default())
    }
}

/// The full name an end tag must match: `namespace:name` when a namespace
/// prefix is present, the bare name otherwise.
pub open spec fn spec_fullname(namespace: Option<Seq<char>>, name: Seq<char>) -> Seq<char> {
    match namespace {
        Some(ns) => ns + seq![':'] + name,
        None => name,
    }
}

impl ElementData {
    /// The element's full name, `namespace:name` or the bare name.
    pub fn fullname(&self) -> (r: String)
        ensures
            r@ == spec_fullname(
                match self.namespace {
                    Some(ns) => Some(ns@),
                    None => None,
                },
                self.name@,
            ),
    {
        match &self.namespace {
            Some(ns) => {
                let mut s = ns.clone();
                s.append(":");
                s.append(self.name.as_str());
                proof {
                    reveal_strlit(":");
                    assert(":"@ =~= seq![':']);
                }
                s
            },
            None => self.name.clone(),
        }
    }
}

impl Document {
    /// A fresh document: no declaration, an empty element as root.
    pub fn new() -> (r: Document)
        ensures
            r.declaration is None,
            r.root matches Node::Element(e) && e.namespace is None && e.name@ == Seq::<
                char,
            >::empty() && e.attributes@ == Seq::<(Seq<char>, Seq<char>)>::empty() && e.nodes@
                == Seq::<Node>::empty(),
    {
        Document { declaration: None, root: Node::default() }
    }

    /// The root node.
    pub fn root(&self) -> (r: &Node)
        ensures
            r == &self.root,
    {
        &self.root
    }
}

impl Default for Document {
    /// Same as `Document::new`.
    fn default() -> (r: Document)
        ensures
            r.declaration is None,
            r.root matches Node::Element(e) && e.namespace is None && e.name@ == Seq::<
                char,
            >::empty(),
    {
        Document::new()
    }
}

/// The nesting depth of an element: 1 for an element without element
/// children, otherwise one more than the deepest element child.
pub open spec fn element_depth(e: ElementData) -> int
    decreases e,
{
    1 + max_node_depth(e.nodes@)
}

/// The depth a single node contributes: only elements count.
pub open spec fn node_depth(n: Node) -> int
    decreases n,
{
    match n {
        Node::Element(e) => element_depth(e),
        _ => 0,
    }
}

/// The deepest element among a run of nodes, or 0 when none is an element.
pub open spec fn max_node_depth(s: Seq<Node>) -> int
    decreases s,
{
    if s.len() == 0 {
        0
    } else {
        let head = node_depth(s[0]);
        let rest = max_node_depth(s.drop_first());
        if head > rest {
            head
        } else {
            rest
        }
    }
}

/// Depths are never negative, and every node of a run stays at or below the
/// run's maximum.
pub proof fn lemma_max_node_depth(s: Seq<Node>)
    ensures
        0 <= max_node_depth(s),
        forall|i: int| 0 <= i < s.len() ==> node_depth(s[i]) <= max_node_depth(s),
    decreases s,
{
    if s.len() > 0 {
        lemma_max_node_depth(s.drop_first());
        assert forall|i: int| 0 <= i < s.len() implies node_depth(s[i]) <= max_node_depth(s) by {
            if i > 0 {
                assert(s.drop_first()[i - 1] == s[i]);
            }
        }
    }
}

/// Appending a node to a run takes the maximum of the old maximum and the
/// new node's depth.
pub proof fn lemma_max_node_depth_push(s: Seq<Node>, x: Node)
    ensures
        max_node_depth(s.push(x)) == if node_depth(x) > max_node_depth(s) {
            node_depth(x)
        } else {
            max_node_depth(s)
        },
    decreases s,
{
    if s.len() == 0 {
        assert(s.push(x)[0] == x);
        assert(s.push(x).drop_first() =~= Seq::<Node>::empty());
        assert(max_node_depth(s.push(x).drop_first()) == 0);
    } else {
        assert(s.push(x).drop_first() =~= s.drop_first().push(x));
        lemma_max_node_depth_push(s.drop_first(), x);
        assert(s.push(x)[0] == s[0]);
        assert(max_node_depth(s.push(x)) == if node_depth(s[0]) > max_node_depth(
            s.push(x).drop_first(),
        ) {
            node_depth(s[0])
        } else {
            max_node_depth(s.push(x).drop_first())
        });
        assert(max_node_depth(s) == if node_depth(s[0]) > max_node_depth(s.drop_first()) {
            node_depth(s[0])
        } else {
            max_node_depth(s.drop_first())
        });
    }
}

/// The deepest nesting of elements below (and including) `element`.
/// A depth clamped to what a `u64` can carry: exact up to `u64::MAX`,
/// saturated beyond it (no element a machine can hold comes near that).
pub open spec fn depth_capped(d: int) -> int {
    if d <= u64::MAX {
        d
    } else {
        u64::MAX as int
    }
}

/// The deepest nesting of elements below (and including) `element`: exactly
/// the element's depth, saturating at `u64::MAX`.
pub fn max_element_depth(element: &ElementData) -> (r: u64)
    ensures
        r == depth_capped(element_depth(*element)),
    decreases *element,
{
    let nodes = &element.nodes;
    let mut max_found: u64 = 0;
    let mut i: usize = 0;
    proof {
        lemma_max_node_depth(nodes@);
        assert(max_node_depth(nodes@.take(0)) == 0) by {
            assert(nodes@.take(0) =~= Seq::<Node>::empty());
        }
    }
    while i < nodes.len()
        invariant
            i <= nodes@.len(),
            *nodes == element.nodes,
            max_found == depth_capped(max_node_depth(nodes@.take(i as int))),
        decreases nodes@.len() - i,
    {
        proof {
            lemma_max_node_depth(nodes@);
            lemma_max_node_depth(nodes@.take(i as int));
            assert(nodes@.take(i as int).push(nodes@[i as int]) =~= nodes@.take(i as int + 1));
            lemma_max_node_depth_push(nodes@.take(i as int), nodes@[i as int]);
            assert(decreases_to!(*element => element.nodes));
            assert(decreases_to!(element.nodes => element.nodes@));
            assert(decreases_to!(element.nodes@ => element.nodes@[i as int]));
        }
        match &nodes[i] {
            Node::Element(child) => {
                proof {
                    assert(nodes@[i as int] matches Node::Element(c) && c == *child);
                    assert(decreases_to!(element.nodes@[i as int] => *child));
                    assert(node_depth(nodes@[i as int]) == element_depth(*child));
                }
                let curr = max_element_depth(child);
                if curr > max_found {
                    max_found = curr;
                }
            },
            _ => {},
        }
        i = i + 1;
    }
    proof {
        assert(nodes@.take(nodes@.len() as int) =~= nodes@);
        lemma_max_node_depth(nodes@);
    }
    if max_found == u64::MAX {
        max_found
    } else {
        max_found + 1
    }
}

} // verus!
