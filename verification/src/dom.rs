//! The document tree: text leaves and elements with a tag, attributes and
//! ordered children, together with its mathematical model.

use vstd::prelude::*;

verus! {

/// The mathematical model of a tree node: a text leaf holds its content; an
/// element holds its tag name, its attributes as a map, and its children in
/// document order.
pub enum NodeView {
    Text { content: Seq<char> },
    Element { tag: Seq<char>, attrs: Map<Seq<char>, Seq<char>>, children: Seq<NodeView> },
}

/// The map described by a sequence of key/value entries, a later entry
/// overriding an earlier one with the same key.
pub open spec fn entries_map(s: Seq<(String, String)>) -> Map<Seq<char>, Seq<char>>
    decreases s.len(),
{
    if s.len() == 0 {
        Map::empty()
    } else {
        entries_map(s.drop_last()).insert(s.last().0@, s.last().1@)
    }
}

/// A mapping from attribute names to attribute values. Inserting an existing
/// key replaces its value (last occurrence wins); entry order carries no
/// meaning.
#[derive(Debug, Clone)]
pub struct AttrMap {
    pub entries: Vec<(String, String)>,
}

impl View for AttrMap {
    type V = Map<Seq<char>, Seq<char>>;

    open spec fn view(&self) -> Map<Seq<char>, Seq<char>> {
        entries_map(self.entries@)
    }
}

/// No two entries share a key.
pub open spec fn attrs_wf(s: Seq<(String, String)>) -> bool {
    forall|i: int, j: int| 0 <= i < j < s.len() ==> s[i].0@ != s[j].0@
}

/// Dropping the last entry keeps distinctness of keys.
proof fn lemma_attrs_wf_drop_last(s: Seq<(String, String)>)
    requires
        s.len() > 0,
        attrs_wf(s),
    ensures
        attrs_wf(s.drop_last()),
{
    assert forall|i: int, j: int| 0 <= i < j < s.drop_last().len() implies s.drop_last()[i].0@
        != s.drop_last()[j].0@ by {
        assert(s[i].0@ != s[j].0@);
    }
}

/// A key is in the map of an entry sequence exactly when some entry carries
/// it; with distinct keys, that entry's value is the map's value.
proof fn lemma_entries_map_get(s: Seq<(String, String)>, k: Seq<char>)
    requires
        attrs_wf(s),
    ensures
        entries_map(s).contains_key(k) <==> exists|i: int| 0 <= i < s.len() && s[i].0@ == k,
        forall|i: int|
            0 <= i < s.len() && s[i].0@ == k ==> entries_map(s).contains_key(k)
                && entries_map(s)[k] == s[i].1@,
    decreases s.len(),
{
    if s.len() > 0 {
        lemma_attrs_wf_drop_last(s);
        lemma_entries_map_get(s.drop_last(), k);
        assert forall|i: int|
            0 <= i < s.len() && s[i].0@ == k implies entries_map(s).contains_key(k)
            && entries_map(s)[k] == s[i].1@ by {
            if i < s.len() - 1 {
                assert(s.drop_last()[i] == s[i]);
                assert(s[i].0@ != s.last().0@);
            }
        }
        if entries_map(s).contains_key(k) {
            if k == s.last().0@ {
                assert(s[s.len() - 1].0@ == k);
            } else {
                let i = choose|i: int| 0 <= i < s.drop_last().len() && s.drop_last()[i].0@ == k;
                assert(s[i].0@ == k);
            }
        }
    }
}

impl AttrMap {
    /// The entry keys are distinct.
    pub open spec fn wf(&self) -> bool {
        attrs_wf(self.entries@)
    }

    /// An empty attribute map.
    pub fn new() -> (m: AttrMap)
        ensures
            m.wf(),
            m@ == Map::<Seq<char>, Seq<char>>::empty(),
    {
        AttrMap { entries: Vec::new() }
    }

    /// The position of the entry carrying `key`, if any.
    fn find(&self, key: &str) -> (r: Option<usize>)
        ensures
            match r {
                Some(i) => i < self.entries@.len() && self.entries@[i as int].0@ == key@,
                None => forall|i: int|
                    0 <= i < self.entries@.len() ==> self.entries@[i].0@ != key@,
            },
    {
        let mut i: usize = 0;
        while i < self.entries.len()
            invariant
                i <= self.entries@.len(),
                forall|j: int| 0 <= j < i ==> self.entries@[j].0@ != key@,
            decreases self.entries@.len() - i,
        {
            if crate::scan::str_eq(self.entries[i].0.as_str(), key) {
                return Some(i);
            }
            i = i + 1;
        }
        None
    }

    /// Insert a name/value pair; an entry already carrying the name is
    /// replaced.
    pub fn insert(&mut self, key: String, value: String)
        requires
            old(self).wf(),
        ensures
            final(self).wf(),
            final(self)@ == old(self)@.insert(key@, value@),
    {
        let ghost s0 = self.entries@;
        match self.find(key.as_str()) {
            Some(i) => {
                let _old = self.entries.remove(i);
                proof {
                    lemma_remove_key(s0, i as int);
                }
            },
            None => {},
        }
        let ghost s1 = self.entries@;
        self.entries.push((key, value));
        proof {
            assert(self.entries@.drop_last() == s1);
            assert(self@ == entries_map(s1).insert(key@, value@));
            assert forall|a: int| 0 <= a < s1.len() implies #[trigger] s1[a].0@ != key@ by {}
            assert forall|a: int, b: int|
                0 <= a < b < self.entries@.len() implies self.entries@[a].0@
                != self.entries@[b].0@ by {
                assert(self.entries@[a] == s1[a]);
                if b < self.entries@.len() - 1 {
                    assert(self.entries@[b] == s1[b]);
                }
            }
            assert(self@ =~= old(self)@.insert(key@, value@));
        }
    }

    /// Does the map carry `key`?
    pub fn contains_key(&self, key: &str) -> (b: bool)
        requires
            self.wf(),
        ensures
            b == self@.contains_key(key@),
    {
        proof {
            lemma_entries_map_get(self.entries@, key@);
        }
        self.find(key).is_some()
    }

    /// The value stored under `key`, if any.
    pub fn get(&self, key: &str) -> (r: Option<&String>)
        requires
            self.wf(),
        ensures
            match r {
                Some(v) => self@.contains_key(key@) && self@[key@] == v@,
                None => !self@.contains_key(key@),
            },
    {
        proof {
            lemma_entries_map_get(self.entries@, key@);
        }
        match self.find(key) {
            Some(i) => Some(&self.entries[i].1),
            None => None,
        }
    }
}

/// Removing the entry at `i` from a distinct-key sequence keeps distinctness
/// and removes exactly that entry's key from the map.
proof fn lemma_remove_key(s: Seq<(String, String)>, i: int)
    requires
        attrs_wf(s),
        0 <= i < s.len(),
    ensures
        attrs_wf(s.remove(i)),
        forall|a: int| 0 <= a < s.remove(i).len() ==> #[trigger] s.remove(i)[a].0@ != s[i].0@,
        entries_map(s.remove(i)) == entries_map(s).remove(s[i].0@),
{
    let r = s.remove(i);
    let key = s[i].0@;
    assert forall|a: int, b: int| 0 <= a < b < r.len() implies r[a].0@ != r[b].0@ by {
        let a2 = if a < i { a } else { a + 1 };
        let b2 = if b < i { b } else { b + 1 };
        assert(r[a] == s[a2]);
        assert(r[b] == s[b2]);
        assert(s[a2].0@ != s[b2].0@);
    }
    assert forall|a: int| 0 <= a < r.len() implies #[trigger] r[a].0@ != key by {
        let a2 = if a < i { a } else { a + 1 };
        assert(r[a] == s[a2]);
        assert(s[a2].0@ != s[i].0@);
    }
    assert forall|k: Seq<char>|
        #[trigger] entries_map(r).contains_key(k) == entries_map(s).remove(key).contains_key(k)
        && (entries_map(r).contains_key(k) ==> entries_map(r)[k] == entries_map(s).remove(
        key,
    )[k]) by {
        lemma_entries_map_get(s, k);
        lemma_entries_map_get(r, k);
        if k != key {
            if entries_map(s).contains_key(k) {
                let a = choose|a: int| 0 <= a < s.len() && s[a].0@ == k;
                let a2 = if a < i { a } else { a - 1 };
                assert(r[a2] == s[a]);
            }
            if entries_map(r).contains_key(k) {
                let a = choose|a: int| 0 <= a < r.len() && r[a].0@ == k;
                let a2 = if a < i { a } else { a + 1 };
                assert(r[a] == s[a2]);
            }
        }
    }
    assert(entries_map(r) =~= entries_map(s).remove(key));
}

/// What a node is: a text leaf or an element.
#[derive(Debug)]
pub enum NodeType {
    Text(String),
    Element(ElementData),
}

/// The data of an element: its tag name and attributes.
#[derive(Debug)]
pub struct ElementData {
    pub tag_name: String,
    pub attributes: AttrMap,
}

/// A tree node: its ordered children and its text or element data. Built
/// bottom-up by the constructors and immutable afterwards.
#[derive(Debug)]
pub struct Node {
    pub children: Vec<Node>,
    pub node_type: NodeType,
}

impl View for Node {
    type V = NodeView;

    open spec fn view(&self) -> NodeView
        decreases *self,
    {
        match self.node_type {
            NodeType::Text(s) => NodeView::Text { content: s@ },
            NodeType::Element(ed) => NodeView::Element {
                tag: ed.tag_name@,
                attrs: ed.attributes@,
                // the range guard keeps the recursion inside the closure
                // visibly well founded; the sequence never evaluates it
                // out of range
                children: Seq::new(
                    self.children@.len(),
                    |i: int|
                        if 0 <= i < self.children@.len() {
                            self.children@[i]@
                        } else {
                            NodeView::Text { content: Seq::empty() }
                        },
                ),
            },
        }
    }
}

/// Every node of `s` from position `i` on is well formed.
pub open spec fn nodes_wf(s: Seq<Node>, i: int) -> bool
    decreases s, s.len() - i,
{
    i >= s.len() || (0 <= i && s[i].wf() && nodes_wf(s, i + 1))
}

/// `nodes_wf` says that each node from `i` on is well formed.
pub proof fn lemma_nodes_wf(s: Seq<Node>, i: int)
    requires
        0 <= i <= s.len(),
    ensures
        nodes_wf(s, i) <==> (forall|k: int| i <= k < s.len() ==> #[trigger] s[k].wf()),
    decreases s.len() - i,
{
    if i < s.len() {
        lemma_nodes_wf(s, i + 1);
        if nodes_wf(s, i) {
            assert forall|k: int| i <= k < s.len() implies #[trigger] s[k].wf() by {
                if k > i {
                    assert(s[k].wf());
                }
            }
        }
        if forall|k: int| i <= k < s.len() ==> #[trigger] s[k].wf() {
            assert(s[i].wf());
        }
    }
}

/// The views of a sequence of nodes, in order.
pub open spec fn views_of(s: Seq<Node>) -> Seq<NodeView> {
    Seq::new(s.len(), |i: int| s[i]@)
}

impl Node {
    /// The node is well formed: its attribute keys are distinct, a text node
    /// has no children, and its children are well formed.
    pub open spec fn wf(&self) -> bool
        decreases *self,
    {
        match self.node_type {
            NodeType::Text(_) => self.children@.len() == 0,
            NodeType::Element(ed) => ed.attributes.wf() && nodes_wf(self.children@, 0),
        }
    }

    /// A text node holding the given content.
    pub fn new_text(data: String) -> (n: Node)
        ensures
            n.wf(),
            n@ == (NodeView::Text { content: data@ }),
            n.children@.len() == 0,
    {
        Node { children: Vec::new(), node_type: NodeType::Text(data) }
    }

    /// An element node owning the given children.
    pub fn new_element(name: String, attrs: AttrMap, children: Vec<Node>) -> (n: Node)
        requires
            attrs.wf(),
            forall|i: int| 0 <= i < children@.len() ==> #[trigger] children@[i].wf(),
        ensures
            n.wf(),
            n@ == (NodeView::Element {
                tag: name@,
                attrs: attrs@,
                children: views_of(children@),
            }),
    {
        let n = Node {
            children,
            node_type: NodeType::Element(ElementData { tag_name: name, attributes: attrs }),
        };
        proof {
            lemma_nodes_wf(n.children@, 0);
            assert(n@ matches NodeView::Element { children: c, .. } && c =~= views_of(
                n.children@,
            ));
        }
        n
    }

    /// The node's children, in document order.
    pub fn children(&self) -> (r: &Vec<Node>)
        requires
            self.wf(),
        ensures
            self@ matches NodeView::Element { children, .. } ==> views_of(r@) == children,
            self@ is Text ==> r@.len() == 0,
            forall|i: int| 0 <= i < r@.len() ==> #[trigger] r@[i].wf(),
    {
        proof {
            lemma_nodes_wf(self.children@, 0);
            match self@ {
                NodeView::Element { children, .. } => {
                    assert(views_of(self.children@) =~= children);
                },
                _ => {},
            }
        }
        &self.children
    }

    /// A discriminant naming the node's kind: `"text"` or `"element"`.
    pub fn node_type(&self) -> (r: Option<String>)
        ensures
            r matches Some(s),
            self@ is Text ==> (r matches Some(s) && s@ == "text"@),
            self@ is Element ==> (r matches Some(s) && s@ == "element"@),
    {
        match self.node_type {
            NodeType::Text(_) => Some("text".to_owned()),
            NodeType::Element(_) => Some("element".to_owned()),
        }
    }

    /// The element's tag name; absent for a text node.
    pub fn get_tag(&self) -> (r: Option<String>)
        ensures
            match r {
                Some(t) => self@ matches NodeView::Element { tag, .. } && t@ == tag,
                None => self@ is Text,
            },
    {
        match &self.node_type {
            NodeType::Element(elem) => Some(elem.tag_name.clone()),
            _ => None,
        }
    }

    /// The text content; absent for an element node.
    pub fn get_text(&self) -> (r: Option<String>)
        ensures
            match r {
                Some(t) => self@ matches NodeView::Text { content } && t@ == content,
                None => self@ is Element,
            },
    {
        match &self.node_type {
            NodeType::Text(data) => Some(data.clone()),
            _ => None,
        }
    }

    /// The element's attribute map; absent for a text node.
    pub fn attributes(&self) -> (r: Option<&AttrMap>)
        requires
            self.wf(),
        ensures
            match r {
                Some(m) => self@ matches NodeView::Element { attrs, .. } && m@ == attrs && m.wf(),
                None => self@ is Text,
            },
    {
        match &self.node_type {
            NodeType::Element(elem) => Some(&elem.attributes),
            _ => None,
        }
    }
}

} // verus!
