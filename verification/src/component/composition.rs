//! Composition: nodes of the component tree, named slots that components
//! fill with nodes, and the props of render-prop and compound components.
use vstd::prelude::*;
use crate::text::chars_of;

verus! {

/// A node of the UI tree: its identifier, attributes (each key once) and
/// children.
#[derive(Debug)]
pub struct Node {
    attributes: Vec<(String, String)>,
    children: Vec<Node>,
    id: usize,
}

/// The (key, value) contents of attribute pairs.
pub open spec fn pairs_view(ps: Seq<(String, String)>) -> Seq<(Seq<char>, Seq<char>)> {
    Seq::new(ps.len(), |i: int| (ps[i].0@, ps[i].1@))
}

/// The pairs after setting `k` to `v`: replaced where the key is, or added
/// at the end.
pub open spec fn with_pair(ps: Seq<(Seq<char>, Seq<char>)>, k: Seq<char>, v: Seq<char>) -> Seq<(Seq<char>, Seq<char>)> {
    if exists|i: int| 0 <= i < ps.len() && ps[i].0 == k {
        ps.update(choose|i: int| 0 <= i < ps.len() && ps[i].0 == k, (k, v))
    } else {
        ps.push((k, v))
    }
}

/// No key occurs twice.
pub open spec fn unique_keys(ps: Seq<(Seq<char>, Seq<char>)>) -> bool {
    forall|i: int, j: int| 0 <= i < j < ps.len() ==> ps[i].0 != ps[j].0
}

/// How many nodes a tree holds: the node and all nodes below it.
pub closed spec fn node_count(n: Node) -> nat
    decreases n,
{
    1 + nodes_count(n.children@, n.children@.len() as int)
}

/// How many nodes the first `k` trees hold.
pub open spec fn nodes_count(ns: Seq<Node>, k: int) -> nat
    decreases ns, k,
{
    if k <= 0 || k > ns.len() {
        0
    } else {
        nodes_count(ns, k - 1) + node_count(ns[k - 1])
    }
}

/// A tree holds its node and the nodes of its children's trees.
pub proof fn lemma_node_count(n: Node)
    ensures
        node_count(n) == 1 + nodes_count(n.spec_children(), n.spec_children().len() as int),
{
}

/// Each child tree holds fewer nodes than its parent's tree.
pub proof fn lemma_child_count(n: Node, k: int)
    requires
        0 <= k < n.spec_children().len(),
    ensures
        node_count(n.spec_children()[k]) < node_count(n),
{
    lemma_nodes_count_at(n.children@, k, n.children@.len() as int);
}

/// A tree among the first `j` holds at most what they hold together.
proof fn lemma_nodes_count_at(ns: Seq<Node>, k: int, j: int)
    requires
        0 <= k < j <= ns.len(),
    ensures
        node_count(ns[k]) <= nodes_count(ns, j),
    decreases j,
{
    if k < j - 1 {
        lemma_nodes_count_at(ns, k, j - 1);
    }
}

impl Node {
    /// The node's identifier, in specifications.
    pub closed spec fn spec_id(&self) -> usize {
        self.id
    }

    /// The node's attributes.
    pub closed spec fn spec_attributes(&self) -> Seq<(Seq<char>, Seq<char>)> {
        pairs_view(self.attributes@)
    }

    /// The node's children.
    pub closed spec fn spec_children(&self) -> Seq<Node> {
        self.children@
    }

    /// A node with the given identifier, no attributes and no children.
    pub fn new(id: usize) -> (r: Self)
        ensures
            r.spec_id() == id,
            r.spec_attributes().len() == 0,
            r.spec_children().len() == 0,
    {
        let r = Node { attributes: Vec::new(), children: Vec::new(), id };
        assert(r.spec_attributes() =~= Seq::<(Seq<char>, Seq<char>)>::empty());
        r
    }

    /// The node's identifier.
    pub fn id(&self) -> (r: Option<usize>)
        ensures
            r == Some(self.spec_id()),
    {
        Some(self.id)
    }

    /// The node's identifier.
    pub fn id_value(&self) -> (r: usize)
        ensures
            r == self.spec_id(),
    {
        self.id
    }

    /// The node's children.
    pub fn children(&self) -> (r: &[Node])
        ensures
            r@ == self.spec_children(),
    {
        self.children.as_slice()
    }

    /// Adds a child after the others.
    pub fn add_child(&mut self, child: Node)
        ensures
            final(self).spec_children() == old(self).spec_children().push(child),
            final(self).spec_attributes() == old(self).spec_attributes(),
            final(self).spec_id() == old(self).spec_id(),
    {
        self.children.push(child);
    }

    /// Sets attribute `key` to `value`.
    pub fn add_attribute(&mut self, key: String, value: String)
        requires
            unique_keys(old(self).spec_attributes()),
        ensures
            unique_keys(final(self).spec_attributes()),
            final(self).spec_attributes() == with_pair(old(self).spec_attributes(), key@, value@),
            final(self).spec_children() == old(self).spec_children(),
            final(self).spec_id() == old(self).spec_id(),
    {
        let ghost a0 = self.spec_attributes();
        let ghost k = key@;
        let ghost v = value@;
        let mut i: usize = 0;
        while i < self.attributes.len()
            invariant
                self.attributes@ == old(self).attributes@,
                self.children == old(self).children,
                self.id == old(self).id,
                a0 == pairs_view(self.attributes@),
                unique_keys(a0),
                k == key@,
                v == value@,
                i <= a0.len(),
                forall|j: int| 0 <= j < i ==> a0[j].0 != k,
            decreases a0.len() - i,
        {
            assert(a0[i as int].0 == self.attributes@[i as int].0@);
            if self.attributes[i].0 == key {
                let ghost c = choose|j: int| 0 <= j < a0.len() && a0[j].0 == k;
                assert(c == i) by {
                    if c < i {
                        assert(a0[c].0 != k);
                    } else if c > i {
                        assert(a0[i as int].0 != a0[c].0);
                    }
                }
                self.attributes.set(i, (key, value));
                assert(self.spec_attributes() =~= a0.update(i as int, (k, v)));
                return;
            }
            i = i + 1;
        }
        self.attributes.push((key, value));
        assert(self.spec_attributes() =~= a0.push((k, v)));
    }

    /// The node's attributes, as (key, value) pairs.
    pub fn attributes(&self) -> (r: &Vec<(String, String)>)
        ensures
            pairs_view(r@) == self.spec_attributes(),
    {
        &self.attributes
    }
}

/// A named place that a component fills with nodes.
#[derive(Debug)]
pub struct Slot {
    /// The slot's name.
    pub name: String,
    /// The nodes placed in it.
    pub nodes: Vec<Node>,
    /// Whether the slot must be filled.
    pub required: bool,
}

impl Slot {
    /// An empty, optional slot.
    pub fn new(name: &str) -> (r: Self)
        ensures
            r.name@ == name@,
            r.nodes@.len() == 0,
            !r.required,
    {
        Slot { name: name.to_owned(), nodes: Vec::new(), required: false }
    }

    /// The same slot, required.
    pub fn required(self) -> (r: Self)
        ensures
            r.name == self.name,
            r.nodes == self.nodes,
            r.required,
    {
        let mut s = self;
        s.required = true;
        s
    }

    /// The same slot holding `nodes`.
    pub fn with_nodes(self, nodes: Vec<Node>) -> (r: Self)
        ensures
            r.name == self.name,
            r.nodes == nodes,
            r.required == self.required,
    {
        let mut s = self;
        s.nodes = nodes;
        s
    }
}

/// The slots given to a component, one per name.
#[derive(Debug)]
pub struct SlottedProps {
    slots: Vec<Slot>,
}

impl SlottedProps {
    /// The slots, in the order they were first given.
    pub closed spec fn spec_slots(&self) -> Seq<Slot> {
        self.slots@
    }

    /// No slot name occurs twice.
    pub open spec fn wf(&self) -> bool {
        forall|i: int, j: int| 0 <= i < j < self.spec_slots().len() ==> self.spec_slots()[i].name@ != self.spec_slots()[j].name@
    }

    /// No slots.
    pub fn new() -> (r: Self)
        ensures
            r.wf(),
            r.spec_slots().len() == 0,
    {
        SlottedProps { slots: Vec::new() }
    }

    /// The same props with `slot`, which replaces a slot of the same name.
    pub fn with_slot(self, slot: Slot) -> (r: Self)
        requires
            self.wf(),
        ensures
            r.wf(),
            (exists|i: int| 0 <= i < self.spec_slots().len() && self.spec_slots()[i].name@ == slot.name@)
                ==> exists|i: int| 0 <= i < self.spec_slots().len() && self.spec_slots()[i].name@ == slot.name@
                && r.spec_slots() == self.spec_slots().update(i, slot),
            !(exists|i: int| 0 <= i < self.spec_slots().len() && self.spec_slots()[i].name@ == slot.name@)
                ==> r.spec_slots() == self.spec_slots().push(slot),
    {
        let ghost s0 = self.spec_slots();
        let mut s = self;
        let mut i: usize = 0;
        while i < s.slots.len()
            invariant
                s.slots@ == s0,
                s0 == self.spec_slots(),
                i <= s0.len(),
                forall|a: int, b: int| 0 <= a < b < s0.len() ==> s0[a].name@ != s0[b].name@,
                forall|j: int| 0 <= j < i ==> s0[j].name@ != slot.name@,
            decreases s0.len() - i,
        {
            if s.slots[i].name == slot.name {
                s.slots.set(i, slot);
                assert forall|a: int, b: int| 0 <= a < b < s.slots@.len() implies s.slots@[a].name@ != s.slots@[b].name@ by {
                    if a == i {
                        assert(s0[b].name@ != s0[a].name@);
                    } else if b == i {
                        assert(s0[a].name@ != s0[b].name@);
                    }
                }
                assert(s.slots@ == s0.update(i as int, slot));
                assert(s0[i as int].name@ == slot.name@);
                return s;
            }
            i = i + 1;
        }
        s.slots.push(slot);
        assert forall|a: int, b: int| 0 <= a < b < s.slots@.len() implies s.slots@[a].name@ != s.slots@[b].name@ by {
            if b == s0.len() {
                assert(s0[a].name@ != slot.name@);
            }
        }
        s
    }

    /// The slot with the given name, if any.
    pub fn get_slot(&self, name: &str) -> (r: Option<&Slot>)
        requires
            self.wf(),
        ensures
            match r {
                Some(slot) => exists|i: int| 0 <= i < self.spec_slots().len() && self.spec_slots()[i] == *slot
                    && slot.name@ == name@,
                None => forall|i: int| 0 <= i < self.spec_slots().len() ==> self.spec_slots()[i].name@ != name@,
            },
    {
        let wanted = chars_of(name);
        let mut i: usize = 0;
        while i < self.slots.len()
            invariant
                i <= self.slots@.len(),
                wanted@ == name@,
                forall|j: int| 0 <= j < i ==> self.slots@[j].name@ != name@,
            decreases self.slots@.len() - i,
        {
            let candidate = chars_of(self.slots[i].name.as_str());
            if crate::text::eq_chars(candidate.as_slice(), wanted.as_slice()) {
                assert(self.spec_slots()[i as int] == self.slots@[i as int]);
                return Some(&self.slots[i]);
            }
            i = i + 1;
        }
        None
    }
}

/// Props of a render-prop component: the data and what renders it.
#[derive(Debug, Clone)]
pub struct RenderPropProps<T, R> {
    /// The data.
    pub data: T,
    /// What renders the data.
    pub renderer: R,
}

/// Props of a flexible compound component: those of its parts.
#[derive(Debug)]
pub struct FlexibleCompoundProps {
    /// The parts' props.
    pub children: Vec<FlexibleCompoundProps>,
}

} // verus!
